//! What hub and worker do with a control region.
//!
//! - [`SlotBus`]: hub side. Dispatches requests and hands out responses.
//! - [`SlotWorker`]: worker side. Takes requests and sends responses.
//!
//! Both work on the bytes of the mapping. Each step comes in two forms: one that
//! leaves the status of the slot to the caller, for callers that change it with
//! atomic operations, and one that changes it in the bytes.

use std::collections::HashMap;

use vstd::prelude::*;
use vstd::string::StringExecFns;
use vstd::utf8::*;

use crate::codec;
use crate::config::{ConfigView, Side, SlotBusConfig};
use crate::error::{ErrorView, SlotBusError};
use crate::overflow;
use crate::overflow::Mapper;
use crate::region;
use crate::region::{RegionView, ShmRegion};
use crate::slots;
use crate::table::Table;
use crate::types;
use crate::types::{
    RequestMeta, RequestMetaView, ResponseMeta, SLOT_DONE, SLOT_FREE, SLOT_READY, SLOT_WRITING,
};

pub use crate::worker::SlotWorker;

verus! {

broadcast use vstd::std_specs::hash::group_hash_axioms;

// ---- Request / Response types ------------------------------------------------

/// The value that the last pair with the key `key` gives it, if any does.
pub open spec fn last_value(pairs: Seq<(Seq<char>, Seq<char>)>, key: Seq<char>) -> Option<
    Seq<char>,
>
    decreases pairs.len(),
{
    if pairs.len() == 0 {
        None
    } else if pairs.last().0 == key {
        Some(pairs.last().1)
    } else {
        last_value(pairs.drop_last(), key)
    }
}

/// The last value that pairs give a key is that of the pair with this key behind
/// which no other has it, and there is none where no pair has the key.
pub proof fn last_values_are_the_last(pairs: Seq<(Seq<char>, Seq<char>)>)
    ensures
        forall|i: int|
            0 <= i < pairs.len() && (forall|j: int|
                i < j < pairs.len() ==> (#[trigger] pairs[j]).0 != pairs[i].0)
                ==> last_value(pairs, (#[trigger] pairs[i]).0) == Some(pairs[i].1),
        forall|key: Seq<char>|
            (#[trigger] last_value(pairs, key)) is Some ==> exists|i: int|
                {
                    &&& 0 <= i < pairs.len()
                    &&& (#[trigger] pairs[i]).0 == key
                    &&& last_value(pairs, key) == Some(pairs[i].1)
                    &&& forall|j: int| i < j < pairs.len() ==> (#[trigger] pairs[j]).0 != key
                },
    decreases pairs.len(),
{
    if pairs.len() > 0 {
        let before = pairs.drop_last();
        let end = pairs.len() - 1;
        last_values_are_the_last(before);
        assert forall|i: int|
            0 <= i < pairs.len() && (forall|j: int|
                i < j < pairs.len() ==> (#[trigger] pairs[j]).0 != pairs[i].0) implies
            last_value(pairs, (#[trigger] pairs[i]).0) == Some(pairs[i].1) by {
            if i < end {
                assert(pairs[end].0 != pairs[i].0);
                assert(before[i] == pairs[i]);
                assert forall|j: int| i < j < before.len() implies (#[trigger] before[j]).0
                    != before[i].0 by {
                    assert(before[j] == pairs[j]);
                }
            }
        }
        assert forall|key: Seq<char>|
            (#[trigger] last_value(pairs, key)) is Some implies exists|i: int|
            {
                &&& 0 <= i < pairs.len()
                &&& (#[trigger] pairs[i]).0 == key
                &&& last_value(pairs, key) == Some(pairs[i].1)
                &&& forall|j: int| i < j < pairs.len() ==> (#[trigger] pairs[j]).0 != key
            } by {
            if pairs[end].0 == key {
                assert(last_value(pairs, key) == Some(pairs[end].1));
            } else {
                assert(last_value(before, key) is Some);
                let i = choose|i: int|
                    {
                        &&& 0 <= i < before.len()
                        &&& (#[trigger] before[i]).0 == key
                        &&& last_value(before, key) == Some(before[i].1)
                        &&& forall|j: int| i < j < before.len() ==> (#[trigger] before[j]).0 != key
                    };
                assert(pairs[i] == before[i]);
                assert forall|j: int| i < j < pairs.len() implies (#[trigger] pairs[j]).0 != key by {
                    if j < end {
                        assert(pairs[j] == before[j]);
                    }
                }
            }
        }
    }
}

/// The text that a table of texts holds for a key.
pub open spec fn text_for(table: Map<Seq<char>, String>, key: Seq<char>) -> Option<Seq<char>> {
    if table.contains_key(key) {
        Some(table[key]@)
    } else {
        None
    }
}

/// A table of the given pairs. Where a key occurs several times, its last value
/// counts.
pub fn collect_pairs(pairs: Vec<(String, String)>) -> (r: Table<String>)
    ensures
        r.wf(),
        forall|key: Seq<char>| #[trigger] text_for(r@, key) == last_value(types::pairs(pairs@), key),
{
    let mut r: Table<String> = Table::new();
    let mut i: usize = 0;
    let ghost all = types::pairs(pairs@);
    while i < pairs.len()
        invariant
            i <= pairs@.len(),
            all == types::pairs(pairs@),
            r.wf(),
            forall|key: Seq<char>| #[trigger]
                text_for(r@, key) == last_value(all.take(i as int), key),
        decreases pairs@.len() - i,
    {
        let ghost before = r@;
        r.insert(pairs[i].0.clone(), pairs[i].1.clone());
        i = i + 1;
        assert(all.take(i as int).drop_last() =~= all.take(i - 1));
        assert(all.take(i as int).last() == (pairs@[i - 1].0@, pairs@[i - 1].1@));
        assert forall|key: Seq<char>| #[trigger] text_for(r@, key) == last_value(
            all.take(i as int),
            key,
        ) by {
            assert(text_for(before, key) == last_value(all.take(i - 1), key));
        }
    }
    assert(all.take(pairs@.len() as int) =~= all);
    r
}

/// A decoded request received by a worker from the hub.
#[derive(Debug)]
pub struct Request {
    /// Unique request identifier (UUID).
    pub req_id: String,
    /// HTTP method (GET, POST, etc.).
    pub method: String,
    /// Request path (e.g. `/session/abc123`).
    pub path: String,
    /// Matched route pattern (e.g. `/session/:id`).
    pub route_pattern: String,
    /// Extracted path parameters.
    pub path_params: Table<String>,
    /// Raw query string.
    pub query: Option<String>,
    /// Request body bytes.
    pub body: Vec<u8>,
    /// Request headers.
    pub headers: Table<String>,
}

impl Request {
    /// This request was made of the given parts.
    pub open spec fn made_of(
        self,
        id: Seq<char>,
        method: u8,
        meta: RequestMetaView,
        body: Seq<u8>,
    ) -> bool {
        &&& self.req_id@ == id
        &&& self.method@ == types::method_name(method)
        &&& self.path@ == meta.path
        &&& self.route_pattern@ == meta.route_pattern
        &&& self.path_params.wf()
        &&& forall|key: Seq<char>| #[trigger]
            text_for(self.path_params@, key) == last_value(meta.path_params, key)
        &&& types::optional(self.query) == meta.query
        &&& self.headers.wf()
        &&& forall|key: Seq<char>| #[trigger]
            text_for(self.headers@, key) == last_value(meta.headers, key)
        &&& self.body@ == body
    }

    /// Makes a request of what a slot holds.
    pub fn from_parts(req_id: String, method: u8, meta: RequestMeta, body: Vec<u8>) -> (r: Request)
        ensures
            r.made_of(req_id@, method, meta@, body@),
    {
        Request {
            req_id,
            method: types::u8_to_method(method).to_owned(),
            path: meta.path,
            route_pattern: meta.route_pattern,
            path_params: collect_pairs(meta.path_params),
            query: meta.query,
            body,
            headers: collect_pairs(meta.headers),
        }
    }
}

/// A decoded response received by the hub from a worker.
#[derive(Debug)]
pub struct Response {
    /// HTTP status code.
    pub status: u16,
    /// Response body bytes.
    pub body: Vec<u8>,
    /// Content-Type header value.
    pub content_type: String,
    /// Additional response headers.
    pub headers: Vec<(String, String)>,
}

// ---- SlotBus (hub-side) ------------------------------------------------------

/// Hub-side state for dispatching requests to a worker via shared memory.
///
/// `T` is what the hub keeps for a request until its response comes; `R` is a
/// handle that keeps an overflow region alive.
pub struct SlotBus<T, R> {
    config: SlotBusConfig,
    region: ShmRegion,
    pending: Table<(String, T)>,
    overflow_regions: HashMap<usize, R>,
    running: bool,
}

/// A [`SlotBus`] as a mathematical value. A pending request is known by its id
/// and has a label and the hub's ticket for it.
pub struct BusView<T, R> {
    pub config: ConfigView,
    pub region: RegionView,
    pub pending: Map<Seq<char>, (Seq<char>, T)>,
    pub overflow_regions: Map<usize, R>,
    pub running: bool,
}

impl<T, R> View for SlotBus<T, R> {
    type V = BusView<T, R>;

    closed spec fn view(&self) -> BusView<T, R> {
        BusView {
            config: self.config@,
            region: self.region@,
            pending: self.pending@.map_values(|e: (String, T)| (e.0@, e.1)),
            overflow_regions: self.overflow_regions@,
            running: self.running,
        }
    }
}

fn id_refused(id: &str) -> (r: SlotBusError)
    ensures
        r@ == ErrorView::Serialization(slots::id_refused_text(id@)),
{
    SlotBusError::Serialization(
        String::from_str("request id '").concat(id).concat(
            "' does not fit in a slot: at most 36 bytes, none of them zero",
        ),
    )
}

/// The label of a request: its method and its path.
pub open spec fn request_label(method: Seq<char>, path: Seq<char>) -> Seq<char> {
    method + " "@ + path
}

impl<T, R> BusView<T, R> {
    /// How writing a request into a reserved slot may change the bus, given how
    /// the write itself ended.
    pub open spec fn after_write(
        self,
        after: BusView<T, R>,
        slot: usize,
        req_id: Seq<char>,
        label: Seq<char>,
        ticket: T,
        written: Result<Option<R>, SlotBusError>,
        res: Result<(), SlotBusError>,
    ) -> bool {
        match written {
            Ok(handle) => {
                &&& res is Ok
                &&& after == (BusView {
                    pending: self.pending.insert(req_id, (label, ticket)),
                    overflow_regions: match handle {
                        Some(h) => self.overflow_regions.insert(slot, h),
                        None => self.overflow_regions.remove(slot),
                    },
                    ..self
                })
            },
            Err(e) => {
                &&& res == Err::<(), SlotBusError>(e)
                &&& after == (BusView {
                    overflow_regions: self.overflow_regions.remove(slot),
                    ..self
                })
            },
        }
    }

    /// The functions of `os` can be called as dispatching a request into a slot
    /// calls them: to make an overflow region, where the request needs one.
    pub open spec fn can_dispatch<
        C: Fn(&str, usize, bool) -> Result<Option<R>, SlotBusError>,
        Q: Fn(&str) -> bool,
        F: Fn(&R, &str, &[u8]) -> Result<(), SlotBusError>,
    >(
        self,
        os: Mapper<C, Q, F>,
        slot: usize,
        req_id: Seq<char>,
        meta: RequestMetaView,
        body: Seq<u8>,
    ) -> bool {
        slot < self.region.num_slots && slots::id_fits(req_id) && self.region.needs_overflow(
            Side::Request,
            codec::request_meta_bytes(meta).len(),
            body.len(),
        ) ==> overflow::can_search::<R, C, Q, F>(
            os,
            overflow::names_of_slot(self.config, Side::Request, slot as nat),
            body,
        )
    }

    /// How writing a request into a reserved slot may end. An id that the slot
    /// could not give back is refused and changes nothing. The metadata goes into
    /// the slot as bytes that decode to it again.
    pub open spec fn dispatched<
        C: Fn(&str, usize, bool) -> Result<Option<R>, SlotBusError>,
        Q: Fn(&str) -> bool,
        F: Fn(&R, &str, &[u8]) -> Result<(), SlotBusError>,
    >(
        self,
        after: BusView<T, R>,
        os: Mapper<C, Q, F>,
        slot: usize,
        req_id: Seq<char>,
        method: Seq<char>,
        meta: RequestMetaView,
        body: Seq<u8>,
        ticket: T,
        mem: Seq<u8>,
        mem_after: Seq<u8>,
        on_ok: Option<u32>,
        on_err: Option<u32>,
        res: Result<(), SlotBusError>,
    ) -> bool {
        if !slots::id_fits(req_id) {
            &&& res matches Err(e)
            &&& e@ == ErrorView::Serialization(slots::id_refused_text(req_id))
            &&& after == self
            &&& mem_after == mem
        } else {
            exists|written: Result<Option<R>, SlotBusError>|
                {
                    &&& #[trigger] slots::request_written(
                        self.region,
                        os,
                        self.config,
                        slot as nat,
                        encode_utf8(req_id),
                        types::method_code(method),
                        codec::request_meta_bytes(meta),
                        body,
                        mem,
                        mem_after,
                        on_ok,
                        on_err,
                        written,
                    )
                    &&& codec::request_meta_of(codec::request_meta_bytes(meta)) == codec::decoded(meta)
                    &&& self.after_write(
                        after,
                        slot,
                        req_id,
                        request_label(method, meta.path),
                        ticket,
                        written,
                        res,
                    )
                }
        }
    }

    /// `slot` is the first free slot.
    pub open spec fn first_free(self, mem: Seq<u8>, slot: usize) -> bool {
        &&& slot < self.region.num_slots
        &&& types::slot_status(mem, slot as nat) == SLOT_FREE
        &&& forall|j: nat| j < slot ==> types::slot_status(mem, j) != SLOT_FREE
    }

    /// No slot is free.
    pub open spec fn none_free(self, mem: Seq<u8>) -> bool {
        forall|j: nat| j < self.region.num_slots ==> types::slot_status(mem, j) != SLOT_FREE
    }
}

impl<T, R> SlotBus<T, R> {
    /// No request is pending twice.
    pub closed spec fn wf(&self) -> bool {
        self.pending.wf()
    }

    /// Lay out the control region of a worker in a mapping. A mapping that is
    /// too small is refused.
    pub fn create(config: SlotBusConfig, mapping: ShmRegion, mem: &mut [u8]) -> (r: Result<
        Self,
        SlotBusError,
    >)
        requires
            old(mem)@.len() == mapping@.len,
            types::heap_start(config@.num_slots) <= usize::MAX,
        ensures
            ({
                let heap_offset = types::heap_start(config@.num_slots);
                let heap_size = types::heap_room(config@.num_slots, config@.region_size);
                let needed = heap_offset + heap_size;
                if needed > mapping@.len {
                    &&& r matches Err(e)
                    &&& e@ == ErrorView::InvalidRegion(
                        region::layout_too_large_text(mapping@, needed, config@),
                    )
                    &&& final(mem)@ == old(mem)@
                } else {
                    &&& r matches Ok(bus)
                    &&& bus.wf()
                    &&& bus@ == (BusView::<T, R> {
                        config: config@,
                        region: RegionView {
                            num_slots: config@.num_slots,
                            heap_offset,
                            heap_size,
                            ..mapping@
                        },
                        pending: Map::empty(),
                        overflow_regions: Map::empty(),
                        running: true,
                    })
                    &&& bus@.region.maps(final(mem)@)
                    &&& final(mem)@ == region::initial_image(
                        mapping@.len,
                        config@.num_slots,
                        heap_offset,
                        heap_size,
                    )
                }
            }),
    {
        let mut region = mapping;
        match region.init_control(mem, &config) {
            Ok(_) => {},
            Err(e) => return Err(e),
        }
        let bus = SlotBus {
            config,
            region,
            pending: Table::new(),
            overflow_regions: HashMap::new(),
            running: true,
        };
        assert(bus@.pending =~= Map::empty());
        Ok(bus)
    }

    /// The configuration used to create this bus.
    pub fn config(&self) -> (r: &SlotBusConfig)
        ensures
            r@ == self@.config,
    {
        &self.config
    }

    /// The control region of this bus.
    pub fn region(&self) -> (r: &ShmRegion)
        ensures
            r@ == self@.region,
    {
        &self.region
    }

    /// The OS-level name of the SHM region (pass to workers for connection).
    pub fn region_name(&self) -> (r: String)
        ensures
            r@ == self@.config.region_name(),
    {
        self.config.region_name()
    }

    /// Writes a request into a slot that the caller has reserved, and remembers
    /// it as pending. The status of the slot is left to the caller. An id that
    /// the slot could not give back, so that no response would ever find its
    /// request, is refused.
    pub fn dispatch_into<
        C: Fn(&str, usize, bool) -> Result<Option<R>, SlotBusError>,
        Q: Fn(&str) -> bool,
        F: Fn(&R, &str, &[u8]) -> Result<(), SlotBusError>,
    >(
        &mut self,
        mem: &mut [u8],
        os: &Mapper<C, Q, F>,
        slot_index: usize,
        req_id: &str,
        method: &str,
        meta: &RequestMeta,
        body: &[u8],
        ticket: T,
    ) -> (res: Result<(), SlotBusError>)
        requires
            old(self).wf(),
            old(self)@.region.maps(old(mem)@),
            body@.len() + 4095 <= usize::MAX,
            old(self)@.can_dispatch(*os, slot_index, req_id@, meta@, body@),
        ensures
            final(self).wf(),
            old(self)@.dispatched(
                final(self)@,
                *os,
                slot_index,
                req_id@,
                method@,
                meta@,
                body@,
                ticket,
                old(mem)@,
                final(mem)@,
                None,
                None,
                res,
            ),
    {
        let ghost before = self@;
        if !slots::id_is_storable(req_id) {
            return Err(id_refused(req_id));
        }
        let meta_bytes = match codec::encode_request_meta(meta) {
            Ok(data) => data,
            Err(e) => return Err(e),
        };
        self.overflow_regions.remove(&slot_index);
        let written = slots::place_request(
            &self.region,
            mem,
            os,
            slot_index,
            req_id,
            types::method_to_u8(method),
            meta_bytes.as_slice(),
            body,
            &self.config,
        );
        let ghost outcome = written;
        match written {
            Ok(handle) => {
                if let Some(h) = handle {
                    self.overflow_regions.insert(slot_index, h);
                    assert(self@.overflow_regions =~= before.overflow_regions.insert(
                        slot_index,
                        h,
                    ));
                }
                let label = method.to_owned().concat(" ").concat(meta.path.as_str());
                let ghost text = label@;
                self.pending.insert(req_id.to_owned(), (label, ticket));
                assert(self@.pending =~= before.pending.insert(req_id@, (text, ticket)));
                assert(before.after_write(
                    self@,
                    slot_index,
                    req_id@,
                    text,
                    ticket,
                    outcome,
                    Ok(()),
                ));
                Ok(())
            },
            Err(e) => {
                assert(before.after_write(
                    self@,
                    slot_index,
                    req_id@,
                    request_label(method@, meta@.path),
                    ticket,
                    outcome,
                    Err(e),
                ));
                Err(e)
            },
        }
    }

    /// Dispatch a request to the worker: reserve the first free slot, write the
    /// request into it and remember it as pending. Returns the slot; the worker
    /// has then to be signaled. Where no slot is free, and where the slot could
    /// not give the id back, the request is refused and nothing changes.
    pub fn dispatch<
        C: Fn(&str, usize, bool) -> Result<Option<R>, SlotBusError>,
        Q: Fn(&str) -> bool,
        F: Fn(&R, &str, &[u8]) -> Result<(), SlotBusError>,
    >(
        &mut self,
        mem: &mut [u8],
        os: &Mapper<C, Q, F>,
        req_id: &str,
        method: &str,
        meta: &RequestMeta,
        body: &[u8],
        ticket: T,
    ) -> (res: Result<usize, SlotBusError>)
        requires
            old(self).wf(),
            old(self)@.region.maps(old(mem)@),
            body@.len() + 4095 <= usize::MAX,
            forall|slot: usize| #[trigger]
                old(self)@.first_free(old(mem)@, slot) ==> old(self)@.can_dispatch(
                    *os,
                    slot,
                    req_id@,
                    meta@,
                    body@,
                ),
        ensures
            final(self).wf(),
            if old(self)@.none_free(old(mem)@) {
                &&& res matches Err(e)
                &&& e@ == ErrorView::NoFreeSlots(old(self)@.config.num_slots)
                &&& final(self)@ == old(self)@
                &&& final(mem)@ == old(mem)@
            } else if !slots::id_fits(req_id@) {
                &&& res matches Err(e)
                &&& e@ == ErrorView::Serialization(slots::id_refused_text(req_id@))
                &&& final(self)@ == old(self)@
                &&& final(mem)@ == old(mem)@
            } else {
                match res {
                    Ok(slot) => {
                        &&& old(self)@.first_free(old(mem)@, slot)
                        &&& old(self)@.dispatched(
                            final(self)@,
                            *os,
                            slot,
                            req_id@,
                            method@,
                            meta@,
                            body@,
                            ticket,
                            region::with_status(old(mem)@, slot as nat, SLOT_WRITING),
                            final(mem)@,
                            Some(SLOT_READY),
                            Some(SLOT_FREE),
                            Ok(()),
                        )
                    },
                    Err(e) => exists|slot: usize|
                        #![trigger old(self)@.first_free(old(mem)@, slot)]
                        {
                            &&& old(self)@.first_free(old(mem)@, slot)
                            &&& old(self)@.dispatched(
                                final(self)@,
                                *os,
                                slot,
                                req_id@,
                                method@,
                                meta@,
                                body@,
                                ticket,
                                region::with_status(old(mem)@, slot as nat, SLOT_WRITING),
                                final(mem)@,
                                Some(SLOT_READY),
                                Some(SLOT_FREE),
                                Err(e),
                            )
                        },
                }
            },
    {
        let ghost before = self@;
        let ghost free = mem@;
        let slot_index: usize = match region::claim_free_slot(&self.region, mem) {
            Some(i) => i,
            None => return Err(SlotBusError::NoFreeSlots(self.config.num_slots)),
        };
        assert(before.first_free(free, slot_index));
        assert(!before.none_free(free));
        let ghost reserved = mem@;
        let res = self.dispatch_into(
            mem,
            os,
            slot_index,
            req_id,
            method,
            meta,
            body,
            ticket,
        );
        let ghost placed = mem@;
        self.region.set_status(
            mem,
            slot_index,
            if res.is_ok() {
                SLOT_READY
            } else {
                SLOT_FREE
            },
        );
        proof {
            if !slots::id_fits(req_id@) {
                region::lemma_status_restored(free, slot_index as nat, SLOT_WRITING);
            } else {
                let written = choose|written: Result<Option<R>, SlotBusError>|
                    {
                        &&& #[trigger] slots::request_written(
                            before.region,
                            *os,
                            before.config,
                            slot_index as nat,
                            encode_utf8(req_id@),
                            types::method_code(method@),
                            codec::request_meta_bytes(meta@),
                            body@,
                            reserved,
                            placed,
                            None,
                            None,
                            written,
                        )
                        &&& codec::request_meta_of(codec::request_meta_bytes(meta@))
                            == codec::decoded(meta@)
                        &&& before.after_write(
                            self@,
                            slot_index,
                            req_id@,
                            request_label(method@, meta@.path),
                            ticket,
                            written,
                            res,
                        )
                    };
                slots::lemma_closing(
                    before.region,
                    *os,
                    before.config,
                    Side::Request,
                    slot_index as nat,
                    codec::request_meta_bytes(meta@),
                    body@,
                    slots::with_request_head(
                        reserved,
                        slot_index as nat,
                        encode_utf8(req_id@),
                        types::method_code(method@),
                    ),
                    placed,
                    Some(SLOT_READY),
                    Some(SLOT_FREE),
                    written,
                );
                assert(slots::request_written(
                    before.region,
                    *os,
                    before.config,
                    slot_index as nat,
                    encode_utf8(req_id@),
                    types::method_code(method@),
                    codec::request_meta_bytes(meta@),
                    body@,
                    reserved,
                    mem@,
                    Some(SLOT_READY),
                    Some(SLOT_FREE),
                    written,
                ));
                assert(res is Ok ==> before.after_write(
                    self@,
                    slot_index,
                    req_id@,
                    request_label(method@, meta@.path),
                    ticket,
                    written,
                    Ok(()),
                ));
            }
        }
        match res {
            Ok(_) => Ok(slot_index),
            Err(e) => Err(e),
        }
    }

    /// Reads the id and the response of a Done slot.
    pub fn peek_response<O: Fn(&str) -> Result<Vec<u8>, SlotBusError>>(
        &self,
        mem: &[u8],
        open: &O,
        slot_index: usize,
    ) -> (r: (String, Result<(u16, ResponseMeta, Vec<u8>), SlotBusError>))
        requires
            self@.region.maps(mem@),
            slot_index < self@.region.num_slots,
            slots::can_read_body(
                mem@,
                *open,
                self@.config,
                Side::Response,
                slot_index as nat,
            ),
        ensures
            r.0@ == codec::id_text(types::slot_at(mem@, slot_index as nat).req_id),
            slots::response_read(
                self@.region,
                mem@,
                *open,
                self@.config,
                slot_index as nat,
                r.1,
            ),
    {
        let id = slots::read_id(&self.region, mem, slot_index);
        let response = slots::read_response(&self.region, mem, open, slot_index, &self.config);
        (id, response)
    }

    /// Takes in what was read from a slot that has been freed since: forgets the
    /// slot's overflow region and, where the response could be read, hands it
    /// out together with the ticket of the request it belongs to.
    pub fn settle(
        &mut self,
        slot_index: usize,
        req_id: &str,
        outcome: Result<(u16, ResponseMeta, Vec<u8>), SlotBusError>,
    ) -> (r: Delivery<T>)
        requires
            old(self).wf(),
        ensures
            final(self).wf(),
            old(self)@.settled(final(self)@, slot_index, req_id@, outcome, r),
    {
        let ghost before = self@;
        self.overflow_regions.remove(&slot_index);
        match outcome {
            Ok((status, meta, body)) => match self.pending.remove(req_id) {
                Some((label, ticket)) => {
                    assert(self@.pending =~= before.pending.remove(req_id@));
                    Delivery::Delivered {
                        ticket,
                        label,
                        response: Response {
                            status,
                            body,
                            content_type: meta.content_type,
                            headers: meta.headers,
                        },
                    }
                },
                None => {
                    assert(self@.pending =~= before.pending);
                    Delivery::Unmatched
                },
            },
            Err(e) => Delivery::Unreadable(e),
        }
    }

    /// Looks at one slot: where its response is done, reads it, frees the slot
    /// and hands the response out.
    pub fn collect<O: Fn(&str) -> Result<Vec<u8>, SlotBusError>>(
        &mut self,
        mem: &mut [u8],
        open: &O,
        slot_index: usize,
    ) -> (r: Delivery<T>)
        requires
            old(self).wf(),
            old(self)@.region.maps(old(mem)@),
            slot_index < old(self)@.region.num_slots,
            types::slot_status(old(mem)@, slot_index as nat) == SLOT_DONE ==> slots::can_read_body(
                old(mem)@,
                *open,
                old(self)@.config,
                Side::Response,
                slot_index as nat,
            ),
        ensures
            final(self).wf(),
            if types::slot_status(old(mem)@, slot_index as nat) != SLOT_DONE {
                &&& r is Idle
                &&& final(self)@ == old(self)@
                &&& final(mem)@ == old(mem)@
            } else {
                &&& final(mem)@ == region::with_status(old(mem)@, slot_index as nat, SLOT_FREE)
                &&& exists|outcome: Result<(u16, ResponseMeta, Vec<u8>), SlotBusError>|
                    {
                        &&& #[trigger] slots::response_read(
                            old(self)@.region,
                            old(mem)@,
                            *open,
                            old(self)@.config,
                            slot_index as nat,
                            outcome,
                        )
                        &&& old(self)@.settled(
                            final(self)@,
                            slot_index,
                            codec::id_text(
                                types::slot_at(old(mem)@, slot_index as nat).req_id,
                            ),
                            outcome,
                            r,
                        )
                    }
            },
    {
        if self.region.status(mem, slot_index) != SLOT_DONE {
            return Delivery::Idle;
        }
        let (id, outcome) = self.peek_response(mem, open, slot_index);
        self.region.set_status(mem, slot_index, SLOT_FREE);
        self.settle(slot_index, id.as_str(), outcome)
    }

    /// The status of every slot, as `(index, status)` pairs.
    pub fn slot_diagnostics(&self, mem: &[u8]) -> (r: Vec<(usize, u32)>)
        requires
            self@.region.maps(mem@),
        ensures
            r@.len() == self@.region.num_slots,
            forall|i: int|
                0 <= i < r@.len() ==> #[trigger] r@[i] == (
                    i as usize,
                    types::slot_status(mem@, i as nat),
                ),
    {
        let n: usize = self.region.num_slots();
        let mut r: Vec<(usize, u32)> = Vec::new();
        let mut i: usize = 0;
        while i < n
            invariant
                i <= n == self@.region.num_slots,
                self@.region.maps(mem@),
                r@.len() == i,
                forall|k: int|
                    0 <= k < i ==> #[trigger] r@[k] == (
                        k as usize,
                        types::slot_status(mem@, k as nat),
                    ),
            decreases n - i,
        {
            r.push((i, self.region.status(mem, i)));
            i = i + 1;
        }
        r
    }

    /// Whether the watcher is to go on.
    pub fn is_running(&self) -> (r: bool)
        ensures
            r == self@.running,
    {
        self.running
    }

    /// Tells the watcher to stop.
    pub fn stop(&mut self)
        ensures
            final(self)@ == (BusView { running: false, ..old(self)@ }),
            old(self).wf() ==> final(self).wf(),
    {
        self.running = false;
    }
}

/// What came of looking at a slot for a response.
pub enum Delivery<T> {
    /// The slot holds no finished response.
    Idle,
    /// The response to a pending request.
    Delivered { ticket: T, label: String, response: Response },
    /// A response that no pending request waits for.
    Unmatched,
    /// A response that could not be read. Its request stays pending.
    Unreadable(SlotBusError),
}

impl<T, R> BusView<T, R> {
    /// How taking in what was read from a slot may end.
    pub open spec fn settled(
        self,
        after: BusView<T, R>,
        slot: usize,
        id: Seq<char>,
        outcome: Result<(u16, ResponseMeta, Vec<u8>), SlotBusError>,
        delivery: Delivery<T>,
    ) -> bool {
        let freed = BusView { overflow_regions: self.overflow_regions.remove(slot), ..self };
        match outcome {
            Ok((status, meta, body)) => if self.pending.contains_key(id) {
                &&& delivery matches Delivery::Delivered { ticket, label, response }
                &&& ticket == self.pending[id].1
                &&& label@ == self.pending[id].0
                &&& response.status == status
                &&& response.body@ == body@
                &&& response.content_type@ == meta@.content_type
                &&& types::pairs(response.headers@) == meta@.headers
                &&& after == (BusView { pending: self.pending.remove(id), ..freed })
            } else {
                &&& delivery is Unmatched
                &&& after == freed
            },
            Err(e) => {
                &&& delivery == Delivery::<T>::Unreadable(e)
                &&& after == freed
            },
        }
    }
}

// ---- Field by field ------------------------------------------------------------

/// A table that gives every key its last value among some pairs holds the value of
/// each pair behind which no other has its key, and no other key.
pub(crate) proof fn lemma_table_of_last_values(
    table: Map<Seq<char>, String>,
    pairs: Seq<(Seq<char>, Seq<char>)>,
)
    requires
        forall|key: Seq<char>| #[trigger] text_for(table, key) == last_value(pairs, key),
    ensures
        forall|i: int|
            0 <= i < pairs.len() && (forall|j: int|
                i < j < pairs.len() ==> (#[trigger] pairs[j]).0 != pairs[i].0)
                ==> table.contains_key((#[trigger] pairs[i]).0) && table[pairs[i].0]@ == pairs[i].1,
        forall|key: Seq<char>| #[trigger]
            table.contains_key(key) ==> exists|i: int|
                0 <= i < pairs.len() && (#[trigger] pairs[i]).0 == key && pairs[i].1
                    == table[key]@,
{
    last_values_are_the_last(pairs);
    assert forall|i: int|
        0 <= i < pairs.len() && (forall|j: int|
            i < j < pairs.len() ==> (#[trigger] pairs[j]).0 != pairs[i].0) implies
        table.contains_key((#[trigger] pairs[i]).0) && table[pairs[i].0]@ == pairs[i].1 by {
        assert(text_for(table, pairs[i].0) == last_value(pairs, pairs[i].0));
    }
    assert forall|key: Seq<char>| #[trigger] table.contains_key(key) implies exists|i: int|
        0 <= i < pairs.len() && (#[trigger] pairs[i]).0 == key && pairs[i].1 == table[key]@ by {
        assert(text_for(table, key) == last_value(pairs, key));
    }
}

/// A request made of what a slot holds has each part of it: the id, the method
/// that its byte stands for, path, pattern, query and body as they are, and of
/// parameters and headers the last value of each name, and no other name.
pub proof fn requests_have_every_part(
    request: Request,
    id: Seq<char>,
    method: u8,
    meta: RequestMetaView,
    body: Seq<u8>,
)
    requires
        request.made_of(id, method, meta, body),
    ensures
        request.req_id@ == id,
        request.method@ == (match method {
            1 => "POST"@,
            2 => "PUT"@,
            3 => "DELETE"@,
            4 => "PATCH"@,
            5 => "HEAD"@,
            6 => "OPTIONS"@,
            _ => "GET"@,
        }),
        request.path@ == meta.path,
        request.route_pattern@ == meta.route_pattern,
        match request.query {
            Some(query) => meta.query == Some(query@),
            None => meta.query is None,
        },
        request.body@ == body,
        forall|i: int|
            0 <= i < meta.path_params.len() && (forall|j: int|
                i < j < meta.path_params.len() ==> (#[trigger] meta.path_params[j]).0
                    != meta.path_params[i].0) ==> request.path_params@.contains_key(
                (#[trigger] meta.path_params[i]).0,
            ) && request.path_params@[meta.path_params[i].0]@ == meta.path_params[i].1,
        forall|key: Seq<char>| #[trigger]
            request.path_params@.contains_key(key) ==> exists|i: int|
                0 <= i < meta.path_params.len() && (#[trigger] meta.path_params[i]).0 == key,
        forall|i: int|
            0 <= i < meta.headers.len() && (forall|j: int|
                i < j < meta.headers.len() ==> (#[trigger] meta.headers[j]).0
                    != meta.headers[i].0) ==> request.headers@.contains_key(
                (#[trigger] meta.headers[i]).0,
            ) && request.headers@[meta.headers[i].0]@ == meta.headers[i].1,
        forall|key: Seq<char>| #[trigger]
            request.headers@.contains_key(key) ==> exists|i: int|
                0 <= i < meta.headers.len() && (#[trigger] meta.headers[i]).0 == key,
{
    lemma_table_of_last_values(request.path_params@, meta.path_params);
    lemma_table_of_last_values(request.headers@, meta.headers);
}

/// What the bus keeps of a request whose write ended well: its label, made of
/// method and path, and its ticket, under its id; and the handle of its overflow
/// region, if it has one, under its slot. All else stays, and an earlier overflow
/// region of the slot is given up.
pub proof fn written_requests_are_remembered<T, R>(
    bus: BusView<T, R>,
    after: BusView<T, R>,
    slot: usize,
    id: Seq<char>,
    method: Seq<char>,
    path: Seq<char>,
    ticket: T,
    handle: Option<R>,
    res: Result<(), SlotBusError>,
)
    requires
        bus.after_write(after, slot, id, request_label(method, path), ticket, Ok(handle), res),
    ensures
        res is Ok,
        after.pending.contains_key(id),
        after.pending[id].0 == method + " "@ + path,
        after.pending[id].1 == ticket,
        forall|other: Seq<char>|
            other != id ==> (#[trigger] after.pending.contains_key(other)
                <==> bus.pending.contains_key(other)) && after.pending[other]
                == bus.pending[other],
        after.overflow_regions.contains_key(slot) <==> handle is Some,
        handle matches Some(h) ==> after.overflow_regions[slot] == h,
        forall|other: usize|
            other != slot ==> (#[trigger] after.overflow_regions.contains_key(other)
                <==> bus.overflow_regions.contains_key(other)) && after.overflow_regions[other]
                == bus.overflow_regions[other],
        after.config == bus.config,
        after.region == bus.region,
        after.running == bus.running,
{
}

/// A write that failed leaves what is pending as it was; the slot has no overflow
/// region any more, and the error is passed on.
pub proof fn failed_requests_are_not_remembered<T, R>(
    bus: BusView<T, R>,
    after: BusView<T, R>,
    slot: usize,
    id: Seq<char>,
    label: Seq<char>,
    ticket: T,
    e: SlotBusError,
    res: Result<(), SlotBusError>,
)
    requires
        bus.after_write(after, slot, id, label, ticket, Err(e), res),
    ensures
        res == Err::<(), SlotBusError>(e),
        after.pending == bus.pending,
        !after.overflow_regions.contains_key(slot),
        forall|other: usize|
            other != slot ==> (#[trigger] after.overflow_regions.contains_key(other)
                <==> bus.overflow_regions.contains_key(other)) && after.overflow_regions[other]
                == bus.overflow_regions[other],
        after.config == bus.config,
        after.region == bus.region,
        after.running == bus.running,
{
}

/// Taking in a response gives up the slot's overflow region and hands the response
/// to the request that waits for it, which then waits no more. A response that
/// none waits for, and one that could not be read, changes nothing else.
pub proof fn responses_are_handed_out_once<T, R>(
    bus: BusView<T, R>,
    after: BusView<T, R>,
    slot: usize,
    id: Seq<char>,
    outcome: Result<(u16, ResponseMeta, Vec<u8>), SlotBusError>,
    delivery: Delivery<T>,
)
    requires
        bus.settled(after, slot, id, outcome, delivery),
    ensures
        outcome matches Ok((status, meta, body)) ==> bus.pending.contains_key(id) ==> {
            &&& delivery matches Delivery::Delivered { ticket, label, response }
            &&& ticket == bus.pending[id].1
            &&& label@ == bus.pending[id].0
            &&& response.status == status
            &&& response.body@ == body@
            &&& response.content_type@ == meta.content_type@
            &&& response.headers@.len() == meta.headers@.len()
            &&& forall|i: int|
                0 <= i < meta.headers@.len() ==> (#[trigger] response.headers@[i]).0@
                    == meta.headers@[i].0@ && response.headers@[i].1@ == meta.headers@[i].1@
            &&& !after.pending.contains_key(id)
            &&& forall|other: Seq<char>|
                other != id ==> (#[trigger] after.pending.contains_key(other)
                    <==> bus.pending.contains_key(other)) && after.pending[other]
                    == bus.pending[other]
        },
        outcome is Ok && !bus.pending.contains_key(id) ==> delivery is Unmatched && after.pending
            == bus.pending,
        outcome matches Err(e) ==> delivery == Delivery::<T>::Unreadable(e) && after.pending
            == bus.pending,
        !after.overflow_regions.contains_key(slot),
        forall|other: usize|
            other != slot ==> (#[trigger] after.overflow_regions.contains_key(other)
                <==> bus.overflow_regions.contains_key(other)) && after.overflow_regions[other]
                == bus.overflow_regions[other],
        after.config == bus.config,
        after.region == bus.region,
        after.running == bus.running,
{
    if let Ok((status, meta, body)) = outcome {
        if let Delivery::Delivered { ticket, label, response } = delivery {
            if bus.pending.contains_key(id) {
                types::texts_are_their_characters(response.headers@, None);
                types::texts_are_their_characters(meta.headers@, None);
                assert(types::pairs(response.headers@) == types::pairs(meta.headers@));
                assert forall|i: int| 0 <= i < meta.headers@.len() implies (
                #[trigger] response.headers@[i]).0@ == meta.headers@[i].0@
                    && response.headers@[i].1@ == meta.headers@[i].1@ by {
                    assert(types::pairs(response.headers@)[i] == types::pairs(meta.headers@)[i]);
                }
            }
        }
    }
}

/// The free slots are those of status zero, and a dispatch takes the first.
pub proof fn free_slots_have_status_zero<T, R>(bus: BusView<T, R>, mem: Seq<u8>, slot: usize)
    ensures
        bus.first_free(mem, slot) <==> {
            &&& slot < bus.region.num_slots
            &&& types::slot_status(mem, slot as nat) == 0
            &&& forall|j: nat| j < slot ==> #[trigger] types::slot_status(mem, j) != 0
        },
        bus.none_free(mem) <==> forall|j: nat|
            j < bus.region.num_slots ==> #[trigger] types::slot_status(mem, j) != 0,
{
}

} // verus!
