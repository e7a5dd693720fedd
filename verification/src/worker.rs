//! The worker's side of a control region.

use std::collections::HashMap;

use vstd::prelude::*;

use crate::codec;
use crate::config::{ConfigView, Side, SlotBusConfig};
use crate::error::{ErrorView, SlotBusError};
use crate::overflow;
use crate::overflow::Mapper;
use crate::region;
use crate::region::{RegionView, ShmRegion};
use crate::slots;
use crate::transport::Request;
use crate::types;
use crate::types::{
    ResponseMeta, ResponseMetaView, SHM_HEADER_SIZE, SHM_MAGIC, SHM_VERSION, SLOT_CLAIMED,
    SLOT_DONE, SLOT_FREE, SLOT_READY,
};

verus! {

broadcast use vstd::std_specs::hash::group_hash_axioms;

/// Worker-side state for receiving requests and sending responses via shared
/// memory. `R` is a handle that keeps an overflow region alive.
pub struct SlotWorker<R> {
    config: SlotBusConfig,
    region: ShmRegion,
    overflow_regions: HashMap<usize, R>,
    running: bool,
}

/// A [`SlotWorker`] as a mathematical value.
pub struct WorkerView<R> {
    pub config: ConfigView,
    pub region: RegionView,
    pub overflow_regions: Map<usize, R>,
    pub running: bool,
}

impl<R> View for SlotWorker<R> {
    type V = WorkerView<R>;

    closed spec fn view(&self) -> WorkerView<R> {
        WorkerView {
            config: self.config@,
            region: self.region@,
            overflow_regions: self.overflow_regions@,
            running: self.running,
        }
    }
}

/// What came of looking at a slot for a request.
pub enum Received {
    /// The slot holds no request that waits for a worker.
    Idle,
    /// A request. Its slot is now claimed.
    Taken(Request),
    /// A request that could not be read. Its slot is free again.
    Unreadable(SlotBusError),
}

/// How reading the request of a claimed slot may end.
pub open spec fn request_taken<O: Fn(&str) -> Result<Vec<u8>, SlotBusError>>(
    region: RegionView,
    mem: Seq<u8>,
    open: O,
    config: ConfigView,
    slot: nat,
    res: Result<Request, SlotBusError>,
) -> bool {
    match res {
        Ok(request) => exists|id: String, method: u8, meta: types::RequestMeta, body: Vec<u8>|
            {
                &&& #[trigger] slots::request_read(
                    region,
                    mem,
                    open,
                    config,
                    slot,
                    Ok((id, method, meta, body)),
                )
                &&& request.made_of(id@, method, meta@, body@)
            },
        Err(e) => slots::request_read(region, mem, open, config, slot, Err(e)),
    }
}

impl<R> WorkerView<R> {
    /// The functions of `os` can be called as responding in a slot calls them: to
    /// make an overflow region, where the response needs one.
    pub open spec fn can_respond<
        C: Fn(&str, usize, bool) -> Result<Option<R>, SlotBusError>,
        Q: Fn(&str) -> bool,
        F: Fn(&R, &str, &[u8]) -> Result<(), SlotBusError>,
    >(self, os: Mapper<C, Q, F>, slot: usize, meta: ResponseMetaView, body: Seq<u8>) -> bool {
        slot < self.region.num_slots && self.region.needs_overflow(
            Side::Response,
            codec::response_meta_bytes(meta).len(),
            body.len(),
        ) ==> overflow::can_search::<R, C, Q, F>(
            os,
            overflow::names_of_slot(self.config, Side::Response, slot as nat),
            body,
        )
    }

    /// How writing a response may end. The metadata goes into the slot as bytes
    /// that decode to it again.
    pub open spec fn responded<
        C: Fn(&str, usize, bool) -> Result<Option<R>, SlotBusError>,
        Q: Fn(&str) -> bool,
        F: Fn(&R, &str, &[u8]) -> Result<(), SlotBusError>,
    >(
        self,
        after: WorkerView<R>,
        os: Mapper<C, Q, F>,
        slot: usize,
        status: u16,
        meta: ResponseMetaView,
        body: Seq<u8>,
        mem: Seq<u8>,
        mem_after: Seq<u8>,
        on_ok: Option<u32>,
        on_err: Option<u32>,
        res: Result<(), SlotBusError>,
    ) -> bool {
        exists|written: Result<Option<R>, SlotBusError>|
            {
                &&& #[trigger] slots::response_written(
                    self.region,
                    os,
                    self.config,
                    slot as nat,
                    status,
                    codec::response_meta_bytes(meta),
                    body,
                    mem,
                    mem_after,
                    on_ok,
                    on_err,
                    written,
                )
                &&& codec::response_meta_of(codec::response_meta_bytes(meta))
                    == codec::decoded(meta)
                &&& self.after_write(after, slot, written, res)
            }
    }

    /// How writing a response may change the worker, given how the write itself
    /// ended.
    pub open spec fn after_write(
        self,
        after: WorkerView<R>,
        slot: usize,
        written: Result<Option<R>, SlotBusError>,
        res: Result<(), SlotBusError>,
    ) -> bool {
        match written {
            Ok(handle) => {
                &&& res is Ok
                &&& after == (WorkerView {
                    overflow_regions: match handle {
                        Some(h) => self.overflow_regions.insert(slot, h),
                        None => self.overflow_regions.remove(slot),
                    },
                    ..self
                })
            },
            Err(e) => {
                &&& res == Err::<(), SlotBusError>(e)
                &&& after == (WorkerView {
                    overflow_regions: self.overflow_regions.remove(slot),
                    ..self
                })
            },
        }
    }
}

impl<R> SlotWorker<R> {
    /// Attach to a control region that a hub has laid out in a mapping. A region
    /// of another kind or version, or one whose header describes more than the
    /// mapping holds, is refused.
    pub fn open(config: SlotBusConfig, mapping: ShmRegion, mem: &[u8]) -> (r: Result<
        Self,
        SlotBusError,
    >)
        requires
            mem@.len() == mapping@.len,
            mem@.len() >= SHM_HEADER_SIZE,
        ensures
            ({
                let h = types::header_at(mem@);
                let refusal = if h.magic != SHM_MAGIC {
                    Some(region::bad_magic_text(h.magic))
                } else if h.version != SHM_VERSION {
                    Some(region::bad_version_text(h.version))
                } else if h.heap_offset + h.heap_size > mem@.len() {
                    Some(region::header_overrun_text(mapping@, h))
                } else {
                    None
                };
                match refusal {
                    Some(message) => {
                        &&& r matches Err(e)
                        &&& e@ == ErrorView::InvalidRegion(message)
                    },
                    None => {
                        &&& r matches Ok(worker)
                        &&& worker@ == (WorkerView::<R> {
                            config: config@,
                            region: RegionView {
                                num_slots: h.num_slots as nat,
                                heap_offset: h.heap_offset as nat,
                                heap_size: h.heap_size as nat,
                                ..mapping@
                            },
                            overflow_regions: Map::empty(),
                            running: true,
                        })
                    },
                }
            }),
    {
        let mut region = mapping;
        match region.validate_control(mem) {
            Ok(_) => Ok(
                SlotWorker { config, region, overflow_regions: HashMap::new(), running: true },
            ),
            Err(e) => Err(e),
        }
    }

    /// The configuration for this worker connection.
    pub fn config(&self) -> (r: &SlotBusConfig)
        ensures
            r@ == self@.config,
    {
        &self.config
    }

    /// The control region of this worker.
    pub fn region(&self) -> (r: &ShmRegion)
        ensures
            r@ == self@.region,
    {
        &self.region
    }

    /// Writes a response into a slot. The status of the slot is left to the
    /// caller.
    pub fn respond_into<
        C: Fn(&str, usize, bool) -> Result<Option<R>, SlotBusError>,
        Q: Fn(&str) -> bool,
        F: Fn(&R, &str, &[u8]) -> Result<(), SlotBusError>,
    >(
        &mut self,
        mem: &mut [u8],
        os: &Mapper<C, Q, F>,
        slot_index: usize,
        status: u16,
        body: Vec<u8>,
        content_type: &str,
        headers: Vec<(String, String)>,
    ) -> (res: Result<(), SlotBusError>)
        requires
            old(self)@.region.maps(old(mem)@),
            body@.len() + 4095 <= usize::MAX,
            old(self)@.can_respond(
                *os,
                slot_index,
                (ResponseMetaView { content_type: content_type@, headers: types::pairs(headers@) }),
                body@,
            ),
        ensures
            old(self)@.responded(
                final(self)@,
                *os,
                slot_index,
                status,
                (ResponseMetaView { content_type: content_type@, headers: types::pairs(headers@) }),
                body@,
                old(mem)@,
                final(mem)@,
                None,
                None,
                res,
            ),
    {
        let ghost before = self@;
        let meta = ResponseMeta { content_type: content_type.to_owned(), headers };
        let meta_bytes = match codec::encode_response_meta(&meta) {
            Ok(data) => data,
            Err(e) => return Err(e),
        };
        self.overflow_regions.remove(&slot_index);
        let written = slots::place_response(
            &self.region,
            mem,
            os,
            slot_index,
            status,
            meta_bytes.as_slice(),
            body.as_slice(),
            &self.config,
        );
        let ghost outcome = written;
        match written {
            Ok(handle) => {
                if let Some(h) = handle {
                    self.overflow_regions.insert(slot_index, h);
                    assert(self@.overflow_regions =~= before.overflow_regions.insert(
                        slot_index,
                        h,
                    ));
                }
                assert(before.after_write(self@, slot_index, outcome, Ok(())));
                Ok(())
            },
            Err(e) => {
                assert(before.after_write(self@, slot_index, outcome, Err(e)));
                Err(e)
            },
        }
    }

    /// Write a response into a slot: the slot is then done and the hub has to be
    /// signaled. Where the write fails, the slot is freed so that it does not
    /// stall for good.
    pub fn send_response<
        C: Fn(&str, usize, bool) -> Result<Option<R>, SlotBusError>,
        Q: Fn(&str) -> bool,
        F: Fn(&R, &str, &[u8]) -> Result<(), SlotBusError>,
    >(
        &mut self,
        mem: &mut [u8],
        os: &Mapper<C, Q, F>,
        slot_index: usize,
        status: u16,
        body: Vec<u8>,
        content_type: &str,
        headers: Vec<(String, String)>,
    ) -> (res: Result<(), SlotBusError>)
        requires
            old(self)@.region.maps(old(mem)@),
            body@.len() + 4095 <= usize::MAX,
            old(self)@.can_respond(
                *os,
                slot_index,
                (ResponseMetaView { content_type: content_type@, headers: types::pairs(headers@) }),
                body@,
            ),
        ensures
            old(self)@.responded(
                final(self)@,
                *os,
                slot_index,
                status,
                (ResponseMetaView { content_type: content_type@, headers: types::pairs(headers@) }),
                body@,
                old(mem)@,
                final(mem)@,
                Some(SLOT_DONE),
                Some(SLOT_FREE),
                res,
            ),
    {
        let ghost before = self@;
        let ghost claimed = mem@;
        let ghost meta = ResponseMetaView {
            content_type: content_type@,
            headers: types::pairs(headers@),
        };
        let ghost data = body@;
        let res = self.respond_into(mem, os, slot_index, status, body, content_type, headers);
        let ghost placed = mem@;
        let in_range: bool = slot_index < self.region.num_slots();
        if in_range {
            self.region.set_status(
                mem,
                slot_index,
                if res.is_ok() {
                    SLOT_DONE
                } else {
                    SLOT_FREE
                },
            );
        }
        proof {
            let written = choose|written: Result<Option<R>, SlotBusError>|
                {
                    &&& #[trigger] slots::response_written(
                        before.region,
                        *os,
                        before.config,
                        slot_index as nat,
                        status,
                        codec::response_meta_bytes(meta),
                        data,
                        claimed,
                        placed,
                        None,
                        None,
                        written,
                    )
                    &&& codec::response_meta_of(codec::response_meta_bytes(meta))
                        == codec::decoded(meta)
                    &&& before.after_write(self@, slot_index, written, res)
                };
            if in_range {
                slots::lemma_closing(
                    before.region,
                    *os,
                    before.config,
                    Side::Response,
                    slot_index as nat,
                    codec::response_meta_bytes(meta),
                    data,
                    slots::with_response_head(claimed, slot_index as nat, status),
                    placed,
                    Some(SLOT_DONE),
                    Some(SLOT_FREE),
                    written,
                );
            }
            assert(slots::response_written(
                before.region,
                *os,
                before.config,
                slot_index as nat,
                status,
                codec::response_meta_bytes(meta),
                data,
                claimed,
                mem@,
                Some(SLOT_DONE),
                Some(SLOT_FREE),
                written,
            ));
        }
        res
    }

    /// Reads the request of a slot that the caller has claimed.
    pub fn take_request<O: Fn(&str) -> Result<Vec<u8>, SlotBusError>>(
        &self,
        mem: &[u8],
        open: &O,
        slot_index: usize,
    ) -> (res: Result<Request, SlotBusError>)
        requires
            self@.region.maps(mem@),
            slot_index < self@.region.num_slots,
            slots::can_read_body(mem@, *open, self@.config, Side::Request, slot_index as nat),
        ensures
            request_taken(self@.region, mem@, *open, self@.config, slot_index as nat, res),
    {
        match slots::read_request(&self.region, mem, open, slot_index, &self.config) {
            Ok((id, method, meta, body)) => {
                assert(slots::request_read(
                    self@.region,
                    mem@,
                    *open,
                    self@.config,
                    slot_index as nat,
                    Ok((id, method, meta, body)),
                ));
                Ok(Request::from_parts(id, method, meta, body))
            },
            Err(e) => Err(e),
        }
    }

    /// Looks at one slot: where a request waits in it, claims the slot and reads
    /// the request. A request that cannot be read frees its slot.
    pub fn receive<O: Fn(&str) -> Result<Vec<u8>, SlotBusError>>(
        &self,
        mem: &mut [u8],
        open: &O,
        slot_index: usize,
    ) -> (r: Received)
        requires
            self@.region.maps(old(mem)@),
            slot_index < self@.region.num_slots,
            types::slot_status(old(mem)@, slot_index as nat) == SLOT_READY
                ==> slots::can_read_body(
                region::with_status(old(mem)@, slot_index as nat, SLOT_CLAIMED),
                *open,
                self@.config,
                Side::Request,
                slot_index as nat,
            ),
        ensures
            if types::slot_status(old(mem)@, slot_index as nat) != SLOT_READY {
                &&& r is Idle
                &&& final(mem)@ == old(mem)@
            } else {
                let claimed = region::with_status(old(mem)@, slot_index as nat, SLOT_CLAIMED);
                match r {
                    Received::Idle => false,
                    Received::Taken(request) => {
                        &&& request_taken(
                            self@.region,
                            claimed,
                            *open,
                            self@.config,
                            slot_index as nat,
                            Ok(request),
                        )
                        &&& final(mem)@ == claimed
                    },
                    Received::Unreadable(e) => {
                        &&& request_taken(
                            self@.region,
                            claimed,
                            *open,
                            self@.config,
                            slot_index as nat,
                            Err(e),
                        )
                        &&& final(mem)@ == region::with_status(
                            claimed,
                            slot_index as nat,
                            SLOT_FREE,
                        )
                    },
                }
            },
    {
        if self.region.status(mem, slot_index) != SLOT_READY {
            return Received::Idle;
        }
        self.region.set_status(mem, slot_index, SLOT_CLAIMED);
        match self.take_request(mem, open, slot_index) {
            Ok(request) => Received::Taken(request),
            Err(e) => {
                self.region.set_status(mem, slot_index, SLOT_FREE);
                Received::Unreadable(e)
            },
        }
    }

    /// Whether the receive loop is to go on.
    pub fn is_running(&self) -> (r: bool)
        ensures
            r == self@.running,
    {
        self.running
    }

    /// Tells the receive loop to stop.
    pub fn stop(&mut self)
        ensures
            final(self)@ == (WorkerView { running: false, ..old(self)@ }),
    {
        self.running = false;
    }
}

// ---- Field by field ------------------------------------------------------------

/// What the worker keeps of a response: the handle of its overflow region, if its
/// write ended well and it has one, under its slot. All else stays, an earlier
/// overflow region of the slot is given up, and the outcome is that of the write.
pub proof fn written_responses_keep_their_overflow<R>(
    worker: WorkerView<R>,
    after: WorkerView<R>,
    slot: usize,
    written: Result<Option<R>, SlotBusError>,
    res: Result<(), SlotBusError>,
)
    requires
        worker.after_write(after, slot, written, res),
    ensures
        written is Ok <==> res is Ok,
        written matches Err(e) ==> res == Err::<(), SlotBusError>(e),
        after.overflow_regions.contains_key(slot) <==> (written matches Ok(Some(_))),
        written matches Ok(Some(h)) ==> after.overflow_regions[slot] == h,
        forall|other: usize|
            other != slot ==> (#[trigger] after.overflow_regions.contains_key(other)
                <==> worker.overflow_regions.contains_key(other)) && after.overflow_regions[other]
                == worker.overflow_regions[other],
        after.config == worker.config,
        after.region == worker.region,
        after.running == worker.running,
{
}

} // verus!
