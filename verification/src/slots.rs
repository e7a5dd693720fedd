//! Writing requests and responses into slots, and reading them back.

use vstd::prelude::*;
use vstd::slice::slice_to_vec;
use vstd::string::StringExecFns;
use vstd::utf8::*;

use crate::bytes;
use crate::codec;
use crate::config::{ConfigView, Side, SlotBusConfig};
use crate::error::{ErrorView, SlotBusError};
use crate::overflow;
use crate::overflow::Mapper;
use crate::region;
use crate::region::{RegionView, ShmRegion};
use crate::text;
use crate::types;
use crate::types::{
    RequestMeta, ResponseMeta, OVERFLOW_INLINE, SLOT_DONE, SLOT_FREE, SLOT_READY,
};

verus! {

// ---- What a payload looks like in memory -------------------------------------

/// The 36 id bytes of a slot: the first 36 bytes of the id, padded with zeros.
pub open spec fn id_field(id: Seq<u8>) -> Seq<u8> {
    Seq::new(
        36,
        |k: int|
            if k < id.len() {
                id[k]
            } else {
                0
            },
    )
}

/// An id is read back from the 36 bytes that a slot has for it: it fits in them
/// and holds no zero byte.
pub open spec fn id_fits(id: Seq<char>) -> bool {
    &&& encode_utf8(id).len() <= 36
    &&& forall|k: int| 0 <= k < encode_utf8(id).len() ==> #[trigger] encode_utf8(id)[k] != 0
}

/// An id that a slot cannot hold.
pub open spec fn id_refused_text(id: Seq<char>) -> Seq<char> {
    "request id '"@ + id + "' does not fit in a slot: at most 36 bytes, none of them zero"@
}

/// Whether an id is read back from the bytes that a slot has for it.
pub(crate) fn id_is_storable(id: &str) -> (r: bool)
    ensures
        r == id_fits(id@),
{
    let data: &[u8] = id.as_bytes();
    if data.len() > 36 {
        return false;
    }
    let mut i: usize = 0;
    while i < data.len()
        invariant
            i <= data@.len() <= 36,
            data@ == encode_utf8(id@),
            forall|k: int| 0 <= k < i ==> data@[k] != 0,
        decreases data@.len() - i,
    {
        if data[i] == 0 {
            return false;
        }
        i = i + 1;
    }
    true
}

/// `mem` with the id and the method of a slot set.
pub open spec fn with_request_head(mem: Seq<u8>, slot: nat, id: Seq<u8>, method: u8) -> Seq<u8> {
    let at = types::record_at(slot);
    bytes::put(bytes::put(mem, at + 4, id_field(id)), at + 40, seq![method])
}

/// `mem` with the response status of a slot set.
pub open spec fn with_response_head(mem: Seq<u8>, slot: nat, status: u16) -> Seq<u8> {
    bytes::put(mem, types::record_at(slot) + 64, bytes::le16(status))
}

/// `mem` with the body fields of one side of a slot set.
pub open spec fn with_body_fields(
    mem: Seq<u8>,
    side: Side,
    slot: nat,
    offset: u32,
    len: u32,
    marker: u8,
) -> Seq<u8> {
    let at = types::record_at(slot) + types::payload_field(side);
    let m1 = bytes::put(mem, at + 8, bytes::le32(offset));
    let m2 = bytes::put(m1, at + 12, bytes::le32(len));
    bytes::put(m2, at + 16, seq![marker])
}

impl RegionView {
    /// Heap-relative start of a body that lies behind `meta_len` bytes of
    /// metadata.
    pub open spec fn body_start(self, side: Side, slot: nat, meta_len: nat) -> nat {
        self.arena_base(side, slot) + types::aligned8(meta_len)
    }

    /// A body fits behind the metadata in the arena.
    pub open spec fn fits_inline(self, side: Side, meta_len: nat, body_len: nat) -> bool {
        types::aligned8(meta_len) + body_len <= self.arena_size(side)
    }

    /// `mem` with metadata placed at the start of an arena and recorded in the
    /// slot.
    pub open spec fn with_meta(self, mem: Seq<u8>, side: Side, slot: nat, meta: Seq<u8>) -> Seq<u8> {
        let offset = bytes::low32(self.arena_base(side, slot));
        let at = types::record_at(slot) + types::payload_field(side);
        let m1 = bytes::put(mem, self.heap_offset + offset, meta);
        let m2 = bytes::put(m1, at, bytes::le32(offset));
        bytes::put(m2, at + 4, bytes::le16(meta.len() as u16))
    }

    /// `mem` with a whole payload placed: the metadata, and the body in the
    /// arena where it fits. A body that does not fit is only recorded, with
    /// the marker of the overflow region that holds it.
    pub open spec fn with_payload(
        self,
        mem: Seq<u8>,
        side: Side,
        slot: nat,
        meta: Seq<u8>,
        body: Seq<u8>,
        marker: u8,
    ) -> Seq<u8> {
        let m1 = self.with_meta(mem, side, slot, meta);
        if body.len() == 0 {
            with_body_fields(m1, side, slot, 0, 0, OVERFLOW_INLINE)
        } else if self.fits_inline(side, meta.len(), body.len()) {
            let offset = bytes::low32(self.body_start(side, slot, meta.len()));
            with_body_fields(
                bytes::put(m1, self.heap_offset + offset, body),
                side,
                slot,
                offset,
                body.len() as u32,
                OVERFLOW_INLINE,
            )
        } else {
            with_body_fields(m1, side, slot, 0, body.len() as u32, marker)
        }
    }

    /// Why a payload of these sizes is refused, if it is: the metadata is larger
    /// than its arena, or a length does not fit in the field that records it.
    pub open spec fn refusal(self, side: Side, meta_len: nat, body_len: nat) -> Option<Seq<char>> {
        if meta_len > self.arena_size(side) {
            Some(heap_full_text(side, meta_len, self.arena_size(side)))
        } else if meta_len > u16::MAX {
            Some(too_long_text(side, "meta"@, meta_len, u16::MAX as nat))
        } else if body_len > u32::MAX {
            Some(too_long_text(side, "body"@, body_len, u32::MAX as nat))
        } else {
            None
        }
    }

    /// A payload of these sizes is not refused, and its body goes to an overflow
    /// region.
    pub open spec fn needs_overflow(self, side: Side, meta_len: nat, body_len: nat) -> bool {
        &&& self.refusal(side, meta_len, body_len) is None
        &&& body_len > 0
        &&& !self.fits_inline(side, meta_len, body_len)
    }
}

/// The word for a side in error texts.
pub open spec fn side_word(side: Side) -> Seq<char> {
    match side {
        Side::Request => "request"@,
        Side::Response => "response"@,
    }
}

/// Metadata that is larger than its arena.
pub open spec fn heap_full_text(side: Side, need: nat, size: nat) -> Seq<char> {
    "heap full for "@ + side_word(side) + " meta: need "@ + text::decimal(need)
        + ", slot arena holds "@ + text::decimal(size)
}

/// A part of a payload whose length does not fit in its field.
pub open spec fn too_long_text(side: Side, part: Seq<char>, len: nat, max: nat) -> Seq<char> {
    side_word(side) + " "@ + part + " too long: "@ + text::decimal(len)
        + " bytes, slot records at most "@ + text::decimal(max)
}

/// A slot that the region does not have.
pub open spec fn no_such_slot_text(side: Side, slot: nat, num_slots: nat) -> Seq<char> {
    "write_"@ + side_word(side) + " slot_index "@ + text::decimal(slot) + " >= num_slots "@
        + text::decimal(num_slots)
}

/// `mem` with the status of a slot set, if there is one to set.
pub open spec fn closing(mem: Seq<u8>, slot: nat, status: Option<u32>) -> Seq<u8> {
    match status {
        Some(s) => region::with_status(mem, slot, s),
        None => mem,
    }
}

/// A payload has been placed whose body went to an overflow region of the given
/// generation.
pub open spec fn spilled<
    R,
    C: Fn(&str, usize, bool) -> Result<Option<R>, SlotBusError>,
    Q: Fn(&str) -> bool,
    F: Fn(&R, &str, &[u8]) -> Result<(), SlotBusError>,
>(
    region: RegionView,
    os: Mapper<C, Q, F>,
    config: ConfigView,
    side: Side,
    slot: nat,
    meta: Seq<u8>,
    body: Seq<u8>,
    before: Seq<u8>,
    after: Seq<u8>,
    on_ok: Option<u32>,
    handle: R,
    generation: u8,
) -> bool {
    &&& overflow::won_generation(
        os,
        overflow::names_of_slot(config, side, slot),
        body,
        generation,
        handle,
    )
    &&& after == closing(
        region.with_payload(before, side, slot, meta, body, (generation + 1) as u8),
        slot,
        on_ok,
    )
}

/// How placing a payload may end. `on_ok` and `on_err` are the statuses that
/// the slot is given in the end, if any.
///
/// - Metadata that is larger than its arena, and a length that does not fit in
///   its field, is refused before anything is placed.
/// - An empty body, and one that fits in the arena, is placed without the
///   operating system's help.
/// - Any other body goes to the first overflow generation whose name is not
///   taken; where that fails, only the metadata has been placed.
pub open spec fn placement<
    R,
    C: Fn(&str, usize, bool) -> Result<Option<R>, SlotBusError>,
    Q: Fn(&str) -> bool,
    F: Fn(&R, &str, &[u8]) -> Result<(), SlotBusError>,
>(
    region: RegionView,
    os: Mapper<C, Q, F>,
    config: ConfigView,
    side: Side,
    slot: nat,
    meta: Seq<u8>,
    body: Seq<u8>,
    before: Seq<u8>,
    after: Seq<u8>,
    on_ok: Option<u32>,
    on_err: Option<u32>,
    res: Result<Option<R>, SlotBusError>,
) -> bool {
    match region.refusal(side, meta.len(), body.len()) {
        Some(message) => {
            &&& res matches Err(e)
            &&& e@ == ErrorView::SharedMemory(message)
            &&& after == closing(before, slot, on_err)
        },
        None => if !region.needs_overflow(side, meta.len(), body.len()) {
            &&& res matches Ok(None)
            &&& after == closing(
                region.with_payload(before, side, slot, meta, body, OVERFLOW_INLINE),
                slot,
                on_ok,
            )
        } else {
            match res {
                Ok(Some(handle)) => exists|generation: u8|
                    #[trigger] spilled(
                        region,
                        os,
                        config,
                        side,
                        slot,
                        meta,
                        body,
                        before,
                        after,
                        on_ok,
                        handle,
                        generation,
                    ),
                Ok(None) => false,
                Err(e) => {
                    &&& overflow::lost_generations::<R, C, Q, F>(
                        os,
                        overflow::names_of_slot(config, side, slot),
                        body,
                        e,
                    )
                    &&& after == closing(region.with_meta(before, side, slot, meta), slot, on_err)
                },
            }
        },
    }
}

// ---- Placing a payload -------------------------------------------------------

/// Where a body goes inside an arena that already holds `meta_len` bytes of
/// metadata, or `None` if it does not fit and must spill to overflow.
#[verifier::spinoff_prover]
fn arena_body_offset(base: usize, size: usize, meta_len: usize, body_len: usize) -> (r: Option<u32>)
    requires
        base + size <= usize::MAX,
    ensures
        r == (if types::aligned8(meta_len as nat) + body_len <= size {
            Some(bytes::low32(base as nat + types::aligned8(meta_len as nat)))
        } else {
            None
        }),
        base + size <= u32::MAX ==> (r matches Some(offset) ==> offset == base + types::aligned8(
            meta_len as nat,
        )),
{
    proof {
        bytes::lemma_low32(base as nat + types::aligned8(meta_len as nat));
    }
    let padding: usize = (8 - meta_len % 8) % 8;
    if meta_len > size || padding > size - meta_len {
        return None;
    }
    let aligned: usize = meta_len + padding;
    if body_len <= size - aligned {
        Some(bytes::to_low32(base + aligned))
    } else {
        None
    }
}

fn put_body_fields(
    region: &ShmRegion,
    mem: &mut [u8],
    side: Side,
    slot_index: usize,
    offset: u32,
    len: u32,
    marker: u8,
)
    requires
        region@.maps(old(mem)@),
        slot_index < region@.num_slots,
    ensures
        final(mem)@ == with_body_fields(old(mem)@, side, slot_index as nat, offset, len, marker),
{
    let at: usize = region.record(slot_index) + payload_field_of(side);
    bytes::put_u32(mem, at + 8, offset);
    bytes::put_u32(mem, at + 12, len);
    bytes::put_u8(mem, at + 16, marker);
}

fn payload_field_of(side: Side) -> (r: usize)
    ensures
        r == types::payload_field(side),
{
    match side {
        Side::Request => 44,
        Side::Response => 68,
    }
}

fn word_of(side: Side) -> (r: &'static str)
    ensures
        r@ == side_word(side),
{
    match side {
        Side::Request => "request",
        Side::Response => "response",
    }
}

fn too_long(side: Side, part: &str, len: usize, max: usize) -> (r: SlotBusError)
    ensures
        r@ == ErrorView::SharedMemory(too_long_text(side, part@, len as nat, max as nat)),
{
    let mut s = word_of(side).to_owned().concat(" ").concat(part).concat(" too long: ");
    text::push_usize(&mut s, len);
    s.append(" bytes, slot records at most ");
    text::push_usize(&mut s, max);
    SlotBusError::SharedMemory(s)
}

/// Places metadata at the start of an arena that can hold it.
fn place_meta(region: &ShmRegion, mem: &mut [u8], side: Side, slot_index: usize, meta_bytes: &[u8])
    requires
        region@.maps(old(mem)@),
        slot_index < region@.num_slots,
        meta_bytes@.len() <= region@.arena_size(side),
        meta_bytes@.len() <= u16::MAX,
    ensures
        final(mem)@ == region@.with_meta(old(mem)@, side, slot_index as nat, meta_bytes@),
{
    let (base, _) = region.arena(side, slot_index);
    let at: usize = region.record(slot_index) + payload_field_of(side);
    let meta_offset: u32 = bytes::to_low32(base);
    proof {
        bytes::lemma_low32(base as nat);
    }
    region.heap_write(mem, meta_offset, meta_bytes);
    bytes::put_u32(mem, at, meta_offset);
    bytes::put_u16(mem, at + 4, meta_bytes.len() as u16);
}

/// Places the payload of one side of a slot, without touching the slot's
/// status.
pub fn place_payload<
    R,
    C: Fn(&str, usize, bool) -> Result<Option<R>, SlotBusError>,
    Q: Fn(&str) -> bool,
    F: Fn(&R, &str, &[u8]) -> Result<(), SlotBusError>,
>(
    region: &ShmRegion,
    mem: &mut [u8],
    os: &Mapper<C, Q, F>,
    config: &SlotBusConfig,
    side: Side,
    slot_index: usize,
    meta_bytes: &[u8],
    body: &[u8],
) -> (res: Result<Option<R>, SlotBusError>)
    requires
        region@.maps(old(mem)@),
        slot_index < region@.num_slots,
        body@.len() + 4095 <= usize::MAX,
        region@.needs_overflow(side, meta_bytes@.len(), body@.len())
            ==> overflow::can_search::<R, C, Q, F>(
            *os,
            overflow::names_of_slot(config@, side, slot_index as nat),
            body@,
        ),
    ensures
        placement(
            region@,
            *os,
            config@,
            side,
            slot_index as nat,
            meta_bytes@,
            body@,
            old(mem)@,
            final(mem)@,
            None,
            None,
            res,
        ),
{
    let ghost before = mem@;
    let (base, size) = region.arena(side, slot_index);
    if meta_bytes.len() > size {
        let mut s = String::from_str("heap full for ").concat(word_of(side)).concat(
            " meta: need ",
        );
        text::push_usize(&mut s, meta_bytes.len());
        s.append(", slot arena holds ");
        text::push_usize(&mut s, size);
        return Err(SlotBusError::SharedMemory(s));
    }
    if meta_bytes.len() > 0xffff {
        return Err(too_long(side, "meta", meta_bytes.len(), 0xffff));
    }
    if body.len() > 0xffff_ffff {
        return Err(too_long(side, "body", body.len(), 0xffff_ffff));
    }
    place_meta(region, mem, side, slot_index, meta_bytes);
    if body.is_empty() {
        put_body_fields(region, mem, side, slot_index, 0, 0, OVERFLOW_INLINE);
        return Ok(None);
    }
    let body_len: u32 = body.len() as u32;
    if let Some(offset) = arena_body_offset(base, size, meta_bytes.len(), body.len()) {
        proof {
            bytes::lemma_low32(
                region@.body_start(side, slot_index as nat, meta_bytes@.len()),
            );
        }
        region.heap_write(mem, offset, body);
        put_body_fields(region, mem, side, slot_index, offset, body_len, OVERFLOW_INLINE);
        return Ok(None);
    }
    match ShmRegion::create_slot_overflow(os, config, side, slot_index, body) {
        Ok((handle, marker)) => {
            put_body_fields(region, mem, side, slot_index, 0, body_len, marker);
            let res: Result<Option<R>, SlotBusError> = Ok(Some(handle));
            assert(spilled(
                region@,
                *os,
                config@,
                side,
                slot_index as nat,
                meta_bytes@,
                body@,
                before,
                mem@,
                None,
                res->Ok_0->Some_0,
                (marker - 1) as u8,
            ));
            res
        },
        Err(e) => Err(e),
    }
}

/// A placement that set no status, followed by the status that fits its
/// outcome.
pub(crate) proof fn lemma_closing<
    R,
    C: Fn(&str, usize, bool) -> Result<Option<R>, SlotBusError>,
    Q: Fn(&str) -> bool,
    F: Fn(&R, &str, &[u8]) -> Result<(), SlotBusError>,
>(
    region: RegionView,
    os: Mapper<C, Q, F>,
    config: ConfigView,
    side: Side,
    slot: nat,
    meta: Seq<u8>,
    body: Seq<u8>,
    before: Seq<u8>,
    after: Seq<u8>,
    on_ok: Option<u32>,
    on_err: Option<u32>,
    res: Result<Option<R>, SlotBusError>,
)
    requires
        placement(region, os, config, side, slot, meta, body, before, after, None, None, res),
    ensures
        placement(
            region,
            os,
            config,
            side,
            slot,
            meta,
            body,
            before,
            closing(
                after,
                slot,
                if res is Ok {
                    on_ok
                } else {
                    on_err
                },
            ),
            on_ok,
            on_err,
            res,
        ),
{
    if region.needs_overflow(side, meta.len(), body.len()) {
        if let Ok(Some(handle)) = res {
            let generation = choose|generation: u8|
                #[trigger] spilled(
                    region,
                    os,
                    config,
                    side,
                    slot,
                    meta,
                    body,
                    before,
                    after,
                    None,
                    handle,
                    generation,
                );
            assert(spilled(
                region,
                os,
                config,
                side,
                slot,
                meta,
                body,
                before,
                closing(after, slot, on_ok),
                on_ok,
                res->Ok_0->Some_0,
                generation,
            ));
        }
    }
}

// ---- Writing -----------------------------------------------------------------

/// How writing a request may end. A slot that the region does not have is
/// refused and nothing is written; otherwise id and method are written and the
/// payload is placed.
pub open spec fn request_written<
    R,
    C: Fn(&str, usize, bool) -> Result<Option<R>, SlotBusError>,
    Q: Fn(&str) -> bool,
    F: Fn(&R, &str, &[u8]) -> Result<(), SlotBusError>,
>(
    region: RegionView,
    os: Mapper<C, Q, F>,
    config: ConfigView,
    slot: nat,
    id: Seq<u8>,
    method: u8,
    meta: Seq<u8>,
    body: Seq<u8>,
    before: Seq<u8>,
    after: Seq<u8>,
    on_ok: Option<u32>,
    on_err: Option<u32>,
    res: Result<Option<R>, SlotBusError>,
) -> bool {
    if slot >= region.num_slots {
        &&& res matches Err(e)
        &&& e@ == ErrorView::InvalidRegion(
            no_such_slot_text(Side::Request, slot, region.num_slots),
        )
        &&& after == before
    } else {
        placement(
            region,
            os,
            config,
            Side::Request,
            slot,
            meta,
            body,
            with_request_head(before, slot, id, method),
            after,
            on_ok,
            on_err,
            res,
        )
    }
}

/// How writing a response may end. A slot that the region does not have is
/// refused and nothing is written; otherwise the response status is written and
/// the payload is placed.
pub open spec fn response_written<
    R,
    C: Fn(&str, usize, bool) -> Result<Option<R>, SlotBusError>,
    Q: Fn(&str) -> bool,
    F: Fn(&R, &str, &[u8]) -> Result<(), SlotBusError>,
>(
    region: RegionView,
    os: Mapper<C, Q, F>,
    config: ConfigView,
    slot: nat,
    status: u16,
    meta: Seq<u8>,
    body: Seq<u8>,
    before: Seq<u8>,
    after: Seq<u8>,
    on_ok: Option<u32>,
    on_err: Option<u32>,
    res: Result<Option<R>, SlotBusError>,
) -> bool {
    if slot >= region.num_slots {
        &&& res matches Err(e)
        &&& e@ == ErrorView::InvalidRegion(
            no_such_slot_text(Side::Response, slot, region.num_slots),
        )
        &&& after == before
    } else {
        placement(
            region,
            os,
            config,
            Side::Response,
            slot,
            meta,
            body,
            with_response_head(before, slot, status),
            after,
            on_ok,
            on_err,
            res,
        )
    }
}

fn no_such_slot(side: Side, slot_index: usize, num_slots: usize) -> (r: SlotBusError)
    ensures
        r@ == ErrorView::InvalidRegion(
            no_such_slot_text(side, slot_index as nat, num_slots as nat),
        ),
{
    let mut s = String::from_str("write_").concat(word_of(side)).concat(" slot_index ");
    text::push_usize(&mut s, slot_index);
    s.append(" >= num_slots ");
    text::push_usize(&mut s, num_slots);
    SlotBusError::InvalidRegion(s)
}

/// Writes the id and the method of a slot.
fn put_request_head(
    region: &ShmRegion,
    mem: &mut [u8],
    slot_index: usize,
    req_id: &str,
    method: u8,
)
    requires
        region@.maps(old(mem)@),
        slot_index < region@.num_slots,
    ensures
        final(mem)@ == with_request_head(
            old(mem)@,
            slot_index as nat,
            encode_utf8(req_id@),
            method,
        ),
{
    let ghost before = mem@;
    let at: usize = region.record(slot_index);
    let id: &[u8] = req_id.as_bytes();
    let id_len: usize = if id.len() < 36 {
        id.len()
    } else {
        36
    };
    bytes::put_zeros(mem, at + 4, 36);
    bytes::put_bytes(mem, at + 4, &id[0..id_len]);
    assert(mem@ =~= bytes::put(before, at + 4, id_field(id@)));
    bytes::put_u8(mem, at + 40, method);
}

/// Writes a request into a slot without touching the slot's status.
pub fn place_request<
    R,
    C: Fn(&str, usize, bool) -> Result<Option<R>, SlotBusError>,
    Q: Fn(&str) -> bool,
    F: Fn(&R, &str, &[u8]) -> Result<(), SlotBusError>,
>(
    region: &ShmRegion,
    mem: &mut [u8],
    os: &Mapper<C, Q, F>,
    slot_index: usize,
    req_id: &str,
    method: u8,
    meta_bytes: &[u8],
    body: &[u8],
    config: &SlotBusConfig,
) -> (res: Result<Option<R>, SlotBusError>)
    requires
        region@.maps(old(mem)@),
        body@.len() + 4095 <= usize::MAX,
        slot_index < region@.num_slots && region@.needs_overflow(
            Side::Request,
            meta_bytes@.len(),
            body@.len(),
        ) ==> overflow::can_search::<R, C, Q, F>(
            *os,
            overflow::names_of_slot(config@, Side::Request, slot_index as nat),
            body@,
        ),
    ensures
        request_written(
            region@,
            *os,
            config@,
            slot_index as nat,
            encode_utf8(req_id@),
            method,
            meta_bytes@,
            body@,
            old(mem)@,
            final(mem)@,
            None,
            None,
            res,
        ),
{
    if slot_index >= region.num_slots() {
        return Err(no_such_slot(Side::Request, slot_index, region.num_slots()));
    }
    put_request_head(region, mem, slot_index, req_id, method);
    place_payload(region, mem, os, config, Side::Request, slot_index, meta_bytes, body)
}

/// Write request data into a slot + heap (or overflow).
///
/// The slot must already be reserved. Sets slot status to `Ready` after
/// writing. On failure, resets the slot to `Free`. Returns the overflow region
/// handle if one was needed (caller must keep it alive).
pub fn write_request<
    R,
    C: Fn(&str, usize, bool) -> Result<Option<R>, SlotBusError>,
    Q: Fn(&str) -> bool,
    F: Fn(&R, &str, &[u8]) -> Result<(), SlotBusError>,
>(
    region: &ShmRegion,
    mem: &mut [u8],
    os: &Mapper<C, Q, F>,
    slot_index: usize,
    req_id: &str,
    method: u8,
    meta_bytes: &[u8],
    body: &[u8],
    config: &SlotBusConfig,
) -> (res: Result<Option<R>, SlotBusError>)
    requires
        region@.maps(old(mem)@),
        body@.len() + 4095 <= usize::MAX,
        slot_index < region@.num_slots && region@.needs_overflow(
            Side::Request,
            meta_bytes@.len(),
            body@.len(),
        ) ==> overflow::can_search::<R, C, Q, F>(
            *os,
            overflow::names_of_slot(config@, Side::Request, slot_index as nat),
            body@,
        ),
    ensures
        request_written(
            region@,
            *os,
            config@,
            slot_index as nat,
            encode_utf8(req_id@),
            method,
            meta_bytes@,
            body@,
            old(mem)@,
            final(mem)@,
            Some(SLOT_READY),
            Some(SLOT_FREE),
            res,
        ),
{
    let ghost before = mem@;
    let res = place_request(
        region,
        mem,
        os,
        slot_index,
        req_id,
        method,
        meta_bytes,
        body,
        config,
    );
    if slot_index < region.num_slots() {
        let ghost placed = mem@;
        region.set_status(
            mem,
            slot_index,
            if res.is_ok() {
                SLOT_READY
            } else {
                SLOT_FREE
            },
        );
        proof {
            lemma_closing(
                region@,
                *os,
                config@,
                Side::Request,
                slot_index as nat,
                meta_bytes@,
                body@,
                with_request_head(before, slot_index as nat, encode_utf8(req_id@), method),
                placed,
                Some(SLOT_READY),
                Some(SLOT_FREE),
                res,
            );
        }
    }
    res
}

/// Writes a response into a slot without touching the slot's status.
pub fn place_response<
    R,
    C: Fn(&str, usize, bool) -> Result<Option<R>, SlotBusError>,
    Q: Fn(&str) -> bool,
    F: Fn(&R, &str, &[u8]) -> Result<(), SlotBusError>,
>(
    region: &ShmRegion,
    mem: &mut [u8],
    os: &Mapper<C, Q, F>,
    slot_index: usize,
    status: u16,
    meta_bytes: &[u8],
    body: &[u8],
    config: &SlotBusConfig,
) -> (res: Result<Option<R>, SlotBusError>)
    requires
        region@.maps(old(mem)@),
        body@.len() + 4095 <= usize::MAX,
        slot_index < region@.num_slots && region@.needs_overflow(
            Side::Response,
            meta_bytes@.len(),
            body@.len(),
        ) ==> overflow::can_search::<R, C, Q, F>(
            *os,
            overflow::names_of_slot(config@, Side::Response, slot_index as nat),
            body@,
        ),
    ensures
        response_written(
            region@,
            *os,
            config@,
            slot_index as nat,
            status,
            meta_bytes@,
            body@,
            old(mem)@,
            final(mem)@,
            None,
            None,
            res,
        ),
{
    if slot_index >= region.num_slots() {
        return Err(no_such_slot(Side::Response, slot_index, region.num_slots()));
    }
    bytes::put_u16(mem, region.record(slot_index) + 64, status);
    place_payload(region, mem, os, config, Side::Response, slot_index, meta_bytes, body)
}

/// Write response data into a slot + heap (or overflow).
///
/// Sets slot status to `Done` after writing. On failure the status stays.
pub fn write_response<
    R,
    C: Fn(&str, usize, bool) -> Result<Option<R>, SlotBusError>,
    Q: Fn(&str) -> bool,
    F: Fn(&R, &str, &[u8]) -> Result<(), SlotBusError>,
>(
    region: &ShmRegion,
    mem: &mut [u8],
    os: &Mapper<C, Q, F>,
    slot_index: usize,
    status: u16,
    meta_bytes: &[u8],
    body: &[u8],
    config: &SlotBusConfig,
) -> (res: Result<Option<R>, SlotBusError>)
    requires
        region@.maps(old(mem)@),
        body@.len() + 4095 <= usize::MAX,
        slot_index < region@.num_slots && region@.needs_overflow(
            Side::Response,
            meta_bytes@.len(),
            body@.len(),
        ) ==> overflow::can_search::<R, C, Q, F>(
            *os,
            overflow::names_of_slot(config@, Side::Response, slot_index as nat),
            body@,
        ),
    ensures
        response_written(
            region@,
            *os,
            config@,
            slot_index as nat,
            status,
            meta_bytes@,
            body@,
            old(mem)@,
            final(mem)@,
            Some(SLOT_DONE),
            None,
            res,
        ),
{
    let ghost before = mem@;
    let res = place_response(region, mem, os, slot_index, status, meta_bytes, body, config);
    if slot_index < region.num_slots() {
        let ghost placed = mem@;
        if res.is_ok() {
            region.set_status(mem, slot_index, SLOT_DONE);
        }
        proof {
            lemma_closing(
                region@,
                *os,
                config@,
                Side::Response,
                slot_index as nat,
                meta_bytes@,
                body@,
                with_response_head(before, slot_index as nat, status),
                placed,
                Some(SLOT_DONE),
                None,
                res,
            );
        }
    }
    res
}

// ---- Reading -----------------------------------------------------------------

impl RegionView {
    /// `len` bytes of the heap from `offset` on.
    pub open spec fn heap_bytes(self, mem: Seq<u8>, offset: u32, len: nat) -> Seq<u8> {
        mem.subrange(self.heap_offset + offset, self.heap_offset + offset + len)
    }
}

/// How reading the body of a payload may end. An empty body needs nothing; an
/// inline one must lie in the heap; any other is read from the overflow region
/// that the marker tells.
pub open spec fn body_read<O: Fn(&str) -> Result<Vec<u8>, SlotBusError>>(
    region: RegionView,
    mem: Seq<u8>,
    open: O,
    config: ConfigView,
    side: Side,
    slot: nat,
    res: Result<Vec<u8>, SlotBusError>,
) -> bool {
    let p = types::slot_payload(mem, side, slot);
    if p.body_len == 0 {
        res matches Ok(body) && body@ == Seq::<u8>::empty()
    } else {
        match types::marker_generation(p.marker) {
            None => if p.body_offset + p.body_len <= region.heap_size {
                res matches Ok(body) && body@ == region.heap_bytes(
                    mem,
                    p.body_offset,
                    p.body_len as nat,
                )
            } else {
                res matches Err(e) && e@ == ErrorView::InvalidRegion(
                    region::heap_bounds_text(
                        "heap read"@,
                        p.body_offset,
                        p.body_len as nat,
                        region.heap_size,
                    ),
                )
            },
            Some(generation) => overflow::overflow_read(
                open,
                config.overflow_name_gen(side, slot, generation),
                p.body_len as nat,
                res,
            ),
        }
    }
}

/// `open` can be called as reading the body of one side of a slot calls it: with
/// the name of the overflow region that holds the body, if there is one.
pub open spec fn can_read_body<O: Fn(&str) -> Result<Vec<u8>, SlotBusError>>(
    mem: Seq<u8>,
    open: O,
    config: ConfigView,
    side: Side,
    slot: nat,
) -> bool {
    let p = types::slot_payload(mem, side, slot);
    p.body_len > 0 ==> match types::marker_generation(p.marker) {
        Some(generation) => overflow::can_open(
            open,
            config.overflow_name_gen(side, slot, generation),
        ),
        None => true,
    }
}

/// The payload of one side of a slot, as the slot records it.
fn payload_of(region: &ShmRegion, mem: &[u8], side: Side, slot_index: usize) -> (r: (
    (u32, u16),
    (u32, u32, u8),
))
    requires
        region@.maps(mem@),
        slot_index < region@.num_slots,
    ensures
        ({
            let p = types::slot_payload(mem@, side, slot_index as nat);
            r == ((p.meta_offset, p.meta_len), (p.body_offset, p.body_len, p.marker))
        }),
{
    let at: usize = region.record(slot_index) + payload_field_of(side);
    (
        (bytes::get_u32(mem, at), bytes::get_u16(mem, at + 4)),
        (bytes::get_u32(mem, at + 8), bytes::get_u32(mem, at + 12), mem[at + 16]),
    )
}

/// Reads the body of one side of a slot. `open` gives the bytes of an overflow
/// region by its name.
fn read_body<O: Fn(&str) -> Result<Vec<u8>, SlotBusError>>(
    region: &ShmRegion,
    mem: &[u8],
    open: &O,
    side: Side,
    slot_index: usize,
    config: &SlotBusConfig,
) -> (res: Result<Vec<u8>, SlotBusError>)
    requires
        region@.maps(mem@),
        slot_index < region@.num_slots,
        can_read_body(mem@, *open, config@, side, slot_index as nat),
    ensures
        body_read(region@, mem@, *open, config@, side, slot_index as nat, res),
{
    let (_, (offset, len, marker)) = payload_of(region, mem, side, slot_index);
    if len == 0 {
        return Ok(Vec::new());
    }
    match types::overflow_generation(marker) {
        None => match region.heap_read_checked(mem, offset, len as usize) {
            Ok(data) => Ok(slice_to_vec(data)),
            Err(e) => Err(e),
        },
        Some(generation) => {
            let name = config.overflow_name_gen(side, slot_index, generation);
            ShmRegion::read_overflow(open, name.as_str(), len as usize)
        },
    }
}

/// How reading a request may end: metadata outside the heap, metadata that does
/// not decode, a body that cannot be read, or the request.
pub open spec fn request_read<O: Fn(&str) -> Result<Vec<u8>, SlotBusError>>(
    region: RegionView,
    mem: Seq<u8>,
    open: O,
    config: ConfigView,
    slot: nat,
    res: Result<(String, u8, RequestMeta, Vec<u8>), SlotBusError>,
) -> bool {
    let s = types::slot_at(mem, slot);
    let p = s.request;
    if p.meta_offset + p.meta_len > region.heap_size {
        res matches Err(e) && e@ == ErrorView::InvalidRegion(
            region::heap_bounds_text(
                "heap read"@,
                p.meta_offset,
                p.meta_len as nat,
                region.heap_size,
            ),
        )
    } else {
        match codec::request_meta_of(region.heap_bytes(mem, p.meta_offset, p.meta_len as nat)) {
            Err(text) => res matches Err(e) && e@ == ErrorView::Serialization(text),
            Ok(m) => match res {
                Ok((id, method, meta, body)) => {
                    &&& id@ == codec::id_text(s.req_id)
                    &&& method == s.method
                    &&& meta@ == m
                    &&& body_read(region, mem, open, config, Side::Request, slot, Ok(body))
                },
                Err(e) => body_read(region, mem, open, config, Side::Request, slot, Err(e)),
            },
        }
    }
}

/// How reading a response may end: metadata outside the heap, metadata that
/// does not decode, a body that cannot be read, or the response.
pub open spec fn response_read<O: Fn(&str) -> Result<Vec<u8>, SlotBusError>>(
    region: RegionView,
    mem: Seq<u8>,
    open: O,
    config: ConfigView,
    slot: nat,
    res: Result<(u16, ResponseMeta, Vec<u8>), SlotBusError>,
) -> bool {
    let s = types::slot_at(mem, slot);
    let p = s.response;
    if p.meta_offset + p.meta_len > region.heap_size {
        res matches Err(e) && e@ == ErrorView::InvalidRegion(
            region::heap_bounds_text(
                "heap read"@,
                p.meta_offset,
                p.meta_len as nat,
                region.heap_size,
            ),
        )
    } else {
        match codec::response_meta_of(region.heap_bytes(mem, p.meta_offset, p.meta_len as nat)) {
            Err(text) => res matches Err(e) && e@ == ErrorView::Serialization(text),
            Ok(m) => match res {
                Ok((status, meta, body)) => {
                    &&& status == s.resp_status
                    &&& meta@ == m
                    &&& body_read(region, mem, open, config, Side::Response, slot, Ok(body))
                },
                Err(e) => body_read(region, mem, open, config, Side::Response, slot, Err(e)),
            },
        }
    }
}

/// The id that a slot holds.
pub fn read_id(region: &ShmRegion, mem: &[u8], slot_index: usize) -> (r: String)
    requires
        region@.maps(mem@),
        slot_index < region@.num_slots,
    ensures
        r@ == codec::id_text(types::slot_at(mem@, slot_index as nat).req_id),
{
    let at: usize = region.record(slot_index);
    codec::decode_id(&mem[at + 4..at + 40])
}

/// Read request metadata and body from a claimed slot.
pub fn read_request<O: Fn(&str) -> Result<Vec<u8>, SlotBusError>>(
    region: &ShmRegion,
    mem: &[u8],
    open: &O,
    slot_index: usize,
    config: &SlotBusConfig,
) -> (res: Result<(String, u8, RequestMeta, Vec<u8>), SlotBusError>)
    requires
        region@.maps(mem@),
        slot_index < region@.num_slots,
        can_read_body(mem@, *open, config@, Side::Request, slot_index as nat),
    ensures
        request_read(region@, mem@, *open, config@, slot_index as nat, res),
{
    let req_id = read_id(region, mem, slot_index);
    let method: u8 = mem[region.record(slot_index) + 40];
    let ((meta_offset, meta_len), _) = payload_of(region, mem, Side::Request, slot_index);
    let meta = match region.heap_read_checked(mem, meta_offset, meta_len as usize) {
        Ok(data) => match codec::decode_request_meta(data) {
            Ok(meta) => meta,
            Err(e) => return Err(e),
        },
        Err(e) => return Err(e),
    };
    match read_body(region, mem, open, Side::Request, slot_index, config) {
        Ok(body) => Ok((req_id, method, meta, body)),
        Err(e) => Err(e),
    }
}

/// Read response status, metadata, and body from a Done slot.
pub fn read_response<O: Fn(&str) -> Result<Vec<u8>, SlotBusError>>(
    region: &ShmRegion,
    mem: &[u8],
    open: &O,
    slot_index: usize,
    config: &SlotBusConfig,
) -> (res: Result<(u16, ResponseMeta, Vec<u8>), SlotBusError>)
    requires
        region@.maps(mem@),
        slot_index < region@.num_slots,
        can_read_body(mem@, *open, config@, Side::Response, slot_index as nat),
    ensures
        response_read(region@, mem@, *open, config@, slot_index as nat, res),
{
    let status: u16 = bytes::get_u16(mem, region.record(slot_index) + 64);
    let ((meta_offset, meta_len), _) = payload_of(region, mem, Side::Response, slot_index);
    let meta = match region.heap_read_checked(mem, meta_offset, meta_len as usize) {
        Ok(data) => match codec::decode_response_meta(data) {
            Ok(meta) => meta,
            Err(e) => return Err(e),
        },
        Err(e) => return Err(e),
    };
    match read_body(region, mem, open, Side::Response, slot_index, config) {
        Ok(body) => Ok((status, meta, body)),
        Err(e) => Err(e),
    }
}

// ---- In numbers ----------------------------------------------------------------

/// An id fits in a slot where its encoding has 36 bytes at most, none of them
/// zero.
pub proof fn ids_of_thirty_six_bytes_fit(id: Seq<char>)
    ensures
        id_fits(id) <==> encode_utf8(id).len() <= 36 && !encode_utf8(id).contains(0),
{
    if id_fits(id) && encode_utf8(id).contains(0) {
        let k = choose|k: int| 0 <= k < encode_utf8(id).len() && encode_utf8(id)[k] == 0;
        assert(encode_utf8(id)[k] != 0);
    }
    if encode_utf8(id).len() <= 36 && !encode_utf8(id).contains(0) {
        assert forall|k: int| 0 <= k < encode_utf8(id).len() implies #[trigger] encode_utf8(id)[k]
            != 0 by {
            assert(encode_utf8(id).contains(encode_utf8(id)[k]));
        }
    }
}

/// The texts of the errors name the side, the sizes and the limits.
pub proof fn slot_errors_name_sides_and_sizes(
    id: Seq<char>,
    part: Seq<char>,
    need: nat,
    size: nat,
)
    ensures
        id_refused_text(id) == "request id '"@ + id
            + "' does not fit in a slot: at most 36 bytes, none of them zero"@,
        heap_full_text(Side::Request, need, size) == "heap full for "@ + "request"@
            + " meta: need "@ + text::decimal(need) + ", slot arena holds "@ + text::decimal(size),
        heap_full_text(Side::Response, need, size) == "heap full for "@ + "response"@
            + " meta: need "@ + text::decimal(need) + ", slot arena holds "@ + text::decimal(size),
        too_long_text(Side::Request, part, need, size) == "request"@ + " "@ + part
            + " too long: "@ + text::decimal(need) + " bytes, slot records at most "@
            + text::decimal(size),
        too_long_text(Side::Response, part, need, size) == "response"@ + " "@ + part
            + " too long: "@ + text::decimal(need) + " bytes, slot records at most "@
            + text::decimal(size),
        no_such_slot_text(Side::Request, need, size) == "write_"@ + "request"@ + " slot_index "@
            + text::decimal(need) + " >= num_slots "@ + text::decimal(size),
        no_such_slot_text(Side::Response, need, size) == "write_"@ + "response"@ + " slot_index "@
            + text::decimal(need) + " >= num_slots "@ + text::decimal(size),
{
}

/// A payload is refused for its sizes alone, in this order: metadata that is
/// larger than its arena, metadata of more than 65535 bytes, a body of more than
/// 4294967295 bytes.
pub proof fn payloads_are_refused_for_their_sizes(
    region: RegionView,
    side: Side,
    meta_len: nat,
    body_len: nat,
)
    ensures
        region.refusal(side, meta_len, body_len) is None <==> {
            &&& meta_len <= region.arena_size(side)
            &&& meta_len <= 65535
            &&& body_len <= 4294967295
        },
        meta_len > region.arena_size(side) ==> region.refusal(side, meta_len, body_len) == Some(
            heap_full_text(side, meta_len, region.arena_size(side)),
        ),
        65535 < meta_len <= region.arena_size(side) ==> region.refusal(side, meta_len, body_len)
            == Some(too_long_text(side, "meta"@, meta_len, 65535)),
        meta_len <= region.arena_size(side) && meta_len <= 65535 && body_len > 4294967295
            ==> region.refusal(side, meta_len, body_len) == Some(
            too_long_text(side, "body"@, body_len, 4294967295),
        ),
{
}

/// Reading a body follows the record. A length of zero gives an empty body; a
/// marker of zero gives the bytes of the heap that the record points to, or an
/// error where they do not lie in it; any other marker gives what the overflow
/// region of the generation one below it holds.
pub proof fn bodies_are_read_where_the_record_points<
    O: Fn(&str) -> Result<Vec<u8>, SlotBusError>,
>(
    region: RegionView,
    mem: Seq<u8>,
    open: O,
    config: ConfigView,
    side: Side,
    slot: nat,
    res: Result<Vec<u8>, SlotBusError>,
)
    requires
        region.maps(mem),
        slot < region.num_slots,
        body_read(region, mem, open, config, side, slot, res),
    ensures
        ({
            let at: int = 64 + 128 * slot as int + match side {
                Side::Request => 44int,
                Side::Response => 68int,
            };
            let offset = bytes::u32_at(mem, at + 8);
            let len = bytes::u32_at(mem, at + 12);
            let marker = mem[at + 16];
            &&& len == 0 ==> (res matches Ok(body) && body@.len() == 0)
            &&& len > 0 && marker == 0 && offset + len <= region.heap_size ==> {
                &&& res matches Ok(body)
                &&& body@.len() == len
                &&& forall|i: int|
                    0 <= i < len ==> #[trigger] body@[i] == mem[region.heap_offset + offset + i]
            }
            &&& len > 0 && marker == 0 && offset + len > region.heap_size ==> {
                &&& res matches Err(e)
                &&& e@ == ErrorView::InvalidRegion(
                    region::heap_bounds_text(
                        "heap read"@,
                        offset,
                        len as nat,
                        region.heap_size,
                    ),
                )
            }
            &&& len > 0 && marker > 0 ==> overflow::overflow_read(
                open,
                config.overflow_name_gen(side, slot, (marker - 1) as u8),
                len as nat,
                res,
            )
        }),
{
}

/// Reading a request follows the record: the id from its 36 bytes, the method
/// from the byte behind them, the metadata from where the record points. It fails
/// where the metadata does not lie in the heap, where it does not decode, and
/// where the body cannot be read.
pub proof fn requests_are_read_where_the_record_points<
    O: Fn(&str) -> Result<Vec<u8>, SlotBusError>,
>(
    region: RegionView,
    mem: Seq<u8>,
    open: O,
    config: ConfigView,
    slot: nat,
    res: Result<(String, u8, RequestMeta, Vec<u8>), SlotBusError>,
)
    requires
        region.maps(mem),
        slot < region.num_slots,
        request_read(region, mem, open, config, slot, res),
    ensures
        ({
            let at: int = 64 + 128 * slot as int;
            let offset = bytes::u32_at(mem, at + 44);
            let len = bytes::u16_at(mem, at + 48);
            let from: int = region.heap_offset as int + offset as int;
            &&& offset + len > region.heap_size ==> {
                &&& res matches Err(e)
                &&& e@ == ErrorView::InvalidRegion(
                    region::heap_bounds_text(
                        "heap read"@,
                        offset,
                        len as nat,
                        region.heap_size,
                    ),
                )
            }
            &&& offset + len <= region.heap_size ==> match codec::request_meta_of(
                mem.subrange(from, from + len),
            ) {
                Err(text) => res matches Err(e) && e@ == ErrorView::Serialization(text),
                Ok(m) => match res {
                    Ok((id, method, meta, body)) => {
                        &&& id@ == codec::id_text(mem.subrange(at + 4, at + 40))
                        &&& method == mem[at + 40]
                        &&& meta@ == m
                        &&& body_read(region, mem, open, config, Side::Request, slot, Ok(body))
                    },
                    Err(e) => body_read(region, mem, open, config, Side::Request, slot, Err(e)),
                },
            }
        }),
{
}

/// Reading a response follows the record: the status from its two bytes, the
/// metadata from where the record points. It fails where the metadata does not
/// lie in the heap, where it does not decode, and where the body cannot be read.
pub proof fn responses_are_read_where_the_record_points<
    O: Fn(&str) -> Result<Vec<u8>, SlotBusError>,
>(
    region: RegionView,
    mem: Seq<u8>,
    open: O,
    config: ConfigView,
    slot: nat,
    res: Result<(u16, ResponseMeta, Vec<u8>), SlotBusError>,
)
    requires
        region.maps(mem),
        slot < region.num_slots,
        response_read(region, mem, open, config, slot, res),
    ensures
        ({
            let at: int = 64 + 128 * slot as int;
            let offset = bytes::u32_at(mem, at + 68);
            let len = bytes::u16_at(mem, at + 72);
            let from: int = region.heap_offset as int + offset as int;
            &&& offset + len > region.heap_size ==> {
                &&& res matches Err(e)
                &&& e@ == ErrorView::InvalidRegion(
                    region::heap_bounds_text(
                        "heap read"@,
                        offset,
                        len as nat,
                        region.heap_size,
                    ),
                )
            }
            &&& offset + len <= region.heap_size ==> match codec::response_meta_of(
                mem.subrange(from, from + len),
            ) {
                Err(text) => res matches Err(e) && e@ == ErrorView::Serialization(text),
                Ok(m) => match res {
                    Ok((status, meta, body)) => {
                        &&& status == bytes::u16_at(mem, at + 64)
                        &&& meta@ == m
                        &&& body_read(region, mem, open, config, Side::Response, slot, Ok(body))
                    },
                    Err(e) => body_read(region, mem, open, config, Side::Response, slot, Err(e)),
                },
            }
        }),
{
}

} // verus!
