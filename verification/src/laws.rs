//! What holds of several operations on one region together.

use vstd::prelude::*;
use vstd::utf8::*;

use crate::bytes;
use crate::codec;
use crate::config::{ConfigView, Side};
use crate::error::{ErrorView, SlotBusError};
use crate::overflow;
use crate::overflow::Mapper;
use crate::region;
use crate::region::RegionView;
use crate::slots;
use crate::transport;
use crate::transport::{BusView, Delivery, Request};
use crate::types;
use crate::types::{
    RequestMeta, RequestMetaView, ResponseMeta, ResponseMetaView, SHM_MAGIC, SHM_VERSION,
    SLOT_CLAIMED, SLOT_DONE, SLOT_FREE, SLOT_READY, SLOT_WRITING,
};
use crate::worker;
use crate::worker::WorkerView;

verus! {

// ---- What a payload consists of ----------------------------------------------

/// `a` and `b` hold the same bytes from `from` up to `to`.
#[verifier::opaque]
pub open spec fn same_bytes(a: Seq<u8>, b: Seq<u8>, from: int, to: int) -> bool {
    forall|i: int| #![trigger a[i]] #![trigger b[i]] from <= i < to ==> a[i] == b[i]
}

impl RegionView {
    /// Where in a record the fields of one side start. For requests these are
    /// the id, the method and the payload fields; for responses the response
    /// status and the payload fields.
    pub open spec fn fields_from(side: Side) -> int {
        match side {
            Side::Request => 4,
            Side::Response => 64,
        }
    }

    /// Where in a record the fields of one side end.
    pub open spec fn fields_to(side: Side) -> int {
        match side {
            Side::Request => 64,
            Side::Response => 88,
        }
    }

    /// `a` and `b` agree on everything that one side of a slot consists of, the
    /// status of the slot aside.
    pub open spec fn same_side(self, a: Seq<u8>, b: Seq<u8>, side: Side, slot: nat) -> bool {
        let at = types::record_at(slot);
        let arena = self.heap_offset + self.arena_base(side, slot);
        &&& a.len() == b.len()
        &&& same_bytes(a, b, at + Self::fields_from(side), at + Self::fields_to(side))
        &&& same_bytes(a, b, arena as int, (arena + self.arena_size(side)) as int)
    }

    /// Offsets into an arena fit in the four bytes that a slot has for them.
    pub open spec fn side_is_addressable(self, side: Side, slot: nat) -> bool {
        self.arena_base(side, slot) + self.arena_size(side) <= 0x1_0000_0000
    }
}

proof fn lemma_arenas_apart(region: RegionView, side: Side, slot: nat, side2: Side, slot2: nat)
    requires
        slot < region.num_slots,
        slot2 < region.num_slots,
        side != side2 || slot != slot2,
    ensures
        ({
            let a = region.arena_base(side, slot);
            let b = region.arena_base(side2, slot2);
            a + region.arena_size(side) <= b || b + region.arena_size(side2) <= a
        }),
{
    reveal(types::arena_base);
    reveal(types::arena_size);
    if slot < slot2 {
        types::arenas_are_disjoint(slot, slot2, region.num_slots, region.heap_size);
    } else if slot2 < slot {
        types::arenas_are_disjoint(slot2, slot, region.num_slots, region.heap_size);
    }
}

/// A write to the fields of another slot, or to the other side's fields of the
/// same slot, or to a status, does not reach a side.
proof fn lemma_field_write(
    region: RegionView,
    mem: Seq<u8>,
    at: int,
    data: Seq<u8>,
    side: Side,
    slot: nat,
    other: nat,
)
    requires
        region.maps(mem),
        slot < region.num_slots,
        other < region.num_slots,
        types::record_at(other) <= at,
        at + data.len() <= types::record_at(other) + 128,
        slot != other || at + data.len() <= types::record_at(slot) + RegionView::fields_from(side)
            || types::record_at(slot) + RegionView::fields_to(side) <= at,
    ensures
        region.same_side(mem, bytes::put(mem, at, data), side, slot),
{
    reveal(same_bytes);
    types::arenas_lie_in_the_heap(side, slot, region.num_slots, region.heap_size);
}

/// Memory agrees with itself.
pub(crate) proof fn lemma_same_side_refl(region: RegionView, a: Seq<u8>, side: Side, slot: nat)
    ensures
        region.same_side(a, a, side, slot),
{
    reveal(same_bytes);
}

/// Agreement on a side carries over.
proof fn lemma_same_side_trans(
    region: RegionView,
    a: Seq<u8>,
    b: Seq<u8>,
    c: Seq<u8>,
    side: Side,
    slot: nat,
)
    requires
        region.same_side(a, b, side, slot),
        region.same_side(b, c, side, slot),
    ensures
        region.same_side(a, c, side, slot),
{
    reveal(same_bytes);
}

/// A write inside another arena does not reach a side.
proof fn lemma_arena_write(
    region: RegionView,
    mem: Seq<u8>,
    offset: nat,
    data: Seq<u8>,
    side: Side,
    slot: nat,
    side2: Side,
    slot2: nat,
)
    requires
        region.maps(mem),
        slot < region.num_slots,
        slot2 < region.num_slots,
        side != side2 || slot != slot2,
        region.arena_base(side2, slot2) <= offset,
        offset + data.len() <= region.arena_base(side2, slot2) + region.arena_size(side2),
    ensures
        region.same_side(mem, bytes::put(mem, (region.heap_offset + offset) as int, data), side, slot),
{
    reveal(same_bytes);
    types::arenas_lie_in_the_heap(side, slot, region.num_slots, region.heap_size);
    types::arenas_lie_in_the_heap(side2, slot2, region.num_slots, region.heap_size);
    lemma_arenas_apart(region, side, slot, side2, slot2);
}

/// Placing metadata on one side of a slot does not reach any other side.
proof fn lemma_with_meta(
    region: RegionView,
    mem: Seq<u8>,
    side: Side,
    slot: nat,
    side2: Side,
    slot2: nat,
    meta: Seq<u8>,
)
    requires
        region.maps(mem),
        region.side_is_addressable(side2, slot2),
        slot < region.num_slots,
        slot2 < region.num_slots,
        side != side2 || slot != slot2,
        meta.len() <= region.arena_size(side2),
    ensures
        region.maps(region.with_meta(mem, side2, slot2, meta)),
        region.same_side(mem, region.with_meta(mem, side2, slot2, meta), side, slot),
{
    types::arenas_lie_in_the_heap(side2, slot2, region.num_slots, region.heap_size);
    let base = region.arena_base(side2, slot2);
    let offset = bytes::low32(base);
    bytes::lemma_low32(base);
    let at = types::record_at(slot2) + types::payload_field(side2);
    let m1 = bytes::put(mem, region.heap_offset + offset, meta);
    let m2 = bytes::put(m1, at, bytes::le32(offset));
    if meta.len() > 0 {
        assert(offset == base);
        lemma_arena_write(region, mem, base, meta, side, slot, side2, slot2);
    } else {
        assert(m1 =~= mem);
        reveal(same_bytes);
    }
    lemma_field_write(region, m1, at, bytes::le32(offset), side, slot, slot2);
    lemma_field_write(
        region,
        m2,
        at + 4,
        bytes::le16(meta.len() as u16),
        side,
        slot,
        slot2,
    );
    let m3 = region.with_meta(mem, side2, slot2, meta);
    lemma_same_side_trans(region, m1, m2, m3, side, slot);
    lemma_same_side_trans(region, mem, m1, m3, side, slot);
}

/// Recording a body on one side of a slot does not reach any other side.
proof fn lemma_with_body_fields(
    region: RegionView,
    mem: Seq<u8>,
    side: Side,
    slot: nat,
    side2: Side,
    slot2: nat,
    offset: u32,
    len: u32,
    marker: u8,
)
    requires
        region.maps(mem),
        slot < region.num_slots,
        slot2 < region.num_slots,
        side != side2 || slot != slot2,
    ensures
        region.maps(slots::with_body_fields(mem, side2, slot2, offset, len, marker)),
        region.same_side(
            mem,
            slots::with_body_fields(mem, side2, slot2, offset, len, marker),
            side,
            slot,
        ),
{
    let at = types::record_at(slot2) + types::payload_field(side2);
    let m1 = bytes::put(mem, at + 8, bytes::le32(offset));
    let m2 = bytes::put(m1, at + 12, bytes::le32(len));
    lemma_field_write(region, mem, at + 8, bytes::le32(offset), side, slot, slot2);
    lemma_field_write(region, m1, at + 12, bytes::le32(len), side, slot, slot2);
    lemma_field_write(region, m2, at + 16, seq![marker], side, slot, slot2);
    let m3 = slots::with_body_fields(mem, side2, slot2, offset, len, marker);
    lemma_same_side_trans(region, m1, m2, m3, side, slot);
    lemma_same_side_trans(region, mem, m1, m3, side, slot);
}

/// Placing a payload on one side of a slot does not reach any other side.
proof fn lemma_with_payload(
    region: RegionView,
    mem: Seq<u8>,
    side: Side,
    slot: nat,
    side2: Side,
    slot2: nat,
    meta: Seq<u8>,
    body: Seq<u8>,
    marker: u8,
)
    requires
        region.maps(mem),
        region.side_is_addressable(side2, slot2),
        slot < region.num_slots,
        slot2 < region.num_slots,
        side != side2 || slot != slot2,
        meta.len() <= region.arena_size(side2),
    ensures
        region.maps(region.with_payload(mem, side2, slot2, meta, body, marker)),
        region.same_side(
            mem,
            region.with_payload(mem, side2, slot2, meta, body, marker),
            side,
            slot,
        ),
{
    lemma_with_meta(region, mem, side, slot, side2, slot2, meta);
    let m1 = region.with_meta(mem, side2, slot2, meta);
    let after = region.with_payload(mem, side2, slot2, meta, body, marker);
    let len = body.len() as u32;
    if body.len() == 0 {
        lemma_with_body_fields(region, m1, side, slot, side2, slot2, 0, 0, 0);
        lemma_same_side_trans(region, mem, m1, after, side, slot);
    } else if region.fits_inline(side2, meta.len(), body.len()) {
        types::arenas_lie_in_the_heap(side2, slot2, region.num_slots, region.heap_size);
        let start = region.body_start(side2, slot2, meta.len());
        let offset = bytes::low32(start);
        bytes::lemma_low32(start);
        let m2 = bytes::put(m1, region.heap_offset + offset, body);
        lemma_arena_write(region, m1, start, body, side, slot, side2, slot2);
        lemma_with_body_fields(region, m2, side, slot, side2, slot2, offset, len, 0);
        lemma_same_side_trans(region, m1, m2, after, side, slot);
        lemma_same_side_trans(region, mem, m1, after, side, slot);
    } else {
        lemma_with_body_fields(region, m1, side, slot, side2, slot2, 0, len, marker);
        lemma_same_side_trans(region, mem, m1, after, side, slot);
    }
}

/// However placing a payload ends, it reaches no other side.
proof fn lemma_placement<
    R,
    C: Fn(&str, usize, bool) -> Result<Option<R>, SlotBusError>,
    Q: Fn(&str) -> bool,
    F: Fn(&R, &str, &[u8]) -> Result<(), SlotBusError>,
>(
    region: RegionView,
    os: Mapper<C, Q, F>,
    config: ConfigView,
    side2: Side,
    slot2: nat,
    meta: Seq<u8>,
    body: Seq<u8>,
    before: Seq<u8>,
    after: Seq<u8>,
    on_ok: Option<u32>,
    on_err: Option<u32>,
    res: Result<Option<R>, SlotBusError>,
    side: Side,
    slot: nat,
)
    requires
        region.maps(before),
        region.side_is_addressable(side2, slot2),
        slot < region.num_slots,
        slot2 < region.num_slots,
        side != side2 || slot != slot2,
        slots::placement(
            region,
            os,
            config,
            side2,
            slot2,
            meta,
            body,
            before,
            after,
            on_ok,
            on_err,
            res,
        ),
    ensures
        region.maps(after),
        region.same_side(before, after, side, slot),
{
    let written = if region.refusal(side2, meta.len(), body.len()) is Some {
        before
    } else if !region.needs_overflow(side2, meta.len(), body.len()) {
        region.with_payload(before, side2, slot2, meta, body, 0)
    } else {
        match res {
            Ok(Some(handle)) => {
                let generation = choose|generation: u8|
                    #[trigger] slots::spilled(
                        region,
                        os,
                        config,
                        side2,
                        slot2,
                        meta,
                        body,
                        before,
                        after,
                        on_ok,
                        handle,
                        generation,
                    );
                region.with_payload(before, side2, slot2, meta, body, (generation + 1) as u8)
            },
            _ => region.with_meta(before, side2, slot2, meta),
        }
    };
    if region.refusal(side2, meta.len(), body.len()) is None {
        lemma_with_meta(region, before, side, slot, side2, slot2, meta);
        lemma_with_payload(region, before, side, slot, side2, slot2, meta, body, 0);
        if let Ok(Some(handle)) = res {
            let generation = choose|generation: u8|
                #[trigger] slots::spilled(
                    region,
                    os,
                    config,
                    side2,
                    slot2,
                    meta,
                    body,
                    before,
                    after,
                    on_ok,
                    handle,
                    generation,
                );
            lemma_with_payload(
                region,
                before,
                side,
                slot,
                side2,
                slot2,
                meta,
                body,
                (generation + 1) as u8,
            );
        }
    }
    lemma_same_side_refl(region, before, side, slot);
    let closing = if res is Ok {
        on_ok
    } else {
        on_err
    };
    if let Some(status) = closing {
        lemma_field_write(
            region,
            written,
            types::record_at(slot2),
            bytes::le32(status),
            side,
            slot,
            slot2,
        );
        lemma_same_side_trans(region, before, written, after, side, slot);
    }
}

/// What a slot records of placed metadata, and what lies where it points.
proof fn lemma_meta_placed(region: RegionView, mem: Seq<u8>, side: Side, slot: nat, meta: Seq<u8>)
    requires
        region.maps(mem),
        region.side_is_addressable(side, slot),
        slot < region.num_slots,
        meta.len() <= region.arena_size(side),
    ensures
        ({
            let after = region.with_meta(mem, side, slot, meta);
            let offset = bytes::low32(region.arena_base(side, slot));
            let at = types::record_at(slot) + types::payload_field(side);
            let from = types::record_at(slot);
            &&& after.len() == mem.len()
            &&& bytes::u32_at(after, at) == offset
            &&& bytes::u16_at(after, at + 4) == meta.len() as u16
            &&& offset + meta.len() <= region.heap_size
            &&& region.heap_bytes(after, offset, meta.len()) == meta
            &&& forall|i: int|
                from <= i < from + 128 && !(at <= i < at + 6) ==> #[trigger] after[i] == mem[i]
        }),
{
    types::arenas_lie_in_the_heap(side, slot, region.num_slots, region.heap_size);
    let offset = bytes::low32(region.arena_base(side, slot));
    bytes::lemma_low32(region.arena_base(side, slot));
    let at = types::record_at(slot) + types::payload_field(side);
    let m1 = bytes::put(mem, region.heap_offset + offset, meta);
    let m2 = bytes::put(m1, at, bytes::le32(offset));
    let after = region.with_meta(mem, side, slot, meta);
    bytes::lemma_u32_written(m1, at, offset);
    bytes::lemma_u16_written(m2, at + 4, meta.len() as u16);
    assert(bytes::u32_at(after, at) == bytes::u32_at(m2, at));
    assert(region.heap_bytes(after, offset, meta.len()) =~= meta);
}

/// What a slot records of a body, and that nothing else changes.
proof fn lemma_body_recorded(
    region: RegionView,
    mem: Seq<u8>,
    side: Side,
    slot: nat,
    offset: u32,
    len: u32,
    marker: u8,
)
    requires
        region.maps(mem),
        slot < region.num_slots,
    ensures
        ({
            let after = slots::with_body_fields(mem, side, slot, offset, len, marker);
            let at = types::record_at(slot) + types::payload_field(side);
            &&& after.len() == mem.len()
            &&& bytes::u32_at(after, at + 8) == offset
            &&& bytes::u32_at(after, at + 12) == len
            &&& after[at + 16] == marker
            &&& forall|i: int|
                0 <= i < mem.len() && !(at + 8 <= i < at + 17) ==> #[trigger] after[i] == mem[i]
        }),
{
    let at = types::record_at(slot) + types::payload_field(side);
    let m1 = bytes::put(mem, at + 8, bytes::le32(offset));
    let m2 = bytes::put(m1, at + 12, bytes::le32(len));
    bytes::lemma_u32_written(mem, at + 8, offset);
    bytes::lemma_u32_written(m1, at + 12, len);
    let after = slots::with_body_fields(mem, side, slot, offset, len, marker);
    assert(bytes::u32_at(after, at + 8) == bytes::u32_at(m1, at + 8));
    assert(bytes::u32_at(after, at + 12) == bytes::u32_at(m2, at + 12));
}

/// What a slot records of a placed payload, and what lies where it points.
proof fn lemma_payload_placed(
    region: RegionView,
    mem: Seq<u8>,
    side: Side,
    slot: nat,
    meta: Seq<u8>,
    body: Seq<u8>,
    marker: u8,
)
    requires
        region.maps(mem),
        region.side_is_addressable(side, slot),
        slot < region.num_slots,
        meta.len() <= region.arena_size(side),
    ensures
        ({
            let after = region.with_payload(mem, side, slot, meta, body, marker);
            let p = types::slot_payload(after, side, slot);
            let at = types::record_at(slot);
            &&& after.len() == mem.len()
            &&& p.meta_offset == bytes::low32(region.arena_base(side, slot))
            &&& p.meta_len == meta.len() as u16
            &&& p.meta_offset + meta.len() <= region.heap_size
            &&& region.heap_bytes(after, p.meta_offset, meta.len()) == meta
            &&& p.body_len == body.len() as u32
            &&& body.len() > 0 && region.fits_inline(side, meta.len(), body.len()) ==> {
                &&& p.marker == 0
                &&& p.body_offset == region.body_start(side, slot, meta.len())
                &&& p.body_offset + body.len() <= region.heap_size
                &&& region.heap_bytes(after, p.body_offset, body.len()) == body
            }
            &&& body.len() > 0 && !region.fits_inline(side, meta.len(), body.len()) ==> p.marker
                == marker
            &&& forall|i: int|
                at + 4 <= i < at + 44 || at + 64 <= i < at + 68 ==> #[trigger] after[i] == mem[i]
        }),
{
    types::arenas_lie_in_the_heap(side, slot, region.num_slots, region.heap_size);
    lemma_meta_placed(region, mem, side, slot, meta);
    let offset = bytes::low32(region.arena_base(side, slot));
    bytes::lemma_low32(region.arena_base(side, slot));
    let at = types::record_at(slot) + types::payload_field(side);
    let m1 = region.with_meta(mem, side, slot, meta);
    let len = body.len() as u32;
    let after = region.with_payload(mem, side, slot, meta, body, marker);
    if body.len() > 0 && region.fits_inline(side, meta.len(), body.len()) {
        let start = region.body_start(side, slot, meta.len());
        let body_offset = bytes::low32(start);
        bytes::lemma_low32(start);
        let m2 = bytes::put(m1, region.heap_offset + body_offset, body);
        lemma_body_recorded(region, m2, side, slot, body_offset, len, 0);
        assert(bytes::u32_at(after, at) == bytes::u32_at(m1, at));
        assert(bytes::u16_at(after, at + 4) == bytes::u16_at(m1, at + 4));
        assert(region.heap_bytes(after, body_offset, body.len()) =~= body);
        assert(meta.len() <= types::aligned8(meta.len()));
        assert(region.heap_bytes(after, offset, meta.len()) =~= region.heap_bytes(
            m1,
            offset,
            meta.len(),
        ));
    } else {
        if body.len() == 0 {
            lemma_body_recorded(region, m1, side, slot, 0, 0, 0);
        } else {
            lemma_body_recorded(region, m1, side, slot, 0, len, marker);
        }
        assert(bytes::u32_at(after, at) == bytes::u32_at(m1, at));
        assert(bytes::u16_at(after, at + 4) == bytes::u16_at(m1, at + 4));
        assert(region.heap_bytes(after, offset, meta.len()) =~= region.heap_bytes(
            m1,
            offset,
            meta.len(),
        ));
    }
}

/// Every way of opening the mapping of `name` gives bytes that start with
/// `data`.
pub open spec fn holds<O: Fn(&str) -> Result<Vec<u8>, SlotBusError>>(
    open: O,
    name: Seq<char>,
    data: Seq<u8>,
) -> bool {
    forall|res: Result<Vec<u8>, SlotBusError>| #[trigger]
        overflow::opened(open, name, res) ==> (res matches Ok(mem) && data.is_prefix_of(mem@))
}

/// The overflow region that one side of a slot points to, if any, holds `body`.
pub open spec fn overflow_holds<O: Fn(&str) -> Result<Vec<u8>, SlotBusError>>(
    open: O,
    config: ConfigView,
    mem: Seq<u8>,
    side: Side,
    slot: nat,
    body: Seq<u8>,
) -> bool {
    match types::marker_generation(types::slot_payload(mem, side, slot).marker) {
        Some(generation) => holds(open, config.overflow_name_gen(side, slot, generation), body),
        None => true,
    }
}

/// What memory that agrees with a placed payload says of the metadata.
proof fn lemma_meta_seen(
    region: RegionView,
    mem: Seq<u8>,
    side: Side,
    slot: nat,
    meta: Seq<u8>,
    body: Seq<u8>,
    marker: u8,
    seen: Seq<u8>,
)
    requires
        region.maps(mem),
        region.side_is_addressable(side, slot),
        slot < region.num_slots,
        meta.len() <= region.arena_size(side),
        meta.len() <= u16::MAX,
        region.same_side(
            region.with_payload(mem, side, slot, meta, body, marker),
            seen,
            side,
            slot,
        ),
    ensures
        ({
            let p = types::slot_payload(seen, side, slot);
            &&& p.meta_offset + p.meta_len <= region.heap_size
            &&& region.heap_bytes(seen, p.meta_offset, p.meta_len as nat) == meta
        }),
{
    reveal(same_bytes);
    types::arenas_lie_in_the_heap(side, slot, region.num_slots, region.heap_size);
    lemma_payload_placed(region, mem, side, slot, meta, body, marker);
    bytes::lemma_low32(region.arena_base(side, slot));
    let after = region.with_payload(mem, side, slot, meta, body, marker);
    let p = types::slot_payload(seen, side, slot);
    assert(p == types::slot_payload(after, side, slot));
    if meta.len() > 0 {
        assert(region.heap_bytes(seen, p.meta_offset, meta.len()) =~= region.heap_bytes(
            after,
            p.meta_offset,
            meta.len(),
        ));
    } else {
        assert(region.heap_bytes(seen, p.meta_offset, meta.len()) =~= meta);
    }
}

/// What memory that agrees with a placed payload says of it.
proof fn lemma_payload_seen<O: Fn(&str) -> Result<Vec<u8>, SlotBusError>>(
    region: RegionView,
    config: ConfigView,
    mem: Seq<u8>,
    side: Side,
    slot: nat,
    meta: Seq<u8>,
    body: Seq<u8>,
    marker: u8,
    seen: Seq<u8>,
    open: O,
    res: Result<Vec<u8>, SlotBusError>,
)
    requires
        region.maps(mem),
        region.side_is_addressable(side, slot),
        slot < region.num_slots,
        meta.len() <= region.arena_size(side),
        meta.len() <= u16::MAX,
        body.len() <= u32::MAX,
        marker > 0 || body.len() == 0 || region.fits_inline(side, meta.len(), body.len()),
        region.same_side(
            region.with_payload(mem, side, slot, meta, body, marker),
            seen,
            side,
            slot,
        ),
        overflow_holds(open, config, seen, side, slot, body),
        slots::body_read(region, seen, open, config, side, slot, res),
    ensures
        ({
            let p = types::slot_payload(seen, side, slot);
            &&& p.meta_offset + p.meta_len <= region.heap_size
            &&& region.heap_bytes(seen, p.meta_offset, p.meta_len as nat) == meta
            &&& res matches Ok(b)
            &&& b@ == body
        }),
{
    reveal(same_bytes);
    types::arenas_lie_in_the_heap(side, slot, region.num_slots, region.heap_size);
    lemma_meta_seen(region, mem, side, slot, meta, body, marker, seen);
    lemma_payload_placed(region, mem, side, slot, meta, body, marker);
    let after = region.with_payload(mem, side, slot, meta, body, marker);
    let p = types::slot_payload(seen, side, slot);
    assert(p == types::slot_payload(after, side, slot));
    if body.len() > 0 && region.fits_inline(side, meta.len(), body.len()) {
        assert(region.heap_bytes(seen, p.body_offset, body.len()) =~= region.heap_bytes(
            after,
            p.body_offset,
            body.len(),
        ));
    }
    if body.len() > 0 && !region.fits_inline(side, meta.len(), body.len()) {
        let name = config.overflow_name_gen(side, slot, (marker - 1) as u8);
        if let Ok(b) = res {
            let mapping = choose|mapping: Vec<u8>|
                #[trigger] overflow::opened(open, name, Ok(mapping)) && body.len() <= mapping@.len()
                    && b@ == mapping@.take(body.len() as int);
            assert(b@ =~= body);
        }
    }
}

/// The marker that a successful placement recorded.
proof fn lemma_placed_marker<
    R,
    C: Fn(&str, usize, bool) -> Result<Option<R>, SlotBusError>,
    Q: Fn(&str) -> bool,
    F: Fn(&R, &str, &[u8]) -> Result<(), SlotBusError>,
>(
    region: RegionView,
    os: Mapper<C, Q, F>,
    config: ConfigView,
    side: Side,
    slot: nat,
    meta: Seq<u8>,
    body: Seq<u8>,
    before: Seq<u8>,
    after: Seq<u8>,
    on_ok: Option<u32>,
    on_err: Option<u32>,
    res: Result<Option<R>, SlotBusError>,
) -> (marker: u8)
    requires
        slots::placement(
            region,
            os,
            config,
            side,
            slot,
            meta,
            body,
            before,
            after,
            on_ok,
            on_err,
            res,
        ),
        res is Ok,
    ensures
        region.refusal(side, meta.len(), body.len()) is None,
        marker > 0 || body.len() == 0 || region.fits_inline(side, meta.len(), body.len()),
        after == slots::closing(
            region.with_payload(before, side, slot, meta, body, marker),
            slot,
            on_ok,
        ),
{
    if body.len() == 0 || region.fits_inline(side, meta.len(), body.len()) {
        0
    } else {
        let handle = res->Ok_0->Some_0;
        let generation = choose|generation: u8|
            #[trigger] slots::spilled(
                region,
                os,
                config,
                side,
                slot,
                meta,
                body,
                before,
                after,
                on_ok,
                handle,
                generation,
            );
        (generation + 1) as u8
    }
}

/// Setting a status in the end reaches no payload.
proof fn lemma_closing_keeps(
    region: RegionView,
    placed: Seq<u8>,
    after: Seq<u8>,
    slot: nat,
    status: Option<u32>,
    side: Side,
)
    requires
        region.maps(placed),
        slot < region.num_slots,
        after == slots::closing(placed, slot, status),
    ensures
        region.same_side(placed, after, side, slot),
{
    lemma_same_side_refl(region, placed, side, slot);
    if let Some(value) = status {
        lemma_field_write(
            region,
            placed,
            types::record_at(slot),
            bytes::le32(value),
            side,
            slot,
            slot,
        );
    }
}

// ---- Isolation ---------------------------------------------------------------

/// A change of a slot's status leaves every payload of every slot as it was.
pub proof fn status_changes_keep_payloads(
    region: RegionView,
    mem: Seq<u8>,
    changed: nat,
    status: u32,
    side: Side,
    slot: nat,
)
    requires
        region.maps(mem),
        changed < region.num_slots,
        slot < region.num_slots,
    ensures
        region.same_side(mem, region::with_status(mem, changed, status), side, slot),
{
    lemma_field_write(
        region,
        mem,
        types::record_at(changed),
        bytes::le32(status),
        side,
        slot,
        changed,
    );
}

/// Writing a request, whether it succeeds or not, leaves every other slot's
/// payloads and the slot's own response as they were.
pub proof fn request_writes_keep_other_payloads<
    R,
    C: Fn(&str, usize, bool) -> Result<Option<R>, SlotBusError>,
    Q: Fn(&str) -> bool,
    F: Fn(&R, &str, &[u8]) -> Result<(), SlotBusError>,
>(
    region: RegionView,
    os: Mapper<C, Q, F>,
    config: ConfigView,
    written: nat,
    id: Seq<u8>,
    method: u8,
    meta: Seq<u8>,
    body: Seq<u8>,
    before: Seq<u8>,
    after: Seq<u8>,
    on_ok: Option<u32>,
    on_err: Option<u32>,
    res: Result<Option<R>, SlotBusError>,
    side: Side,
    slot: nat,
)
    requires
        region.maps(before),
        written < region.num_slots ==> region.side_is_addressable(Side::Request, written),
        slots::request_written(
            region,
            os,
            config,
            written,
            id,
            method,
            meta,
            body,
            before,
            after,
            on_ok,
            on_err,
            res,
        ),
        slot < region.num_slots,
        slot != written || side == Side::Response,
    ensures
        region.maps(after),
        region.same_side(before, after, side, slot),
{
    if written < region.num_slots {
        let at = types::record_at(written);
        let m1 = bytes::put(before, at + 4, slots::id_field(id));
        let m2 = slots::with_request_head(before, written, id, method);
        lemma_field_write(region, before, at + 4, slots::id_field(id), side, slot, written);
        lemma_field_write(region, m1, at + 40, seq![method], side, slot, written);
        lemma_placement(
            region,
            os,
            config,
            Side::Request,
            written,
            meta,
            body,
            m2,
            after,
            on_ok,
            on_err,
            res,
            side,
            slot,
        );
        lemma_same_side_trans(region, before, m1, m2, side, slot);
        lemma_same_side_trans(region, before, m2, after, side, slot);
    } else {
        lemma_same_side_refl(region, before, side, slot);
    }
}

/// Writing a response, whether it succeeds or not, leaves every other slot's
/// payloads and the slot's own request as they were.
pub proof fn response_writes_keep_other_payloads<
    R,
    C: Fn(&str, usize, bool) -> Result<Option<R>, SlotBusError>,
    Q: Fn(&str) -> bool,
    F: Fn(&R, &str, &[u8]) -> Result<(), SlotBusError>,
>(
    region: RegionView,
    os: Mapper<C, Q, F>,
    config: ConfigView,
    written: nat,
    status: u16,
    meta: Seq<u8>,
    body: Seq<u8>,
    before: Seq<u8>,
    after: Seq<u8>,
    on_ok: Option<u32>,
    on_err: Option<u32>,
    res: Result<Option<R>, SlotBusError>,
    side: Side,
    slot: nat,
)
    requires
        region.maps(before),
        written < region.num_slots ==> region.side_is_addressable(Side::Response, written),
        slots::response_written(
            region,
            os,
            config,
            written,
            status,
            meta,
            body,
            before,
            after,
            on_ok,
            on_err,
            res,
        ),
        slot < region.num_slots,
        slot != written || side == Side::Request,
    ensures
        region.maps(after),
        region.same_side(before, after, side, slot),
{
    if written < region.num_slots {
        let at = types::record_at(written);
        let m1 = slots::with_response_head(before, written, status);
        lemma_field_write(region, before, at + 64, bytes::le16(status), side, slot, written);
        lemma_placement(
            region,
            os,
            config,
            Side::Response,
            written,
            meta,
            body,
            m1,
            after,
            on_ok,
            on_err,
            res,
            side,
            slot,
        );
        lemma_same_side_trans(region, before, m1, after, side, slot);
    } else {
        lemma_same_side_refl(region, before, side, slot);
    }
}

// ---- Round trips -------------------------------------------------------------

/// A slot tells the id and the method of the request that was written into it,
/// for as long as nothing else writes to its request side. The id must fit in
/// its field and hold no zero byte.
pub proof fn slots_keep_the_id<
    R,
    C: Fn(&str, usize, bool) -> Result<Option<R>, SlotBusError>,
    Q: Fn(&str) -> bool,
    F: Fn(&R, &str, &[u8]) -> Result<(), SlotBusError>,
>(
    region: RegionView,
    os: Mapper<C, Q, F>,
    config: ConfigView,
    slot: nat,
    id: Seq<char>,
    method: u8,
    meta: Seq<u8>,
    body: Seq<u8>,
    before: Seq<u8>,
    after: Seq<u8>,
    on_ok: Option<u32>,
    on_err: Option<u32>,
    res: Result<Option<R>, SlotBusError>,
    seen: Seq<u8>,
)
    requires
        region.maps(before),
        slots::id_fits(id),
        slots::request_written(
            region,
            os,
            config,
            slot,
            encode_utf8(id),
            method,
            meta,
            body,
            before,
            after,
            on_ok,
            on_err,
            res,
        ),
        res is Ok,
        region.same_side(after, seen, Side::Request, slot),
    ensures
        codec::id_text(types::slot_at(seen, slot).req_id) == id,
        types::slot_at(seen, slot).method == method,
{
    let head = slots::with_request_head(before, slot, encode_utf8(id), method);
    let marker = lemma_placed_marker(
        region,
        os,
        config,
        Side::Request,
        slot,
        meta,
        body,
        head,
        after,
        on_ok,
        on_err,
        res,
    );
    let placed = region.with_payload(head, Side::Request, slot, meta, body, marker);
    lemma_placed_outside(region, head, Side::Request, slot, meta, body, marker);
    lemma_closing_keeps(region, placed, after, slot, on_ok, Side::Request);
    lemma_same_side_trans(region, placed, after, seen, Side::Request, slot);
    let at = types::record_at(slot);
    assert forall|i: int| at + 4 <= i < at + 44 implies #[trigger] seen[i] == head[i] by {
        reveal(same_bytes);
        assert(placed[i] == head[i]);
    }
    codec::padded_id_reads_back(id, seen.subrange(at + 4, at + 40));
}

/// A request that was written is read back: same id, same method, same
/// metadata, same body, for as long as nothing else writes to the request side
/// of the slot.
///
/// The id must fit in its field and hold no zero byte. Where the body went to an
/// overflow region, that region must still hold it.
pub proof fn requests_round_trip<
    R,
    C: Fn(&str, usize, bool) -> Result<Option<R>, SlotBusError>,
    Q: Fn(&str) -> bool,
    F: Fn(&R, &str, &[u8]) -> Result<(), SlotBusError>,
    O: Fn(&str) -> Result<Vec<u8>, SlotBusError>,
>(
    region: RegionView,
    os: Mapper<C, Q, F>,
    config: ConfigView,
    reader: ConfigView,
    slot: nat,
    id: Seq<char>,
    method: u8,
    meta: Seq<u8>,
    decoded: RequestMetaView,
    body: Seq<u8>,
    before: Seq<u8>,
    after: Seq<u8>,
    on_ok: Option<u32>,
    on_err: Option<u32>,
    res: Result<Option<R>, SlotBusError>,
    seen: Seq<u8>,
    open: O,
    read: Result<(String, u8, RequestMeta, Vec<u8>), SlotBusError>,
)
    requires
        region.maps(before),
        region.side_is_addressable(Side::Request, slot),
        slots::id_fits(id),
        codec::request_meta_of(meta) == codec::decoded(decoded),
        slots::request_written(
            region,
            os,
            config,
            slot,
            encode_utf8(id),
            method,
            meta,
            body,
            before,
            after,
            on_ok,
            on_err,
            res,
        ),
        res is Ok,
        region.same_side(after, seen, Side::Request, slot),
        overflow_holds(open, reader, seen, Side::Request, slot, body),
        slots::request_read(region, seen, open, reader, slot, read),
    ensures
        read matches Ok((id2, method2, meta2, body2)) && {
            &&& id2@ == id
            &&& method2 == method
            &&& meta2@ == decoded
            &&& body2@ == body
        },
{
    let head = slots::with_request_head(before, slot, encode_utf8(id), method);
    let marker = lemma_placed_marker(
        region,
        os,
        config,
        Side::Request,
        slot,
        meta,
        body,
        head,
        after,
        on_ok,
        on_err,
        res,
    );
    let placed = region.with_payload(head, Side::Request, slot, meta, body, marker);
    lemma_closing_keeps(region, placed, after, slot, on_ok, Side::Request);
    lemma_same_side_trans(region, placed, after, seen, Side::Request, slot);
    slots_keep_the_id(
        region,
        os,
        config,
        slot,
        id,
        method,
        meta,
        body,
        before,
        after,
        on_ok,
        on_err,
        res,
        seen,
    );
    let outcome = match read {
        Ok((_, _, _, b)) => Ok(b),
        Err(e) => Err(e),
    };
    if slots::body_read(region, seen, open, reader, Side::Request, slot, outcome) {
        lemma_payload_seen(
            region,
            reader,
            head,
            Side::Request,
            slot,
            meta,
            body,
            marker,
            seen,
            open,
            outcome,
        );
    } else {
        lemma_meta_seen(region, head, Side::Request, slot, meta, body, marker, seen);
    }
}

/// A response that was written is read back: same status, same metadata, same
/// body, for as long as nothing else writes to the response side of the slot.
///
/// Where the body went to an overflow region, that region must still hold it.
pub proof fn responses_round_trip<
    R,
    C: Fn(&str, usize, bool) -> Result<Option<R>, SlotBusError>,
    Q: Fn(&str) -> bool,
    F: Fn(&R, &str, &[u8]) -> Result<(), SlotBusError>,
    O: Fn(&str) -> Result<Vec<u8>, SlotBusError>,
>(
    region: RegionView,
    os: Mapper<C, Q, F>,
    config: ConfigView,
    reader: ConfigView,
    slot: nat,
    status: u16,
    meta: Seq<u8>,
    decoded: ResponseMetaView,
    body: Seq<u8>,
    before: Seq<u8>,
    after: Seq<u8>,
    on_ok: Option<u32>,
    on_err: Option<u32>,
    res: Result<Option<R>, SlotBusError>,
    seen: Seq<u8>,
    open: O,
    read: Result<(u16, ResponseMeta, Vec<u8>), SlotBusError>,
)
    requires
        region.maps(before),
        region.side_is_addressable(Side::Response, slot),
        codec::response_meta_of(meta) == codec::decoded(decoded),
        slots::response_written(
            region,
            os,
            config,
            slot,
            status,
            meta,
            body,
            before,
            after,
            on_ok,
            on_err,
            res,
        ),
        res is Ok,
        region.same_side(after, seen, Side::Response, slot),
        overflow_holds(open, reader, seen, Side::Response, slot, body),
        slots::response_read(region, seen, open, reader, slot, read),
    ensures
        read matches Ok((status2, meta2, body2)) && {
            &&& status2 == status
            &&& meta2@ == decoded
            &&& body2@ == body
        },
{
    let head = slots::with_response_head(before, slot, status);
    let marker = lemma_placed_marker(
        region,
        os,
        config,
        Side::Response,
        slot,
        meta,
        body,
        head,
        after,
        on_ok,
        on_err,
        res,
    );
    let placed = region.with_payload(head, Side::Response, slot, meta, body, marker);
    lemma_closing_keeps(region, placed, after, slot, on_ok, Side::Response);
    lemma_same_side_trans(region, placed, after, seen, Side::Response, slot);
    lemma_payload_placed(region, head, Side::Response, slot, meta, body, marker);
    let at = types::record_at(slot);
    bytes::lemma_u16_written(before, at + 64, status);
    assert(bytes::u16_at(seen, at + 64) == status) by {
        reveal(same_bytes);
        assert(placed[at + 64] == head[at + 64]);
        assert(placed[at + 65] == head[at + 65]);
    }
    let outcome = match read {
        Ok((_, _, b)) => Ok(b),
        Err(e) => Err(e),
    };
    if slots::body_read(region, seen, open, reader, Side::Response, slot, outcome) {
        lemma_payload_seen(
            region,
            reader,
            head,
            Side::Response,
            slot,
            meta,
            body,
            marker,
            seen,
            open,
            outcome,
        );
    } else {
        lemma_meta_seen(region, head, Side::Response, slot, meta, body, marker, seen);
    }
}

// ---- Slot life cycle ---------------------------------------------------------

/// `a` and `b` agree on all that lies in front of the heap, but for the bytes
/// from `from` up to `to`.
pub open spec fn same_outside(
    region: RegionView,
    a: Seq<u8>,
    b: Seq<u8>,
    from: int,
    to: int,
) -> bool {
    forall|i: int|
        #![trigger a[i]]
        #![trigger b[i]]
        0 <= i < region.heap_offset && !(from <= i < to) ==> a[i] == b[i]
}

/// Of all that lies in front of the heap, placing a payload reaches the payload
/// fields of its slot alone.
proof fn lemma_placed_outside(
    region: RegionView,
    mem: Seq<u8>,
    side: Side,
    slot: nat,
    meta: Seq<u8>,
    body: Seq<u8>,
    marker: u8,
)
    requires
        region.maps(mem),
        slot < region.num_slots,
    ensures
        ({
            let at = types::record_at(slot);
            let m1 = region.with_meta(mem, side, slot, meta);
            let m2 = region.with_payload(mem, side, slot, meta, body, marker);
            &&& m1.len() == mem.len()
            &&& m2.len() == mem.len()
            &&& same_outside(region, mem, m1, at + 44, at + 128)
            &&& same_outside(region, mem, m2, at + 44, at + 128)
        }),
{
    let at = types::record_at(slot);
    let m1 = region.with_meta(mem, side, slot, meta);
    let m2 = region.with_payload(mem, side, slot, meta, body, marker);
    assert(same_outside(region, mem, m1, at + 44, at + 128));
    assert(same_outside(region, m1, m2, at + 44, at + 128));
}

/// What placing a payload leaves of the statuses and of the header.
proof fn lemma_placement_status<
    R,
    C: Fn(&str, usize, bool) -> Result<Option<R>, SlotBusError>,
    Q: Fn(&str) -> bool,
    F: Fn(&R, &str, &[u8]) -> Result<(), SlotBusError>,
>(
    region: RegionView,
    os: Mapper<C, Q, F>,
    config: ConfigView,
    side: Side,
    slot: nat,
    meta: Seq<u8>,
    body: Seq<u8>,
    before: Seq<u8>,
    after: Seq<u8>,
    on_ok: Option<u32>,
    on_err: Option<u32>,
    res: Result<Option<R>, SlotBusError>,
)
    requires
        region.maps(before),
        slot < region.num_slots,
        slots::placement(
            region,
            os,
            config,
            side,
            slot,
            meta,
            body,
            before,
            after,
            on_ok,
            on_err,
            res,
        ),
    ensures
        ({
            let closing = if res is Ok {
                on_ok
            } else {
                on_err
            };
            &&& types::slot_status(after, slot) == (match closing {
                Some(status) => status,
                None => types::slot_status(before, slot),
            })
            &&& types::header_at(after) == types::header_at(before)
            &&& forall|other: nat|
                other < region.num_slots && other != slot ==> #[trigger] types::slot_status(
                    after,
                    other,
                ) == types::slot_status(before, other)
        }),
{
    let at = types::record_at(slot);
    let closing = if res is Ok {
        on_ok
    } else {
        on_err
    };
    let placed = if res is Ok {
        let marker = lemma_placed_marker(
            region,
            os,
            config,
            side,
            slot,
            meta,
            body,
            before,
            after,
            on_ok,
            on_err,
            res,
        );
        lemma_placed_outside(region, before, side, slot, meta, body, marker);
        region.with_payload(before, side, slot, meta, body, marker)
    } else if region.refusal(side, meta.len(), body.len()) is Some {
        before
    } else {
        lemma_placed_outside(region, before, side, slot, meta, body, 0);
        region.with_meta(before, side, slot, meta)
    };
    assert(after == slots::closing(placed, slot, closing));
    assert(same_outside(region, before, placed, at + 44, at + 128));
    if let Some(status) = closing {
        bytes::lemma_u32_written(placed, at, status);
    }
    assert(same_outside(region, before, after, at, at + 128));
}

/// A request write leaves its slot with the status that goes with its outcome:
/// ready, or free where it failed. No other slot's status changes, and neither
/// does the header: the shared allocator is not used.
pub proof fn request_writes_settle_the_slot<
    R,
    C: Fn(&str, usize, bool) -> Result<Option<R>, SlotBusError>,
    Q: Fn(&str) -> bool,
    F: Fn(&R, &str, &[u8]) -> Result<(), SlotBusError>,
>(
    region: RegionView,
    os: Mapper<C, Q, F>,
    config: ConfigView,
    slot: nat,
    id: Seq<u8>,
    method: u8,
    meta: Seq<u8>,
    body: Seq<u8>,
    before: Seq<u8>,
    after: Seq<u8>,
    on_ok: Option<u32>,
    on_err: Option<u32>,
    res: Result<Option<R>, SlotBusError>,
)
    requires
        region.maps(before),
        slot < region.num_slots,
        slots::request_written(
            region,
            os,
            config,
            slot,
            id,
            method,
            meta,
            body,
            before,
            after,
            on_ok,
            on_err,
            res,
        ),
    ensures
        types::slot_status(after, slot) == (match if res is Ok {
            on_ok
        } else {
            on_err
        } {
            Some(status) => status,
            None => types::slot_status(before, slot),
        }),
        types::header_at(after) == types::header_at(before),
        forall|other: nat|
            other < region.num_slots && other != slot ==> #[trigger] types::slot_status(
                after,
                other,
            ) == types::slot_status(before, other),
{
    let head = slots::with_request_head(before, slot, id, method);
    let at = types::record_at(slot);
    assert(same_outside(region, before, head, at + 4, at + 44));
    lemma_placement_status(
        region,
        os,
        config,
        Side::Request,
        slot,
        meta,
        body,
        head,
        after,
        on_ok,
        on_err,
        res,
    );
}

/// A response write leaves its slot with the status that goes with its outcome.
/// No other slot's status changes, and neither does the header.
pub proof fn response_writes_settle_the_slot<
    R,
    C: Fn(&str, usize, bool) -> Result<Option<R>, SlotBusError>,
    Q: Fn(&str) -> bool,
    F: Fn(&R, &str, &[u8]) -> Result<(), SlotBusError>,
>(
    region: RegionView,
    os: Mapper<C, Q, F>,
    config: ConfigView,
    slot: nat,
    status: u16,
    meta: Seq<u8>,
    body: Seq<u8>,
    before: Seq<u8>,
    after: Seq<u8>,
    on_ok: Option<u32>,
    on_err: Option<u32>,
    res: Result<Option<R>, SlotBusError>,
)
    requires
        region.maps(before),
        slot < region.num_slots,
        slots::response_written(
            region,
            os,
            config,
            slot,
            status,
            meta,
            body,
            before,
            after,
            on_ok,
            on_err,
            res,
        ),
    ensures
        types::slot_status(after, slot) == (match if res is Ok {
            on_ok
        } else {
            on_err
        } {
            Some(status) => status,
            None => types::slot_status(before, slot),
        }),
        types::header_at(after) == types::header_at(before),
        forall|other: nat|
            other < region.num_slots && other != slot ==> #[trigger] types::slot_status(
                after,
                other,
            ) == types::slot_status(before, other),
{
    let head = slots::with_response_head(before, slot, status);
    let at = types::record_at(slot);
    assert(same_outside(region, before, head, at + 64, at + 66));
    lemma_placement_status(
        region,
        os,
        config,
        Side::Response,
        slot,
        meta,
        body,
        head,
        after,
        on_ok,
        on_err,
        res,
    );
}

/// The steps that the status of a slot takes: the hub reserves a free slot and
/// makes it ready, or frees it where the write failed; the worker claims a ready
/// slot and makes it done, or frees it where it failed; the hub frees a done
/// slot.
pub open spec fn status_moves(from: u32, to: u32) -> bool {
    ||| from == SLOT_FREE && to == SLOT_WRITING
    ||| from == SLOT_WRITING && (to == SLOT_READY || to == SLOT_FREE)
    ||| from == SLOT_READY && to == SLOT_CLAIMED
    ||| from == SLOT_CLAIMED && (to == SLOT_DONE || to == SLOT_FREE)
    ||| from == SLOT_DONE && to == SLOT_FREE
}

/// Setting the status of a slot sets that one and no other, and leaves the
/// header as it was.
pub proof fn status_changes_reach_one_slot(
    region: RegionView,
    mem: Seq<u8>,
    slot: nat,
    status: u32,
)
    requires
        region.maps(mem),
        slot < region.num_slots,
    ensures
        types::slot_status(region::with_status(mem, slot, status), slot) == status,
        types::header_at(region::with_status(mem, slot, status)) == types::header_at(mem),
        forall|other: nat|
            other < region.num_slots && other != slot ==> #[trigger] types::slot_status(
                region::with_status(mem, slot, status),
                other,
            ) == types::slot_status(mem, other),
{
    let after = region::with_status(mem, slot, status);
    let at = types::record_at(slot);
    bytes::lemma_u32_written(mem, at, status);
    assert(same_outside(region, mem, after, at, at + 4));
}

/// Writing a request into a reserved slot takes its status one step along.
pub proof fn request_writes_follow_the_cycle<
    R,
    C: Fn(&str, usize, bool) -> Result<Option<R>, SlotBusError>,
    Q: Fn(&str) -> bool,
    F: Fn(&R, &str, &[u8]) -> Result<(), SlotBusError>,
>(
    region: RegionView,
    os: Mapper<C, Q, F>,
    config: ConfigView,
    slot: nat,
    id: Seq<u8>,
    method: u8,
    meta: Seq<u8>,
    body: Seq<u8>,
    before: Seq<u8>,
    after: Seq<u8>,
    res: Result<Option<R>, SlotBusError>,
)
    requires
        region.maps(before),
        slot < region.num_slots,
        types::slot_status(before, slot) == SLOT_WRITING,
        slots::request_written(
            region,
            os,
            config,
            slot,
            id,
            method,
            meta,
            body,
            before,
            after,
            Some(SLOT_READY),
            Some(SLOT_FREE),
            res,
        ),
    ensures
        status_moves(types::slot_status(before, slot), types::slot_status(after, slot)),
{
    request_writes_settle_the_slot(
        region,
        os,
        config,
        slot,
        id,
        method,
        meta,
        body,
        before,
        after,
        Some(SLOT_READY),
        Some(SLOT_FREE),
        res,
    );
}

/// Sending a response from a claimed slot takes its status one step along.
pub proof fn response_writes_follow_the_cycle<
    R,
    C: Fn(&str, usize, bool) -> Result<Option<R>, SlotBusError>,
    Q: Fn(&str) -> bool,
    F: Fn(&R, &str, &[u8]) -> Result<(), SlotBusError>,
>(
    region: RegionView,
    os: Mapper<C, Q, F>,
    config: ConfigView,
    slot: nat,
    status: u16,
    meta: Seq<u8>,
    body: Seq<u8>,
    before: Seq<u8>,
    after: Seq<u8>,
    res: Result<Option<R>, SlotBusError>,
)
    requires
        region.maps(before),
        slot < region.num_slots,
        types::slot_status(before, slot) == SLOT_CLAIMED,
        slots::response_written(
            region,
            os,
            config,
            slot,
            status,
            meta,
            body,
            before,
            after,
            Some(SLOT_DONE),
            Some(SLOT_FREE),
            res,
        ),
    ensures
        status_moves(types::slot_status(before, slot), types::slot_status(after, slot)),
{
    response_writes_settle_the_slot(
        region,
        os,
        config,
        slot,
        status,
        meta,
        body,
        before,
        after,
        Some(SLOT_DONE),
        Some(SLOT_FREE),
        res,
    );
}

/// Whether a request that needs no overflow region can be written depends on its
/// sizes alone. Traffic on this or on other slots, however much, cannot make
/// it fail.
pub proof fn inline_requests_never_fail<
    R,
    C: Fn(&str, usize, bool) -> Result<Option<R>, SlotBusError>,
    Q: Fn(&str) -> bool,
    F: Fn(&R, &str, &[u8]) -> Result<(), SlotBusError>,
>(
    region: RegionView,
    os: Mapper<C, Q, F>,
    config: ConfigView,
    slot: nat,
    id: Seq<u8>,
    method: u8,
    meta: Seq<u8>,
    body: Seq<u8>,
    before: Seq<u8>,
    after: Seq<u8>,
    on_ok: Option<u32>,
    on_err: Option<u32>,
    res: Result<Option<R>, SlotBusError>,
)
    requires
        slot < region.num_slots,
        meta.len() <= region.arena_size(Side::Request),
        meta.len() <= 65535,
        body.len() == 0 || (meta.len() + 7) / 8 * 8 + body.len() <= region.arena_size(
            Side::Request,
        ),
        body.len() <= 4294967295,
        slots::request_written(
            region,
            os,
            config,
            slot,
            id,
            method,
            meta,
            body,
            before,
            after,
            on_ok,
            on_err,
            res,
        ),
    ensures
        res matches Ok(None),
{
}

/// Whether a response that needs no overflow region can be written depends on its
/// sizes alone.
pub proof fn inline_responses_never_fail<
    R,
    C: Fn(&str, usize, bool) -> Result<Option<R>, SlotBusError>,
    Q: Fn(&str) -> bool,
    F: Fn(&R, &str, &[u8]) -> Result<(), SlotBusError>,
>(
    region: RegionView,
    os: Mapper<C, Q, F>,
    config: ConfigView,
    slot: nat,
    status: u16,
    meta: Seq<u8>,
    body: Seq<u8>,
    before: Seq<u8>,
    after: Seq<u8>,
    on_ok: Option<u32>,
    on_err: Option<u32>,
    res: Result<Option<R>, SlotBusError>,
)
    requires
        slot < region.num_slots,
        meta.len() <= region.arena_size(Side::Response),
        meta.len() <= 65535,
        body.len() == 0 || (meta.len() + 7) / 8 * 8 + body.len() <= region.arena_size(
            Side::Response,
        ),
        body.len() <= 4294967295,
        slots::response_written(
            region,
            os,
            config,
            slot,
            status,
            meta,
            body,
            before,
            after,
            on_ok,
            on_err,
            res,
        ),
    ensures
        res matches Ok(None),
{
}

/// A slot that has been claimed is not free any more, so no later claim can hand
/// it out: every slot that is free after a claim was free before it and is
/// another one.
pub proof fn claims_never_meet(region: RegionView, mem: Seq<u8>, claimed: nat, free: nat)
    requires
        region.maps(mem),
        claimed < region.num_slots,
        free < region.num_slots,
        types::slot_status(region::with_status(mem, claimed, SLOT_WRITING), free) == SLOT_FREE,
    ensures
        free != claimed,
        types::slot_status(mem, free) == SLOT_FREE,
{
    bytes::lemma_u32_written(mem, types::record_at(claimed), SLOT_WRITING);
}

// ---- Initialization ----------------------------------------------------------

/// A freshly initialized region passes validation with the layout it was given,
/// as long as the layout fits in the header's fields; none of its slots is in
/// flight and its allocator stands at zero.
pub proof fn initialized_regions_validate(
    len: nat,
    num_slots: nat,
    heap_offset: nat,
    heap_size: nat,
)
    requires
        types::heap_start(num_slots) <= heap_offset,
        heap_offset + heap_size <= len,
        num_slots < 0x1_0000_0000,
        heap_offset < 0x1_0000_0000,
        heap_size < 0x1_0000_0000,
    ensures
        ({
            let image = region::initial_image(len, num_slots, heap_offset, heap_size);
            let h = types::header_at(image);
            &&& image.len() == len
            &&& h.magic == SHM_MAGIC
            &&& h.version == SHM_VERSION
            &&& h.num_slots == num_slots
            &&& h.heap_offset == heap_offset
            &&& h.heap_size == heap_size
            &&& h.alloc_head == 0
            &&& forall|slot: nat|
                slot < num_slots ==> #[trigger] types::slot_status(image, slot) == SLOT_FREE
        }),
{
    let m0 = Seq::new(len, |i: int| 0u8);
    let m1 = bytes::put(m0, 0, bytes::le32(SHM_MAGIC));
    let m2 = bytes::put(m1, 4, bytes::le32(SHM_VERSION));
    let m3 = bytes::put(m2, 8, bytes::le32(bytes::low32(num_slots)));
    let m4 = bytes::put(m3, 12, bytes::le32(bytes::low32(heap_offset)));
    let m5 = bytes::put(m4, 16, bytes::le32(bytes::low32(heap_size)));
    let image = region::initial_image(len, num_slots, heap_offset, heap_size);
    bytes::lemma_low32(num_slots);
    bytes::lemma_low32(heap_offset);
    bytes::lemma_low32(heap_size);
    bytes::lemma_u32_written(m0, 0, SHM_MAGIC);
    bytes::lemma_u32_written(m1, 4, SHM_VERSION);
    bytes::lemma_u32_written(m2, 8, bytes::low32(num_slots));
    bytes::lemma_u32_written(m3, 12, bytes::low32(heap_offset));
    bytes::lemma_u32_written(m4, 16, bytes::low32(heap_size));
    bytes::lemma_u32_written(m5, 20, 0);
    assert(bytes::u32_at(image, 0) == bytes::u32_at(m1, 0));
    assert(bytes::u32_at(image, 4) == bytes::u32_at(m2, 4));
    assert(bytes::u32_at(image, 8) == bytes::u32_at(m3, 8));
    assert(bytes::u32_at(image, 12) == bytes::u32_at(m4, 12));
    assert(bytes::u32_at(image, 16) == bytes::u32_at(m5, 16));
    assert forall|slot: nat| slot < num_slots implies #[trigger] types::slot_status(image, slot)
        == SLOT_FREE by {
        let at = types::record_at(slot);
        assert(image[at] == 0 && image[at + 1] == 0 && image[at + 2] == 0 && image[at + 3] == 0);
    }
}

// ---- From hub to worker and back ---------------------------------------------

/// A request that the hub dispatched arrives at the worker as it was sent, each
/// part of it, for as long as nothing else writes to the request side of its slot
/// and an overflow region still holds the body. Of parameters and headers with one
/// name the last counts, and a method without a code of its own arrives as GET.
pub proof fn dispatched_requests_arrive<
    T,
    R,
    C: Fn(&str, usize, bool) -> Result<Option<R>, SlotBusError>,
    Q: Fn(&str) -> bool,
    F: Fn(&R, &str, &[u8]) -> Result<(), SlotBusError>,
    O: Fn(&str) -> Result<Vec<u8>, SlotBusError>,
>(
    bus: BusView<T, R>,
    bus_after: BusView<T, R>,
    os: Mapper<C, Q, F>,
    slot: usize,
    req_id: Seq<char>,
    method: Seq<char>,
    meta: RequestMetaView,
    body: Seq<u8>,
    ticket: T,
    mem: Seq<u8>,
    sent: Seq<u8>,
    on_ok: Option<u32>,
    on_err: Option<u32>,
    reader: ConfigView,
    seen: Seq<u8>,
    open: O,
    taken: Result<Request, SlotBusError>,
)
    requires
        bus.region.maps(mem),
        bus.region.side_is_addressable(Side::Request, slot as nat),
        bus.dispatched(
            bus_after,
            os,
            slot,
            req_id,
            method,
            meta,
            body,
            ticket,
            mem,
            sent,
            on_ok,
            on_err,
            Ok(()),
        ),
        bus.region.same_side(sent, seen, Side::Request, slot as nat),
        overflow_holds(open, reader, seen, Side::Request, slot as nat, body),
        worker::request_taken(bus.region, seen, open, reader, slot as nat, taken),
    ensures
        taken matches Ok(request) && request.made_of(
            req_id,
            types::method_code(method),
            meta,
            body,
        ),
        taken matches Ok(request) && {
            &&& request.req_id@ == req_id
            &&& request.method@ == (if method == "POST"@ || method == "PUT"@ || method == "DELETE"@
                || method == "PATCH"@ || method == "HEAD"@ || method == "OPTIONS"@ {
                method
            } else {
                "GET"@
            })
            &&& request.path@ == meta.path
            &&& request.route_pattern@ == meta.route_pattern
            &&& match request.query {
                Some(query) => meta.query == Some(query@),
                None => meta.query is None,
            }
            &&& request.body@ == body
            &&& forall|i: int|
                0 <= i < meta.path_params.len() && (forall|j: int|
                    i < j < meta.path_params.len() ==> (#[trigger] meta.path_params[j]).0
                        != meta.path_params[i].0) ==> request.path_params@.contains_key(
                    (#[trigger] meta.path_params[i]).0,
                ) && request.path_params@[meta.path_params[i].0]@ == meta.path_params[i].1
            &&& forall|key: Seq<char>| #[trigger]
                request.path_params@.contains_key(key) ==> exists|i: int|
                    0 <= i < meta.path_params.len() && (#[trigger] meta.path_params[i]).0 == key
            &&& forall|i: int|
                0 <= i < meta.headers.len() && (forall|j: int|
                    i < j < meta.headers.len() ==> (#[trigger] meta.headers[j]).0
                        != meta.headers[i].0) ==> request.headers@.contains_key(
                    (#[trigger] meta.headers[i]).0,
                ) && request.headers@[meta.headers[i].0]@ == meta.headers[i].1
            &&& forall|key: Seq<char>| #[trigger]
                request.headers@.contains_key(key) ==> exists|i: int|
                    0 <= i < meta.headers.len() && (#[trigger] meta.headers[i]).0 == key
        },
        bus_after.pending == bus.pending.insert(
            req_id,
            (transport::request_label(method, meta.path), ticket),
        ),
        bus_after.pending == bus.pending.insert(req_id, (method + " "@ + meta.path, ticket)),
{
    let written = choose|written: Result<Option<R>, SlotBusError>|
        {
            &&& #[trigger] slots::request_written(
                bus.region,
                os,
                bus.config,
                slot as nat,
                encode_utf8(req_id),
                types::method_code(method),
                codec::request_meta_bytes(meta),
                body,
                mem,
                sent,
                on_ok,
                on_err,
                written,
            )
            &&& codec::request_meta_of(codec::request_meta_bytes(meta)) == codec::decoded(meta)
            &&& bus.after_write(
                bus_after,
                slot,
                req_id,
                transport::request_label(method, meta.path),
                ticket,
                written,
                Ok(()),
            )
        };
    let read: Result<(String, u8, RequestMeta, Vec<u8>), SlotBusError> = match taken {
        Ok(request) => {
            let (id, m, parsed, data) = choose|
                id: String,
                m: u8,
                parsed: RequestMeta,
                data: Vec<u8>,
            |
                {
                    &&& #[trigger] slots::request_read(
                        bus.region,
                        seen,
                        open,
                        reader,
                        slot as nat,
                        Ok((id, m, parsed, data)),
                    )
                    &&& request.made_of(id@, m, parsed@, data@)
                };
            Ok((id, m, parsed, data))
        },
        Err(e) => Err(e),
    };
    requests_round_trip(
        bus.region,
        os,
        bus.config,
        reader,
        slot as nat,
        req_id,
        types::method_code(method),
        codec::request_meta_bytes(meta),
        meta,
        body,
        mem,
        sent,
        on_ok,
        on_err,
        written,
        seen,
        open,
        read,
    );
    if let Ok(request) = taken {
        transport::requests_have_every_part(
            request,
            req_id,
            types::method_code(method),
            meta,
            body,
        );
        types::methods_have_their_codes(method, types::method_code(method));
    }
}

/// A response that the worker sent is handed to the request whose id its slot
/// holds, as it was sent, for as long as nothing else writes to the response
/// side of the slot and an overflow region still holds the body; and that request
/// is pending no more.
pub proof fn responses_reach_their_request<
    T,
    R,
    C: Fn(&str, usize, bool) -> Result<Option<R>, SlotBusError>,
    Q: Fn(&str) -> bool,
    F: Fn(&R, &str, &[u8]) -> Result<(), SlotBusError>,
    O: Fn(&str) -> Result<Vec<u8>, SlotBusError>,
>(
    worker: WorkerView<R>,
    worker_after: WorkerView<R>,
    os: Mapper<C, Q, F>,
    slot: usize,
    status: u16,
    meta: ResponseMetaView,
    body: Seq<u8>,
    mem: Seq<u8>,
    sent: Seq<u8>,
    on_ok: Option<u32>,
    on_err: Option<u32>,
    bus: BusView<T, R>,
    bus_after: BusView<T, R>,
    seen: Seq<u8>,
    open: O,
    outcome: Result<(u16, ResponseMeta, Vec<u8>), SlotBusError>,
    delivery: Delivery<T>,
)
    requires
        worker.region.maps(mem),
        worker.region.side_is_addressable(Side::Response, slot as nat),
        worker.responded(
            worker_after,
            os,
            slot,
            status,
            meta,
            body,
            mem,
            sent,
            on_ok,
            on_err,
            Ok(()),
        ),
        bus.region == worker.region,
        bus.region.same_side(sent, seen, Side::Response, slot as nat),
        overflow_holds(open, bus.config, seen, Side::Response, slot as nat, body),
        slots::response_read(bus.region, seen, open, bus.config, slot as nat, outcome),
        bus.settled(
            bus_after,
            slot,
            codec::id_text(types::slot_at(seen, slot as nat).req_id),
            outcome,
            delivery,
        ),
        bus.pending.contains_key(codec::id_text(types::slot_at(seen, slot as nat).req_id)),
    ensures
        ({
            let id = codec::id_text(types::slot_at(seen, slot as nat).req_id);
            &&& delivery matches Delivery::Delivered { ticket, label, response }
            &&& ticket == bus.pending[id].1
            &&& label@ == bus.pending[id].0
            &&& response.status == status
            &&& response.body@ == body
            &&& response.content_type@ == meta.content_type
            &&& types::pairs(response.headers@) == meta.headers
            &&& bus_after.pending == bus.pending.remove(id)
        }),
{
    let written = choose|written: Result<Option<R>, SlotBusError>|
        {
            &&& #[trigger] slots::response_written(
                worker.region,
                os,
                worker.config,
                slot as nat,
                status,
                codec::response_meta_bytes(meta),
                body,
                mem,
                sent,
                on_ok,
                on_err,
                written,
            )
            &&& codec::response_meta_of(codec::response_meta_bytes(meta)) == codec::decoded(meta)
            &&& worker.after_write(worker_after, slot, written, Ok(()))
        };
    responses_round_trip(
        worker.region,
        os,
        worker.config,
        bus.config,
        slot as nat,
        status,
        codec::response_meta_bytes(meta),
        meta,
        body,
        mem,
        sent,
        on_ok,
        on_err,
        written,
        seen,
        open,
        outcome,
    );
}

/// A request that the hub dispatched and the worker answered gets that answer:
/// the hub hands the ticket of this request, with the response that the worker
/// sent, to whoever collects the slot.
///
/// In between, nothing else may write to the slot's request and response, the
/// request must still be pending, and an overflow region must still hold the
/// response's body.
pub proof fn answered_requests_are_resolved<
    T,
    R,
    C: Fn(&str, usize, bool) -> Result<Option<R>, SlotBusError>,
    Q: Fn(&str) -> bool,
    F: Fn(&R, &str, &[u8]) -> Result<(), SlotBusError>,
    C2: Fn(&str, usize, bool) -> Result<Option<R>, SlotBusError>,
    Q2: Fn(&str) -> bool,
    F2: Fn(&R, &str, &[u8]) -> Result<(), SlotBusError>,
    O: Fn(&str) -> Result<Vec<u8>, SlotBusError>,
>(
    bus: BusView<T, R>,
    bus_after: BusView<T, R>,
    os: Mapper<C, Q, F>,
    slot: usize,
    req_id: Seq<char>,
    method: Seq<char>,
    meta: RequestMetaView,
    body: Seq<u8>,
    ticket: T,
    mem: Seq<u8>,
    sent: Seq<u8>,
    on_ok: Option<u32>,
    on_err: Option<u32>,
    worker: WorkerView<R>,
    worker_after: WorkerView<R>,
    worker_os: Mapper<C2, Q2, F2>,
    status: u16,
    answer: ResponseMetaView,
    answer_body: Seq<u8>,
    claimed: Seq<u8>,
    answered: Seq<u8>,
    worker_on_ok: Option<u32>,
    worker_on_err: Option<u32>,
    hub: BusView<T, R>,
    hub_after: BusView<T, R>,
    seen: Seq<u8>,
    open: O,
    outcome: Result<(u16, ResponseMeta, Vec<u8>), SlotBusError>,
    delivery: Delivery<T>,
)
    requires
        bus.region.maps(mem),
        bus.dispatched(
            bus_after,
            os,
            slot,
            req_id,
            method,
            meta,
            body,
            ticket,
            mem,
            sent,
            on_ok,
            on_err,
            Ok(()),
        ),
        bus.region.same_side(sent, claimed, Side::Request, slot as nat),
        worker.region == bus.region,
        worker.region.side_is_addressable(Side::Response, slot as nat),
        worker.responded(
            worker_after,
            worker_os,
            slot,
            status,
            answer,
            answer_body,
            claimed,
            answered,
            worker_on_ok,
            worker_on_err,
            Ok(()),
        ),
        bus.region.same_side(answered, seen, Side::Request, slot as nat),
        bus.region.same_side(answered, seen, Side::Response, slot as nat),
        hub.region == bus.region,
        hub.pending.contains_key(req_id),
        hub.pending[req_id] == bus_after.pending[req_id],
        overflow_holds(open, hub.config, seen, Side::Response, slot as nat, answer_body),
        slots::response_read(hub.region, seen, open, hub.config, slot as nat, outcome),
        hub.settled(
            hub_after,
            slot,
            codec::id_text(types::slot_at(seen, slot as nat).req_id),
            outcome,
            delivery,
        ),
    ensures
        delivery matches Delivery::Delivered { ticket: handed, label, response } && {
            &&& handed == ticket
            &&& label@ == transport::request_label(method, meta.path)
            &&& response.status == status
            &&& response.body@ == answer_body
            &&& response.content_type@ == answer.content_type
            &&& types::pairs(response.headers@) == answer.headers
        },
        hub_after.pending == hub.pending.remove(req_id),
{
    let region = bus.region;
    let written = choose|written: Result<Option<R>, SlotBusError>|
        {
            &&& #[trigger] slots::request_written(
                region,
                os,
                bus.config,
                slot as nat,
                encode_utf8(req_id),
                types::method_code(method),
                codec::request_meta_bytes(meta),
                body,
                mem,
                sent,
                on_ok,
                on_err,
                written,
            )
            &&& codec::request_meta_of(codec::request_meta_bytes(meta)) == codec::decoded(meta)
            &&& bus.after_write(
                bus_after,
                slot,
                req_id,
                transport::request_label(method, meta.path),
                ticket,
                written,
                Ok(()),
            )
        };
    lemma_request_write_len(
        region,
        os,
        bus.config,
        slot as nat,
        encode_utf8(req_id),
        types::method_code(method),
        codec::request_meta_bytes(meta),
        body,
        mem,
        sent,
        on_ok,
        on_err,
        written,
    );
    let replied = choose|replied: Result<Option<R>, SlotBusError>|
        {
            &&& #[trigger] slots::response_written(
                region,
                worker_os,
                worker.config,
                slot as nat,
                status,
                codec::response_meta_bytes(answer),
                answer_body,
                claimed,
                answered,
                worker_on_ok,
                worker_on_err,
                replied,
            )
            &&& codec::response_meta_of(codec::response_meta_bytes(answer))
                == codec::decoded(answer)
            &&& worker.after_write(worker_after, slot, replied, Ok(()))
        };
    response_writes_keep_other_payloads(
        region,
        worker_os,
        worker.config,
        slot as nat,
        status,
        codec::response_meta_bytes(answer),
        answer_body,
        claimed,
        answered,
        worker_on_ok,
        worker_on_err,
        replied,
        Side::Request,
        slot as nat,
    );
    lemma_same_side_trans(region, sent, claimed, answered, Side::Request, slot as nat);
    lemma_same_side_trans(region, sent, answered, seen, Side::Request, slot as nat);
    slots_keep_the_id(
        region,
        os,
        bus.config,
        slot as nat,
        req_id,
        types::method_code(method),
        codec::request_meta_bytes(meta),
        body,
        mem,
        sent,
        on_ok,
        on_err,
        written,
        seen,
    );
    responses_reach_their_request(
        worker,
        worker_after,
        worker_os,
        slot,
        status,
        answer,
        answer_body,
        claimed,
        answered,
        worker_on_ok,
        worker_on_err,
        hub,
        hub_after,
        seen,
        open,
        outcome,
        delivery,
    );
}

/// Writing a request does not change the size of the memory.
proof fn lemma_request_write_len<
    R,
    C: Fn(&str, usize, bool) -> Result<Option<R>, SlotBusError>,
    Q: Fn(&str) -> bool,
    F: Fn(&R, &str, &[u8]) -> Result<(), SlotBusError>,
>(
    region: RegionView,
    os: Mapper<C, Q, F>,
    config: ConfigView,
    slot: nat,
    id: Seq<u8>,
    method: u8,
    meta: Seq<u8>,
    body: Seq<u8>,
    before: Seq<u8>,
    after: Seq<u8>,
    on_ok: Option<u32>,
    on_err: Option<u32>,
    res: Result<Option<R>, SlotBusError>,
)
    requires
        region.maps(before),
        slots::request_written(
            region,
            os,
            config,
            slot,
            id,
            method,
            meta,
            body,
            before,
            after,
            on_ok,
            on_err,
            res,
        ),
        res is Ok,
    ensures
        slot < region.num_slots,
        region.maps(after),
{
    let head = slots::with_request_head(before, slot, id, method);
    let marker = lemma_placed_marker(
        region,
        os,
        config,
        Side::Request,
        slot,
        meta,
        body,
        head,
        after,
        on_ok,
        on_err,
        res,
    );
    lemma_placed_outside(region, head, Side::Request, slot, meta, body, marker);
}

// ---- Inline capacity ---------------------------------------------------------

/// Bodies up to the inline capacity stay inline in either direction, and a body
/// above it spills in one direction at least.
pub proof fn inline_capacity_is_the_limit(region: RegionView, meta_len: nat, body_len: nat)
    requires
        body_len > 0,
    ensures
        body_len <= region.inline_capacity(meta_len) <==> region.fits_inline(
            Side::Request,
            meta_len,
            body_len,
        ) && region.fits_inline(Side::Response, meta_len, body_len),
        body_len <= region.inline_capacity(meta_len) <==> {
            &&& (meta_len + 7) / 8 * 8 + body_len <= region.arena_size(Side::Request)
            &&& (meta_len + 7) / 8 * 8 + body_len <= region.arena_size(Side::Response)
        },
{
}

// ---- When writing succeeds, and what it leaves -------------------------------

/// Where the system grants every mapping and every copy, placing a payload fails
/// for its sizes alone.
proof fn lemma_granted_placement<
    R,
    C: Fn(&str, usize, bool) -> Result<Option<R>, SlotBusError>,
    Q: Fn(&str) -> bool,
    F: Fn(&R, &str, &[u8]) -> Result<(), SlotBusError>,
>(
    region: RegionView,
    os: Mapper<C, Q, F>,
    config: ConfigView,
    side: Side,
    slot: nat,
    meta: Seq<u8>,
    body: Seq<u8>,
    before: Seq<u8>,
    after: Seq<u8>,
    on_ok: Option<u32>,
    on_err: Option<u32>,
    res: Result<Option<R>, SlotBusError>,
)
    requires
        meta.len() <= region.arena_size(side),
        meta.len() <= 65535,
        body.len() <= 4294967295,
        forall|n: &str, size: usize, again: bool, r: Result<Option<R>, SlotBusError>| #[trigger]
            os.create.ensures((n, size, again), r) ==> (r matches Ok(Some(_))),
        forall|m: &R, n: &str, d: &[u8], r: Result<(), SlotBusError>| #[trigger]
            os.fill.ensures((m, n, d), r) ==> r is Ok,
        slots::placement(
            region,
            os,
            config,
            side,
            slot,
            meta,
            body,
            before,
            after,
            on_ok,
            on_err,
            res,
        ),
    ensures
        res is Ok,
{
    if let Err(e) = res {
        overflow::granted_searches_end_at_once::<R, C, Q, F>(
            os,
            overflow::names_of_slot(config, side, slot),
            body,
        );
        assert(overflow::lost_generations::<R, C, Q, F>(
            os,
            overflow::names_of_slot(config, side, slot),
            body,
            e,
        ));
    }
}

/// A request is written wherever its slot exists, its metadata fits in the arena and
/// has 65535 bytes at most, its body has 4294967295 bytes at most, and the system
/// grants every mapping and every copy. It needs no mapping if and only if its
/// body is empty or fits behind the metadata, rounded up to a multiple of eight.
pub proof fn requests_within_the_limits_are_written<
    R,
    C: Fn(&str, usize, bool) -> Result<Option<R>, SlotBusError>,
    Q: Fn(&str) -> bool,
    F: Fn(&R, &str, &[u8]) -> Result<(), SlotBusError>,
>(
    region: RegionView,
    os: Mapper<C, Q, F>,
    config: ConfigView,
    slot: nat,
    id: Seq<u8>,
    method: u8,
    meta: Seq<u8>,
    body: Seq<u8>,
    before: Seq<u8>,
    after: Seq<u8>,
    on_ok: Option<u32>,
    on_err: Option<u32>,
    res: Result<Option<R>, SlotBusError>,
)
    requires
        slot < region.num_slots,
        meta.len() <= region.arena_size(Side::Request),
        meta.len() <= 65535,
        body.len() <= 4294967295,
        forall|n: &str, size: usize, again: bool, r: Result<Option<R>, SlotBusError>| #[trigger]
            os.create.ensures((n, size, again), r) ==> (r matches Ok(Some(_))),
        forall|m: &R, n: &str, d: &[u8], r: Result<(), SlotBusError>| #[trigger]
            os.fill.ensures((m, n, d), r) ==> r is Ok,
        slots::request_written(
            region,
            os,
            config,
            slot,
            id,
            method,
            meta,
            body,
            before,
            after,
            on_ok,
            on_err,
            res,
        ),
    ensures
        res is Ok,
        res matches Ok(None) <==> body.len() == 0 || (meta.len() + 7) / 8 * 8 + body.len()
            <= region.arena_size(Side::Request),
{
    lemma_granted_placement(
        region,
        os,
        config,
        Side::Request,
        slot,
        meta,
        body,
        slots::with_request_head(before, slot, id, method),
        after,
        on_ok,
        on_err,
        res,
    );
}

/// A request that cannot be recorded is refused, whatever the system does: a slot
/// that the region does not have, metadata that its arena cannot hold, and lengths
/// beyond 65535 and 4294967295. Then nothing but the head of the slot's record has
/// changed, and nothing at all where there is no such slot.
pub proof fn requests_beyond_the_limits_are_refused<
    R,
    C: Fn(&str, usize, bool) -> Result<Option<R>, SlotBusError>,
    Q: Fn(&str) -> bool,
    F: Fn(&R, &str, &[u8]) -> Result<(), SlotBusError>,
>(
    region: RegionView,
    os: Mapper<C, Q, F>,
    config: ConfigView,
    slot: nat,
    id: Seq<u8>,
    method: u8,
    meta: Seq<u8>,
    body: Seq<u8>,
    before: Seq<u8>,
    after: Seq<u8>,
    on_ok: Option<u32>,
    on_err: Option<u32>,
    res: Result<Option<R>, SlotBusError>,
)
    requires
        region.maps(before),
        slot >= region.num_slots || meta.len() > region.arena_size(Side::Request) || meta.len()
            > 65535 || body.len() > 4294967295,
        slots::request_written(
            region,
            os,
            config,
            slot,
            id,
            method,
            meta,
            body,
            before,
            after,
            on_ok,
            on_err,
            res,
        ),
    ensures
        res is Err,
        slot >= region.num_slots ==> (res matches Err(e) && e@ == ErrorView::InvalidRegion(
            slots::no_such_slot_text(Side::Request, slot, region.num_slots),
        )),
        slot < region.num_slots ==> (res matches Err(e) && e@ == ErrorView::SharedMemory(
            region.refusal(Side::Request, meta.len(), body.len())->Some_0,
        )),
        slot >= region.num_slots ==> after == before,
        after.len() == before.len(),
        forall|i: int|
            0 <= i < before.len() && !(64 + 128 * slot <= i < 64 + 128 * slot + 41)
                ==> #[trigger] after[i] == before[i],
{
}

/// What a request that was written leaves, byte by byte: in the record of its slot
/// its id, padded with zeros, its method, and where metadata and body lie and how
/// long they are; in the arena the metadata, and behind it, at the next multiple of
/// eight, a body that fits there. A body that does not fit is recorded with a marker
/// above zero; any other with the marker zero.
pub proof fn written_requests_lie_where_they_belong<
    R,
    C: Fn(&str, usize, bool) -> Result<Option<R>, SlotBusError>,
    Q: Fn(&str) -> bool,
    F: Fn(&R, &str, &[u8]) -> Result<(), SlotBusError>,
>(
    region: RegionView,
    os: Mapper<C, Q, F>,
    config: ConfigView,
    slot: nat,
    id: Seq<u8>,
    method: u8,
    meta: Seq<u8>,
    body: Seq<u8>,
    before: Seq<u8>,
    after: Seq<u8>,
    on_ok: Option<u32>,
    on_err: Option<u32>,
    res: Result<Option<R>, SlotBusError>,
)
    requires
        region.maps(before),
        region.side_is_addressable(Side::Request, slot),
        slots::request_written(
            region,
            os,
            config,
            slot,
            id,
            method,
            meta,
            body,
            before,
            after,
            on_ok,
            on_err,
            res,
        ),
        res is Ok,
    ensures
        ({
            let at: int = 64 + 128 * slot as int;
            let arena: int = region.heap_offset as int + region.arena_base(Side::Request, slot);
            let rounded: int = (meta.len() as int + 7) / 8 * 8;
            &&& after.len() == before.len()
            &&& forall|k: int|
                0 <= k < 36 && k < id.len() ==> after[at + 4 + k] == #[trigger] id[k]
            &&& forall|k: int| id.len() <= k < 36 ==> #[trigger] after[at + 4 + k] == 0
            &&& after[at + 40] == method
            &&& bytes::u32_at(after, at + 44) == region.arena_base(Side::Request, slot)
                || meta.len() == 0
            &&& bytes::u16_at(after, at + 48) == meta.len()
            &&& bytes::u32_at(after, at + 56) == body.len()
            &&& forall|i: int| 0 <= i < meta.len() ==> after[arena + i] == #[trigger] meta[i]
            &&& body.len() == 0 ==> after[at + 60] == 0 && bytes::u32_at(after, at + 52) == 0
            &&& body.len() > 0 && rounded + body.len() <= region.arena_size(Side::Request) ==> {
                &&& after[at + 60] == 0
                &&& bytes::u32_at(after, at + 52) == region.arena_base(Side::Request, slot)
                    + rounded
                &&& forall|i: int|
                    0 <= i < body.len() ==> after[arena + rounded + i] == #[trigger] body[i]
            }
            &&& body.len() > 0 && rounded + body.len() > region.arena_size(Side::Request)
                ==> after[at + 60] > 0 && bytes::u32_at(after, at + 52) == 0
        }),
{
    let head = slots::with_request_head(before, slot, id, method);
    let marker = lemma_placed_marker(
        region,
        os,
        config,
        Side::Request,
        slot,
        meta,
        body,
        head,
        after,
        on_ok,
        on_err,
        res,
    );
    lemma_written_meta(region, head, Side::Request, slot, meta, body, marker, after, on_ok);
    lemma_written_body(region, head, Side::Request, slot, meta, body, marker, after, on_ok);
    let at: int = 64 + 128 * slot as int;
    assert forall|k: int| 0 <= k < 36 && k < id.len() implies after[at + 4 + k]
        == #[trigger] id[k] by {
        assert(after[at + 4 + k] == head[at + 4 + k]);
    }
    assert forall|k: int| id.len() <= k < 36 implies #[trigger] after[at + 4 + k] == 0 by {
        assert(after[at + 4 + k] == head[at + 4 + k]);
    }
    assert(after[at + 40] == head[at + 40]);
}

/// A response is written wherever its slot exists, its metadata fits in the arena and
/// has 65535 bytes at most, its body has 4294967295 bytes at most, and the system
/// grants every mapping and every copy. It needs no mapping if and only if its
/// body is empty or fits behind the metadata, rounded up to a multiple of eight.
pub proof fn responses_within_the_limits_are_written<
    R,
    C: Fn(&str, usize, bool) -> Result<Option<R>, SlotBusError>,
    Q: Fn(&str) -> bool,
    F: Fn(&R, &str, &[u8]) -> Result<(), SlotBusError>,
>(
    region: RegionView,
    os: Mapper<C, Q, F>,
    config: ConfigView,
    slot: nat,
    status: u16,
    meta: Seq<u8>,
    body: Seq<u8>,
    before: Seq<u8>,
    after: Seq<u8>,
    on_ok: Option<u32>,
    on_err: Option<u32>,
    res: Result<Option<R>, SlotBusError>,
)
    requires
        slot < region.num_slots,
        meta.len() <= region.arena_size(Side::Response),
        meta.len() <= 65535,
        body.len() <= 4294967295,
        forall|n: &str, size: usize, again: bool, r: Result<Option<R>, SlotBusError>| #[trigger]
            os.create.ensures((n, size, again), r) ==> (r matches Ok(Some(_))),
        forall|m: &R, n: &str, d: &[u8], r: Result<(), SlotBusError>| #[trigger]
            os.fill.ensures((m, n, d), r) ==> r is Ok,
        slots::response_written(
            region,
            os,
            config,
            slot,
            status,
            meta,
            body,
            before,
            after,
            on_ok,
            on_err,
            res,
        ),
    ensures
        res is Ok,
        res matches Ok(None) <==> body.len() == 0 || (meta.len() + 7) / 8 * 8 + body.len()
            <= region.arena_size(Side::Response),
{
    lemma_granted_placement(
        region,
        os,
        config,
        Side::Response,
        slot,
        meta,
        body,
        slots::with_response_head(before, slot, status),
        after,
        on_ok,
        on_err,
        res,
    );
}

/// A response that cannot be recorded is refused, whatever the system does: a slot
/// that the region does not have, metadata that its arena cannot hold, and lengths
/// beyond 65535 and 4294967295. Then nothing but the head of the slot's record has
/// changed, and nothing at all where there is no such slot.
pub proof fn responses_beyond_the_limits_are_refused<
    R,
    C: Fn(&str, usize, bool) -> Result<Option<R>, SlotBusError>,
    Q: Fn(&str) -> bool,
    F: Fn(&R, &str, &[u8]) -> Result<(), SlotBusError>,
>(
    region: RegionView,
    os: Mapper<C, Q, F>,
    config: ConfigView,
    slot: nat,
    status: u16,
    meta: Seq<u8>,
    body: Seq<u8>,
    before: Seq<u8>,
    after: Seq<u8>,
    on_ok: Option<u32>,
    on_err: Option<u32>,
    res: Result<Option<R>, SlotBusError>,
)
    requires
        region.maps(before),
        slot >= region.num_slots || meta.len() > region.arena_size(Side::Response) || meta.len()
            > 65535 || body.len() > 4294967295,
        slots::response_written(
            region,
            os,
            config,
            slot,
            status,
            meta,
            body,
            before,
            after,
            on_ok,
            on_err,
            res,
        ),
    ensures
        res is Err,
        slot >= region.num_slots ==> (res matches Err(e) && e@ == ErrorView::InvalidRegion(
            slots::no_such_slot_text(Side::Response, slot, region.num_slots),
        )),
        slot < region.num_slots ==> (res matches Err(e) && e@ == ErrorView::SharedMemory(
            region.refusal(Side::Response, meta.len(), body.len())->Some_0,
        )),
        slot >= region.num_slots ==> after == before,
        after.len() == before.len(),
        forall|i: int|
            0 <= i < before.len() && !(64 + 128 * slot <= i < 64 + 128 * slot + 4) && !(64 + 128
                * slot + 64 <= i < 64 + 128 * slot + 66) ==> #[trigger] after[i] == before[i],
{
}

/// What a response that was written leaves, byte by byte: in the record of its slot
/// its status, and where metadata and body lie and how long they are; in the arena
/// the metadata, and behind it, at the next multiple of eight, a body that fits
/// there. A body that does not fit is recorded with a marker above zero; any other
/// with the marker zero.
pub proof fn written_responses_lie_where_they_belong<
    R,
    C: Fn(&str, usize, bool) -> Result<Option<R>, SlotBusError>,
    Q: Fn(&str) -> bool,
    F: Fn(&R, &str, &[u8]) -> Result<(), SlotBusError>,
>(
    region: RegionView,
    os: Mapper<C, Q, F>,
    config: ConfigView,
    slot: nat,
    status: u16,
    meta: Seq<u8>,
    body: Seq<u8>,
    before: Seq<u8>,
    after: Seq<u8>,
    on_ok: Option<u32>,
    on_err: Option<u32>,
    res: Result<Option<R>, SlotBusError>,
)
    requires
        region.maps(before),
        region.side_is_addressable(Side::Response, slot),
        slots::response_written(
            region,
            os,
            config,
            slot,
            status,
            meta,
            body,
            before,
            after,
            on_ok,
            on_err,
            res,
        ),
        res is Ok,
    ensures
        ({
            let at: int = 64 + 128 * slot as int;
            let arena: int = region.heap_offset as int + region.arena_base(Side::Response, slot);
            let rounded: int = (meta.len() as int + 7) / 8 * 8;
            &&& after.len() == before.len()
            &&& bytes::u16_at(after, at + 64) == status
            &&& bytes::u32_at(after, at + 68) == region.arena_base(Side::Response, slot)
                || meta.len() == 0
            &&& bytes::u16_at(after, at + 72) == meta.len()
            &&& bytes::u32_at(after, at + 80) == body.len()
            &&& forall|i: int| 0 <= i < meta.len() ==> after[arena + i] == #[trigger] meta[i]
            &&& body.len() == 0 ==> after[at + 84] == 0 && bytes::u32_at(after, at + 76) == 0
            &&& body.len() > 0 && rounded + body.len() <= region.arena_size(Side::Response) ==> {
                &&& after[at + 84] == 0
                &&& bytes::u32_at(after, at + 76) == region.arena_base(Side::Response, slot)
                    + rounded
                &&& forall|i: int|
                    0 <= i < body.len() ==> after[arena + rounded + i] == #[trigger] body[i]
            }
            &&& body.len() > 0 && rounded + body.len() > region.arena_size(Side::Response)
                ==> after[at + 84] > 0 && bytes::u32_at(after, at + 76) == 0
        }),
{
    let head = slots::with_response_head(before, slot, status);
    let marker = lemma_placed_marker(
        region,
        os,
        config,
        Side::Response,
        slot,
        meta,
        body,
        head,
        after,
        on_ok,
        on_err,
        res,
    );
    lemma_written_meta(region, head, Side::Response, slot, meta, body, marker, after, on_ok);
    lemma_written_body(region, head, Side::Response, slot, meta, body, marker, after, on_ok);
    let at: int = 64 + 128 * slot as int;
    bytes::lemma_u16_written(before, at + 64, status);
    assert(after[at + 64] == head[at + 64]);
    assert(after[at + 65] == head[at + 65]);
}

/// Setting a status in the end reaches the first four bytes of the record alone.
proof fn lemma_closing_reaches(placed: Seq<u8>, after: Seq<u8>, slot: nat, status: Option<u32>)
    requires
        64 + 128 * slot + 128 <= placed.len(),
        after == slots::closing(placed, slot, status),
    ensures
        after.len() == placed.len(),
        forall|i: int|
            0 <= i < placed.len() && !(64 + 128 * slot <= i < 64 + 128 * slot + 4)
                ==> #[trigger] after[i] == placed[i],
        types::slot_payload(after, Side::Request, slot) == types::slot_payload(
            placed,
            Side::Request,
            slot,
        ),
        types::slot_payload(after, Side::Response, slot) == types::slot_payload(
            placed,
            Side::Response,
            slot,
        ),
{
}

/// What placing a payload and setting a status leaves of the metadata, byte by
/// byte.
proof fn lemma_written_meta(
    region: RegionView,
    head: Seq<u8>,
    side: Side,
    slot: nat,
    meta: Seq<u8>,
    body: Seq<u8>,
    marker: u8,
    after: Seq<u8>,
    status: Option<u32>,
)
    requires
        region.maps(head),
        slot < region.num_slots,
        region.side_is_addressable(side, slot),
        meta.len() <= region.arena_size(side),
        meta.len() <= 65535,
        body.len() <= 4294967295,
        marker > 0 || body.len() == 0 || region.fits_inline(side, meta.len(), body.len()),
        after == slots::closing(
            region.with_payload(head, side, slot, meta, body, marker),
            slot,
            status,
        ),
    ensures
        ({
            let at: int = 64 + 128 * slot as int;
            let field: int = at + types::payload_field(side);
            let arena: int = region.heap_offset as int + region.arena_base(side, slot);
            &&& after.len() == head.len()
            &&& bytes::u32_at(after, field) == region.arena_base(side, slot) || meta.len() == 0
            &&& bytes::u16_at(after, field + 4) == meta.len()
            &&& forall|i: int| 0 <= i < meta.len() ==> after[arena + i] == #[trigger] meta[i]
            &&& forall|i: int|
                at + 4 <= i < at + 44 || at + 64 <= i < at + 68 ==> #[trigger] after[i] == head[i]
        }),
{
    types::arenas_lie_in_the_heap(side, slot, region.num_slots, region.heap_size);
    lemma_payload_placed(region, head, side, slot, meta, body, marker);
    bytes::lemma_low32(region.arena_base(side, slot));
    let placed = region.with_payload(head, side, slot, meta, body, marker);
    lemma_closing_reaches(placed, after, slot, status);
    let offset = types::slot_payload(placed, side, slot).meta_offset;
    if meta.len() > 0 {
        assert forall|i: int| 0 <= i < meta.len() implies after[region.heap_offset
            + region.arena_base(side, slot) + i] == #[trigger] meta[i] by {
            assert(region.heap_bytes(placed, offset, meta.len())[i] == meta[i]);
        }
    }
}

/// What placing a payload and setting a status leaves of the body, byte by byte.
#[verifier::spinoff_prover]
#[verifier::rlimit(40)]
proof fn lemma_written_body(
    region: RegionView,
    head: Seq<u8>,
    side: Side,
    slot: nat,
    meta: Seq<u8>,
    body: Seq<u8>,
    marker: u8,
    after: Seq<u8>,
    status: Option<u32>,
)
    requires
        region.maps(head),
        slot < region.num_slots,
        region.side_is_addressable(side, slot),
        meta.len() <= region.arena_size(side),
        meta.len() <= 65535,
        body.len() <= 4294967295,
        marker > 0 || body.len() == 0 || region.fits_inline(side, meta.len(), body.len()),
        after == slots::closing(
            region.with_payload(head, side, slot, meta, body, marker),
            slot,
            status,
        ),
    ensures
        ({
            let at: int = 64 + 128 * slot as int;
            let field: int = at + types::payload_field(side);
            let arena: int = region.heap_offset as int + region.arena_base(side, slot);
            let rounded: int = (meta.len() as int + 7) / 8 * 8;
            &&& bytes::u32_at(after, field + 12) == body.len()
            &&& body.len() == 0 ==> after[field + 16] == 0 && bytes::u32_at(after, field + 8) == 0
            &&& body.len() > 0 && rounded + body.len() <= region.arena_size(side) ==> {
                &&& after[field + 16] == 0
                &&& bytes::u32_at(after, field + 8) == region.arena_base(side, slot) + rounded
                &&& forall|i: int|
                    0 <= i < body.len() ==> after[arena + rounded + i] == #[trigger] body[i]
            }
            &&& body.len() > 0 && rounded + body.len() > region.arena_size(side)
                ==> after[field + 16] > 0 && bytes::u32_at(after, field + 8) == 0
        }),
{
    types::arenas_lie_in_the_heap(side, slot, region.num_slots, region.heap_size);
    lemma_payload_placed(region, head, side, slot, meta, body, marker);
    let placed = region.with_payload(head, side, slot, meta, body, marker);
    lemma_closing_reaches(placed, after, slot, status);
    let offset = types::slot_payload(placed, side, slot).body_offset;
    if body.len() > 0 && region.fits_inline(side, meta.len(), body.len()) {
        assert forall|i: int| 0 <= i < body.len() implies after[region.heap_offset
            + region.arena_base(side, slot) + (meta.len() as int + 7) / 8 * 8 + i]
            == #[trigger] body[i] by {
            assert(region.heap_bytes(placed, offset, body.len())[i] == body[i]);
        }
    }
    let m1 = region.with_meta(head, side, slot, meta);
    lemma_meta_placed(region, head, side, slot, meta);
    if body.len() == 0 {
        lemma_body_recorded(region, m1, side, slot, 0, 0, 0);
    } else if !region.fits_inline(side, meta.len(), body.len()) {
        lemma_body_recorded(region, m1, side, slot, 0, body.len() as u32, marker);
    }
}

/// The body of a request that went to an overflow region lies in the one whose
/// generation is one below the marker in the slot's record: a region of whole pages
/// was created under the name of this generation and the body, all of it, was copied
/// into it, and the name of any earlier generation was found taken.
pub proof fn spilled_requests_take_the_first_name_left<
    R,
    C: Fn(&str, usize, bool) -> Result<Option<R>, SlotBusError>,
    Q: Fn(&str) -> bool,
    F: Fn(&R, &str, &[u8]) -> Result<(), SlotBusError>,
>(
    region: RegionView,
    os: Mapper<C, Q, F>,
    config: ConfigView,
    slot: nat,
    id: Seq<u8>,
    method: u8,
    meta: Seq<u8>,
    body: Seq<u8>,
    before: Seq<u8>,
    after: Seq<u8>,
    on_ok: Option<u32>,
    on_err: Option<u32>,
    handle: R,
    size: usize,
    earlier: u8,
)
    requires
        region.maps(before),
        region.side_is_addressable(Side::Request, slot),
        size % 4096 == 0,
        body.len() <= size < body.len() + 4096,
        slots::request_written(
            region,
            os,
            config,
            slot,
            id,
            method,
            meta,
            body,
            before,
            after,
            on_ok,
            on_err,
            Ok(Some(handle)),
        ),
    ensures
        ({
            let marker = after[64 + 128 * slot as int + 60];
            let name = config.overflow_name_gen(Side::Request, slot, (marker - 1) as u8);
            &&& marker > 0
            &&& exists|n: &str, again: bool|
                n@ == name && #[trigger] os.create.ensures((n, size, again), Ok(Some(handle)))
            &&& exists|n: &str, d: &[u8]|
                n@ == name && d@ == body && #[trigger] os.fill.ensures((&handle, n, d), Ok(()))
            &&& earlier < marker - 1 ==> exists|n: &str|
                n@ == config.overflow_name_gen(Side::Request, slot, earlier)
                    && #[trigger] os.create.ensures((n, size, false), Ok(None))
        }),
{
    let head = slots::with_request_head(before, slot, id, method);
    let generation = choose|generation: u8|
        #[trigger] slots::spilled(
            region,
            os,
            config,
            Side::Request,
            slot,
            meta,
            body,
            head,
            after,
            on_ok,
            handle,
            generation,
        );
    assert(slots::spilled(
        region,
        os,
        config,
        Side::Request,
        slot,
        meta,
        body,
        head,
        after,
        on_ok,
        handle,
        generation,
    ));
    overflow::searches_take_the_first_name_left(
        os,
        config,
        Side::Request,
        slot,
        body,
        generation,
        handle,
        size,
        earlier,
    );
    let marker = (generation + 1) as u8;
    let placed = region.with_payload(head, Side::Request, slot, meta, body, marker);
    lemma_payload_placed(region, head, Side::Request, slot, meta, body, marker);
    let at: int = 64 + 128 * slot as int;
    assert(after[at + 60] == placed[at + 60]);
    assert(placed[at + 60] == marker);
}

/// The body of a response that went to an overflow region lies in the one whose
/// generation is one below the marker in the slot's record: a region of whole pages
/// was created under the name of this generation and the body, all of it, was copied
/// into it, and the name of any earlier generation was found taken.
pub proof fn spilled_responses_take_the_first_name_left<
    R,
    C: Fn(&str, usize, bool) -> Result<Option<R>, SlotBusError>,
    Q: Fn(&str) -> bool,
    F: Fn(&R, &str, &[u8]) -> Result<(), SlotBusError>,
>(
    region: RegionView,
    os: Mapper<C, Q, F>,
    config: ConfigView,
    slot: nat,
    status: u16,
    meta: Seq<u8>,
    body: Seq<u8>,
    before: Seq<u8>,
    after: Seq<u8>,
    on_ok: Option<u32>,
    on_err: Option<u32>,
    handle: R,
    size: usize,
    earlier: u8,
)
    requires
        region.maps(before),
        region.side_is_addressable(Side::Response, slot),
        size % 4096 == 0,
        body.len() <= size < body.len() + 4096,
        slots::response_written(
            region,
            os,
            config,
            slot,
            status,
            meta,
            body,
            before,
            after,
            on_ok,
            on_err,
            Ok(Some(handle)),
        ),
    ensures
        ({
            let marker = after[64 + 128 * slot as int + 84];
            let name = config.overflow_name_gen(Side::Response, slot, (marker - 1) as u8);
            &&& marker > 0
            &&& exists|n: &str, again: bool|
                n@ == name && #[trigger] os.create.ensures((n, size, again), Ok(Some(handle)))
            &&& exists|n: &str, d: &[u8]|
                n@ == name && d@ == body && #[trigger] os.fill.ensures((&handle, n, d), Ok(()))
            &&& earlier < marker - 1 ==> exists|n: &str|
                n@ == config.overflow_name_gen(Side::Response, slot, earlier)
                    && #[trigger] os.create.ensures((n, size, false), Ok(None))
        }),
{
    let head = slots::with_response_head(before, slot, status);
    let generation = choose|generation: u8|
        #[trigger] slots::spilled(
            region,
            os,
            config,
            Side::Response,
            slot,
            meta,
            body,
            head,
            after,
            on_ok,
            handle,
            generation,
        );
    assert(slots::spilled(
        region,
        os,
        config,
        Side::Response,
        slot,
        meta,
        body,
        head,
        after,
        on_ok,
        handle,
        generation,
    ));
    overflow::searches_take_the_first_name_left(
        os,
        config,
        Side::Response,
        slot,
        body,
        generation,
        handle,
        size,
        earlier,
    );
    let marker = (generation + 1) as u8;
    let placed = region.with_payload(head, Side::Response, slot, meta, body, marker);
    lemma_payload_placed(region, head, Side::Response, slot, meta, body, marker);
    let at: int = 64 + 128 * slot as int;
    assert(after[at + 84] == placed[at + 84]);
    assert(placed[at + 84] == marker);
}

/// A dispatch into a slot that exists succeeds where the id has 36 bytes at most,
/// none of them zero, the encoded metadata fits in the arena and in 65535 bytes, the
/// body in 4294967295 bytes, and the system grants every mapping and every copy. The
/// request is then pending under its id, with method and path as its label.
pub proof fn dispatches_within_the_limits_succeed<
    T,
    R,
    C: Fn(&str, usize, bool) -> Result<Option<R>, SlotBusError>,
    Q: Fn(&str) -> bool,
    F: Fn(&R, &str, &[u8]) -> Result<(), SlotBusError>,
>(
    bus: BusView<T, R>,
    bus_after: BusView<T, R>,
    os: Mapper<C, Q, F>,
    slot: usize,
    req_id: Seq<char>,
    method: Seq<char>,
    meta: RequestMetaView,
    body: Seq<u8>,
    ticket: T,
    mem: Seq<u8>,
    sent: Seq<u8>,
    on_ok: Option<u32>,
    on_err: Option<u32>,
    res: Result<(), SlotBusError>,
)
    requires
        slot < bus.region.num_slots,
        encode_utf8(req_id).len() <= 36,
        !encode_utf8(req_id).contains(0),
        codec::request_meta_bytes(meta).len() <= bus.region.arena_size(Side::Request),
        codec::request_meta_bytes(meta).len() <= 65535,
        body.len() <= 4294967295,
        forall|n: &str, size: usize, again: bool, r: Result<Option<R>, SlotBusError>| #[trigger]
            os.create.ensures((n, size, again), r) ==> (r matches Ok(Some(_))),
        forall|m: &R, n: &str, d: &[u8], r: Result<(), SlotBusError>| #[trigger]
            os.fill.ensures((m, n, d), r) ==> r is Ok,
        bus.dispatched(
            bus_after,
            os,
            slot,
            req_id,
            method,
            meta,
            body,
            ticket,
            mem,
            sent,
            on_ok,
            on_err,
            res,
        ),
    ensures
        res is Ok,
        bus_after.pending.contains_key(req_id),
        bus_after.pending[req_id].0 == method + " "@ + meta.path,
        bus_after.pending[req_id].1 == ticket,
        forall|other: Seq<char>|
            other != req_id ==> (#[trigger] bus_after.pending.contains_key(other)
                <==> bus.pending.contains_key(other)) && bus_after.pending[other]
                == bus.pending[other],
{
    slots::ids_of_thirty_six_bytes_fit(req_id);
    let written = choose|written: Result<Option<R>, SlotBusError>|
        {
            &&& #[trigger] slots::request_written(
                bus.region,
                os,
                bus.config,
                slot as nat,
                encode_utf8(req_id),
                types::method_code(method),
                codec::request_meta_bytes(meta),
                body,
                mem,
                sent,
                on_ok,
                on_err,
                written,
            )
            &&& codec::request_meta_of(codec::request_meta_bytes(meta)) == codec::decoded(meta)
            &&& bus.after_write(
                bus_after,
                slot,
                req_id,
                transport::request_label(method, meta.path),
                ticket,
                written,
                res,
            )
        };
    requests_within_the_limits_are_written(
        bus.region,
        os,
        bus.config,
        slot as nat,
        encode_utf8(req_id),
        types::method_code(method),
        codec::request_meta_bytes(meta),
        body,
        mem,
        sent,
        on_ok,
        on_err,
        written,
    );
    transport::written_requests_are_remembered(
        bus,
        bus_after,
        slot,
        req_id,
        method,
        meta.path,
        ticket,
        written->Ok_0,
        res,
    );
}

/// An id that a slot could not give back, with more than 36 bytes or a zero among
/// them, is refused, and neither the bus nor the memory changes.
pub proof fn unfit_ids_change_nothing<
    T,
    R,
    C: Fn(&str, usize, bool) -> Result<Option<R>, SlotBusError>,
    Q: Fn(&str) -> bool,
    F: Fn(&R, &str, &[u8]) -> Result<(), SlotBusError>,
>(
    bus: BusView<T, R>,
    bus_after: BusView<T, R>,
    os: Mapper<C, Q, F>,
    slot: usize,
    req_id: Seq<char>,
    method: Seq<char>,
    meta: RequestMetaView,
    body: Seq<u8>,
    ticket: T,
    mem: Seq<u8>,
    sent: Seq<u8>,
    on_ok: Option<u32>,
    on_err: Option<u32>,
    res: Result<(), SlotBusError>,
)
    requires
        encode_utf8(req_id).len() > 36 || encode_utf8(req_id).contains(0),
        bus.dispatched(
            bus_after,
            os,
            slot,
            req_id,
            method,
            meta,
            body,
            ticket,
            mem,
            sent,
            on_ok,
            on_err,
            res,
        ),
    ensures
        res matches Err(e) && e@ == ErrorView::Serialization(slots::id_refused_text(req_id)),
        bus_after == bus,
        sent == mem,
{
    slots::ids_of_thirty_six_bytes_fit(req_id);
}

/// A response in a slot that exists is sent where its encoded metadata fits in the
/// arena and in 65535 bytes, its body in 4294967295 bytes, and the system grants
/// every mapping and every copy.
pub proof fn responses_within_the_limits_are_sent<
    R,
    C: Fn(&str, usize, bool) -> Result<Option<R>, SlotBusError>,
    Q: Fn(&str) -> bool,
    F: Fn(&R, &str, &[u8]) -> Result<(), SlotBusError>,
>(
    worker: WorkerView<R>,
    worker_after: WorkerView<R>,
    os: Mapper<C, Q, F>,
    slot: usize,
    status: u16,
    meta: ResponseMetaView,
    body: Seq<u8>,
    mem: Seq<u8>,
    sent: Seq<u8>,
    on_ok: Option<u32>,
    on_err: Option<u32>,
    res: Result<(), SlotBusError>,
)
    requires
        slot < worker.region.num_slots,
        codec::response_meta_bytes(meta).len() <= worker.region.arena_size(Side::Response),
        codec::response_meta_bytes(meta).len() <= 65535,
        body.len() <= 4294967295,
        forall|n: &str, size: usize, again: bool, r: Result<Option<R>, SlotBusError>| #[trigger]
            os.create.ensures((n, size, again), r) ==> (r matches Ok(Some(_))),
        forall|m: &R, n: &str, d: &[u8], r: Result<(), SlotBusError>| #[trigger]
            os.fill.ensures((m, n, d), r) ==> r is Ok,
        worker.responded(
            worker_after,
            os,
            slot,
            status,
            meta,
            body,
            mem,
            sent,
            on_ok,
            on_err,
            res,
        ),
    ensures
        res is Ok,
{
    let written = choose|written: Result<Option<R>, SlotBusError>|
        {
            &&& #[trigger] slots::response_written(
                worker.region,
                os,
                worker.config,
                slot as nat,
                status,
                codec::response_meta_bytes(meta),
                body,
                mem,
                sent,
                on_ok,
                on_err,
                written,
            )
            &&& codec::response_meta_of(codec::response_meta_bytes(meta)) == codec::decoded(meta)
            &&& worker.after_write(worker_after, slot, written, res)
        };
    responses_within_the_limits_are_written(
        worker.region,
        os,
        worker.config,
        slot as nat,
        status,
        codec::response_meta_bytes(meta),
        body,
        mem,
        sent,
        on_ok,
        on_err,
        written,
    );
    worker::written_responses_keep_their_overflow(worker, worker_after, slot, written, res);
}

/// Where a request within the limits could not be written, it was the system that
/// refused, and its error is passed on; or the name of any of the 255 generations was
/// found taken.
pub proof fn failed_requests_pass_the_refusal_on<
    R,
    C: Fn(&str, usize, bool) -> Result<Option<R>, SlotBusError>,
    Q: Fn(&str) -> bool,
    F: Fn(&R, &str, &[u8]) -> Result<(), SlotBusError>,
>(
    region: RegionView,
    os: Mapper<C, Q, F>,
    config: ConfigView,
    slot: nat,
    id: Seq<u8>,
    method: u8,
    meta: Seq<u8>,
    body: Seq<u8>,
    before: Seq<u8>,
    after: Seq<u8>,
    on_ok: Option<u32>,
    on_err: Option<u32>,
    e: SlotBusError,
    any: u8,
)
    requires
        slot < region.num_slots,
        meta.len() <= region.arena_size(Side::Request),
        meta.len() <= 65535,
        body.len() <= 4294967295,
        slots::request_written(
            region,
            os,
            config,
            slot,
            id,
            method,
            meta,
            body,
            before,
            after,
            on_ok,
            on_err,
            Err(e),
        ),
    ensures
        ({
            ||| exists|n: &str, size: usize, again: bool| #[trigger]
                os.create.ensures((n, size, again), Err(e))
            ||| exists|m: &R, n: &str, d: &[u8]|
                d@ == body && #[trigger] os.fill.ensures((m, n, d), Err(e))
            ||| {
                &&& e matches SlotBusError::SharedMemory(message)
                &&& message@ == overflow::exhausted_text(
                    config.overflow_name_gen(Side::Request, slot, 254),
                    body.len(),
                )
                &&& any <= 254 ==> exists|n: &str, size: usize|
                    n@ == config.overflow_name_gen(Side::Request, slot, any)
                        && #[trigger] os.create.ensures((n, size, false), Ok(None))
            }
        }),
{
    overflow::failed_searches_met_a_refusal(os, config, Side::Request, slot, body, e, any);
}

/// Where a response within the limits could not be written, it was the system that
/// refused, and its error is passed on; or the name of any of the 255 generations was
/// found taken.
pub proof fn failed_responses_pass_the_refusal_on<
    R,
    C: Fn(&str, usize, bool) -> Result<Option<R>, SlotBusError>,
    Q: Fn(&str) -> bool,
    F: Fn(&R, &str, &[u8]) -> Result<(), SlotBusError>,
>(
    region: RegionView,
    os: Mapper<C, Q, F>,
    config: ConfigView,
    slot: nat,
    status: u16,
    meta: Seq<u8>,
    body: Seq<u8>,
    before: Seq<u8>,
    after: Seq<u8>,
    on_ok: Option<u32>,
    on_err: Option<u32>,
    e: SlotBusError,
    any: u8,
)
    requires
        slot < region.num_slots,
        meta.len() <= region.arena_size(Side::Response),
        meta.len() <= 65535,
        body.len() <= 4294967295,
        slots::response_written(
            region,
            os,
            config,
            slot,
            status,
            meta,
            body,
            before,
            after,
            on_ok,
            on_err,
            Err(e),
        ),
    ensures
        ({
            ||| exists|n: &str, size: usize, again: bool| #[trigger]
                os.create.ensures((n, size, again), Err(e))
            ||| exists|m: &R, n: &str, d: &[u8]|
                d@ == body && #[trigger] os.fill.ensures((m, n, d), Err(e))
            ||| {
                &&& e matches SlotBusError::SharedMemory(message)
                &&& message@ == overflow::exhausted_text(
                    config.overflow_name_gen(Side::Response, slot, 254),
                    body.len(),
                )
                &&& any <= 254 ==> exists|n: &str, size: usize|
                    n@ == config.overflow_name_gen(Side::Response, slot, any)
                        && #[trigger] os.create.ensures((n, size, false), Ok(None))
            }
        }),
{
    overflow::failed_searches_met_a_refusal(os, config, Side::Response, slot, body, e, any);
}

} // verus!
