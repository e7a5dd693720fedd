//! Shared memory layout: constants, the header and slot records, and the way
//! the inline heap is divided among the slots.

use vstd::prelude::*;

use crate::bytes;
use crate::config::Side;
use crate::text;

verus! {

// ---- Constants ---------------------------------------------------------------

/// Magic number identifying a slotbus control region ("SLB1").
pub const SHM_MAGIC: u32 = 0x534C4231;

/// Current protocol version.
pub const SHM_VERSION: u32 = 2;

/// Size of a slot record in bytes.
pub const SLOT_META_SIZE: usize = 128;

/// Size of the region header in bytes.
pub const SHM_HEADER_SIZE: usize = 64;

/// Slot status: available for a new request.
pub const SLOT_FREE: u32 = 0;

/// Slot status: hub has written a request, waiting for worker to claim.
pub const SLOT_READY: u32 = 1;

/// Slot status: worker has claimed the request, processing.
pub const SLOT_CLAIMED: u32 = 2;

/// Slot status: worker has written the response, waiting for hub to read.
pub const SLOT_DONE: u32 = 3;

/// Slot status: hub is writing request data into this slot.
pub const SLOT_WRITING: u32 = 4;

pub const METHOD_GET: u8 = 0;

pub const METHOD_POST: u8 = 1;

pub const METHOD_PUT: u8 = 2;

pub const METHOD_DELETE: u8 = 3;

pub const METHOD_PATCH: u8 = 4;

pub const METHOD_HEAD: u8 = 5;

pub const METHOD_OPTIONS: u8 = 6;

/// Overflow marker of a body that lies in the inline heap. Any other marker is
/// one more than the generation of the overflow region that holds the body.
pub const OVERFLOW_INLINE: u8 = 0;

/// The last generation that a marker can express.
pub const MAX_OVERFLOW_GENERATION: u8 = 254;

// ---- Methods -----------------------------------------------------------------

/// The byte that encodes an HTTP method. Methods without a code of their own
/// are encoded as GET.
pub open spec fn method_code(method: Seq<char>) -> u8 {
    if method == "POST"@ {
        METHOD_POST
    } else if method == "PUT"@ {
        METHOD_PUT
    } else if method == "DELETE"@ {
        METHOD_DELETE
    } else if method == "PATCH"@ {
        METHOD_PATCH
    } else if method == "HEAD"@ {
        METHOD_HEAD
    } else if method == "OPTIONS"@ {
        METHOD_OPTIONS
    } else {
        METHOD_GET
    }
}

/// The HTTP method that a byte encodes. Bytes without a meaning decode to GET.
pub open spec fn method_name(m: u8) -> Seq<char> {
    if m == METHOD_POST {
        "POST"@
    } else if m == METHOD_PUT {
        "PUT"@
    } else if m == METHOD_DELETE {
        "DELETE"@
    } else if m == METHOD_PATCH {
        "PATCH"@
    } else if m == METHOD_HEAD {
        "HEAD"@
    } else if m == METHOD_OPTIONS {
        "OPTIONS"@
    } else {
        "GET"@
    }
}

/// Encode an HTTP method string to a byte.
pub fn method_to_u8(method: &str) -> (r: u8)
    ensures
        r == method_code(method@),
{
    if text::same_text(method, "POST") {
        METHOD_POST
    } else if text::same_text(method, "PUT") {
        METHOD_PUT
    } else if text::same_text(method, "DELETE") {
        METHOD_DELETE
    } else if text::same_text(method, "PATCH") {
        METHOD_PATCH
    } else if text::same_text(method, "HEAD") {
        METHOD_HEAD
    } else if text::same_text(method, "OPTIONS") {
        METHOD_OPTIONS
    } else {
        METHOD_GET
    }
}

/// Decode a method byte to an HTTP method string.
pub fn u8_to_method(m: u8) -> (r: &'static str)
    ensures
        r@ == method_name(m),
{
    if m == METHOD_POST {
        "POST"
    } else if m == METHOD_PUT {
        "PUT"
    } else if m == METHOD_DELETE {
        "DELETE"
    } else if m == METHOD_PATCH {
        "PATCH"
    } else if m == METHOD_HEAD {
        "HEAD"
    } else if m == METHOD_OPTIONS {
        "OPTIONS"
    } else {
        "GET"
    }
}

/// Each of the seven method bytes survives decoding and encoding.
pub proof fn method_bytes_round_trip(m: u8)
    requires
        m <= METHOD_OPTIONS,
    ensures
        method_code(method_name(m)) == m,
{
    reveal_strlit("GET");
    reveal_strlit("POST");
    reveal_strlit("PUT");
    reveal_strlit("DELETE");
    reveal_strlit("PATCH");
    reveal_strlit("HEAD");
    reveal_strlit("OPTIONS");
    assert("GET"@.len() == 3 && "GET"@[0] == 'G');
    assert("PUT"@.len() == 3 && "PUT"@[0] == 'P');
    assert("POST"@.len() == 4 && "POST"@[0] == 'P');
    assert("HEAD"@.len() == 4 && "HEAD"@[0] == 'H');
    assert("PATCH"@.len() == 5);
    assert("DELETE"@.len() == 6);
    assert("OPTIONS"@.len() == 7);
}

/// Each of the seven method names survives encoding and decoding.
pub proof fn method_names_round_trip(method: Seq<char>)
    requires
        exists|m: u8| method == method_name(m),
    ensures
        method_name(method_code(method)) == method,
{
}

// ---- Layout ------------------------------------------------------------------

/// Where the inline heap of a region with `num_slots` slots starts.
pub open spec fn heap_start(num_slots: nat) -> nat {
    SHM_HEADER_SIZE as nat + num_slots * SLOT_META_SIZE as nat
}

/// How many bytes a region of `region_size` bytes leaves for the inline heap.
pub open spec fn heap_room(num_slots: nat, region_size: nat) -> nat {
    if region_size < heap_start(num_slots) {
        0
    } else {
        (region_size - heap_start(num_slots)) as nat
    }
}

/// Compute derived layout values from slot count and region size.
pub fn compute_layout(num_slots: usize, region_size: usize) -> (r: (usize, usize))
    requires
        heap_start(num_slots as nat) <= usize::MAX,
    ensures
        r.0 == heap_start(num_slots as nat),
        r.1 == heap_room(num_slots as nat, region_size as nat),
{
    let heap_offset: usize = SHM_HEADER_SIZE + num_slots * SLOT_META_SIZE;
    (heap_offset, region_size.saturating_sub(heap_offset))
}

/// `n` rounded up to a multiple of eight.
pub open spec fn aligned8(n: nat) -> nat {
    (n + 7) / 8 * 8
}

/// Round up to a multiple of eight.
pub fn align8(n: usize) -> (r: usize)
    requires
        n + 7 <= usize::MAX,
    ensures
        r == aligned8(n as nat),
{
    (n + 7) / 8 * 8
}

/// How many bytes of the inline heap each slot owns.
pub open spec fn arena_stride(num_slots: nat, heap_size: nat) -> nat {
    heap_size / num_slots / 8 * 8
}

/// How many of a slot's bytes are for requests.
pub open spec fn arena_half(num_slots: nat, heap_size: nat) -> nat {
    arena_stride(num_slots, heap_size) / 2 / 8 * 8
}

/// Heap-relative start of the bytes that one side of a slot owns.
#[verifier::opaque]
pub open spec fn arena_base(side: Side, slot: nat, num_slots: nat, heap_size: nat) -> nat {
    match side {
        Side::Request => slot * arena_stride(num_slots, heap_size),
        Side::Response => slot * arena_stride(num_slots, heap_size) + arena_half(
            num_slots,
            heap_size,
        ),
    }
}

/// How many bytes one side of a slot owns.
#[verifier::opaque]
pub open spec fn arena_size(side: Side, num_slots: nat, heap_size: nat) -> nat {
    match side {
        Side::Request => arena_half(num_slots, heap_size),
        Side::Response => (arena_stride(num_slots, heap_size) - arena_half(
            num_slots,
            heap_size,
        )) as nat,
    }
}

/// Every arena lies inside the heap, starts at a multiple of eight and is a
/// multiple of eight long.
pub proof fn arenas_lie_in_the_heap(side: Side, slot: nat, num_slots: nat, heap_size: nat)
    requires
        slot < num_slots,
    ensures
        arena_base(side, slot, num_slots, heap_size) + arena_size(side, num_slots, heap_size)
            <= heap_size,
        arena_base(side, slot, num_slots, heap_size) % 8 == 0,
        arena_size(side, num_slots, heap_size) % 8 == 0,
{
    reveal(arena_base);
    reveal(arena_size);
    let stride = arena_stride(num_slots, heap_size);
    assert(stride <= heap_size / num_slots);
    assert(num_slots * (heap_size / num_slots) <= heap_size) by (nonlinear_arith)
        requires
            num_slots > 0,
    ;
    assert(slot * stride + stride <= num_slots * (heap_size / num_slots)) by (nonlinear_arith)
        requires
            slot + 1 <= num_slots,
            0 <= stride <= heap_size / num_slots,
    ;
    let eighth = stride / 8;
    assert(slot * (eighth * 8) == (slot * eighth) * 8) by (nonlinear_arith);
}

/// The arenas of one slot end before those of any later slot begin, and a
/// slot's response arena begins exactly where its request arena ends.
pub proof fn arenas_are_disjoint(slot: nat, later: nat, num_slots: nat, heap_size: nat)
    requires
        slot < later < num_slots,
    ensures
        arena_base(Side::Response, slot, num_slots, heap_size) == arena_base(
            Side::Request,
            slot,
            num_slots,
            heap_size,
        ) + arena_size(Side::Request, num_slots, heap_size),
        arena_base(Side::Response, slot, num_slots, heap_size) + arena_size(
            Side::Response,
            num_slots,
            heap_size,
        ) <= arena_base(Side::Request, later, num_slots, heap_size),
{
    reveal(arena_base);
    reveal(arena_size);
    let stride = arena_stride(num_slots, heap_size);
    assert(slot * stride + stride <= later * stride) by (nonlinear_arith)
        requires
            slot + 1 <= later,
            0 <= stride,
    ;
}

/// The arenas follow one another without a gap, from the start of the heap.
pub proof fn arenas_leave_no_gap(slot: nat, num_slots: nat, heap_size: nat)
    requires
        slot + 1 < num_slots,
    ensures
        arena_base(Side::Request, 0, num_slots, heap_size) == 0,
        arena_base(Side::Response, slot, num_slots, heap_size) + arena_size(
            Side::Response,
            num_slots,
            heap_size,
        ) == arena_base(Side::Request, slot + 1, num_slots, heap_size),
{
    reveal(arena_base);
    reveal(arena_size);
    let stride = arena_stride(num_slots, heap_size);
    assert((slot + 1) * stride == slot * stride + stride) by (nonlinear_arith);
    assert(0 * stride == 0);
}

/// Heap-relative `(offset, len)` of a slot's request and response arenas, as
/// `(request, response)`.
pub fn slot_arenas(slot_index: usize, num_slots: usize, heap_size: usize) -> (r: (
    (usize, usize),
    (usize, usize),
))
    requires
        slot_index < num_slots,
    ensures
        r.0.0 == arena_base(
            Side::Request,
            slot_index as nat,
            num_slots as nat,
            heap_size as nat,
        ),
        r.0.1 == arena_size(Side::Request, num_slots as nat, heap_size as nat),
        r.1.0 == arena_base(
            Side::Response,
            slot_index as nat,
            num_slots as nat,
            heap_size as nat,
        ),
        r.1.1 == arena_size(Side::Response, num_slots as nat, heap_size as nat),
{
    let stride: usize = heap_size / num_slots / 8 * 8;
    let half: usize = stride / 2 / 8 * 8;
    proof {
        reveal(arena_base);
        reveal(arena_size);
        arenas_lie_in_the_heap(
            Side::Response,
            slot_index as nat,
            num_slots as nat,
            heap_size as nat,
        );
    }
    let base: usize = slot_index * stride;
    ((base, half), (base + half, stride - half))
}

/// The generation that a marker stands for, or `None` for an inline body.
pub open spec fn marker_generation(marker: u8) -> Option<u8> {
    if marker == OVERFLOW_INLINE {
        None
    } else {
        Some((marker - 1) as u8)
    }
}

/// The generation that a marker stands for, or `None` for an inline body.
pub fn overflow_generation(marker: u8) -> (r: Option<u8>)
    ensures
        r == marker_generation(marker),
{
    if marker == OVERFLOW_INLINE {
        None
    } else {
        Some(marker - 1)
    }
}

/// Every generation has a marker, and the marker tells it again.
pub proof fn markers_round_trip(generation: u8)
    requires
        generation <= MAX_OVERFLOW_GENERATION,
    ensures
        marker_generation((generation + 1) as u8) == Some(generation),
{
}

// ---- Records in shared memory ------------------------------------------------

/// Header at byte offset 0 of the control region (64 bytes): six little-endian
/// integers of four bytes each, the rest reserved.
#[derive(Clone, Copy, Debug)]
pub struct ShmHeader {
    /// Magic number: `0x534C4231` ("SLB1").
    pub magic: u32,
    /// Protocol version.
    pub version: u32,
    /// Number of slots in this region.
    pub num_slots: u32,
    /// Byte offset of the inline heap from region start.
    pub heap_offset: u32,
    /// Size of the inline heap in bytes.
    pub heap_size: u32,
    /// Bump allocator head.
    pub alloc_head: u32,
}

/// The header that `mem` starts with.
pub open spec fn header_at(mem: Seq<u8>) -> ShmHeader {
    ShmHeader {
        magic: bytes::u32_at(mem, 0),
        version: bytes::u32_at(mem, 4),
        num_slots: bytes::u32_at(mem, 8),
        heap_offset: bytes::u32_at(mem, 12),
        heap_size: bytes::u32_at(mem, 16),
        alloc_head: bytes::u32_at(mem, 20),
    }
}

/// Per-slot metadata (128 bytes each). `num_slots` of these follow the header.
///
/// Layout:
///   `[0..44]`   common fields (status, req_id, method)
///   `[44..64]`  request metadata + body pointers
///   `[64..88]`  response metadata + body pointers
///   `[88..128]` reserved
#[derive(Clone, Copy, Debug)]
pub struct SlotMeta {
    /// Status: Free(0) → Writing(4) → Ready(1) → Claimed(2) → Done(3) → Free(0).
    pub status: u32,
    /// Request ID (UUID string, up to 36 bytes, null-padded).
    pub req_id: [u8; 36],
    /// HTTP method as a single byte.
    pub method: u8,
    /// Heap offset of serialized `RequestMeta`.
    pub meta_offset: u32,
    /// Length of serialized `RequestMeta`.
    pub meta_len: u16,
    /// Heap offset of request body (0 when using overflow).
    pub body_offset: u32,
    /// Length of request body.
    pub body_len: u32,
    /// Overflow marker of the request body.
    pub body_overflow: u8,
    /// HTTP status code of the response.
    pub resp_status: u16,
    /// Heap offset of serialized `ResponseMeta`.
    pub resp_meta_offset: u32,
    /// Length of serialized `ResponseMeta`.
    pub resp_meta_len: u16,
    /// Heap offset of response body (0 when using overflow).
    pub resp_body_offset: u32,
    /// Length of response body.
    pub resp_body_len: u32,
    /// Overflow marker of the response body.
    pub resp_body_overflow: u8,
}

/// Where one side's payload lies, as its slot records it.
pub struct PayloadView {
    pub meta_offset: u32,
    pub meta_len: u16,
    pub body_offset: u32,
    pub body_len: u32,
    pub marker: u8,
}

/// A [`SlotMeta`] as a mathematical value.
pub struct SlotView {
    pub status: u32,
    pub req_id: Seq<u8>,
    pub method: u8,
    pub request: PayloadView,
    pub resp_status: u16,
    pub response: PayloadView,
}

impl View for SlotMeta {
    type V = SlotView;

    open spec fn view(&self) -> SlotView {
        SlotView {
            status: self.status,
            req_id: self.req_id@,
            method: self.method,
            request: PayloadView {
                meta_offset: self.meta_offset,
                meta_len: self.meta_len,
                body_offset: self.body_offset,
                body_len: self.body_len,
                marker: self.body_overflow,
            },
            resp_status: self.resp_status,
            response: PayloadView {
                meta_offset: self.resp_meta_offset,
                meta_len: self.resp_meta_len,
                body_offset: self.resp_body_offset,
                body_len: self.resp_body_len,
                marker: self.resp_body_overflow,
            },
        }
    }
}

/// Where the record of a slot starts.
pub open spec fn record_at(slot: nat) -> int {
    SHM_HEADER_SIZE + slot * SLOT_META_SIZE
}

/// Where in a record the fields of one side's payload start.
pub open spec fn payload_field(side: Side) -> int {
    match side {
        Side::Request => 44,
        Side::Response => 68,
    }
}

/// The payload fields that start at `at`.
pub open spec fn payload_at(mem: Seq<u8>, at: int) -> PayloadView {
    PayloadView {
        meta_offset: bytes::u32_at(mem, at),
        meta_len: bytes::u16_at(mem, at + 4),
        body_offset: bytes::u32_at(mem, at + 8),
        body_len: bytes::u32_at(mem, at + 12),
        marker: mem[at + 16],
    }
}

/// The payload fields of one side of a slot.
pub open spec fn slot_payload(mem: Seq<u8>, side: Side, slot: nat) -> PayloadView {
    payload_at(mem, record_at(slot) + payload_field(side))
}

/// The status of a slot.
pub open spec fn slot_status(mem: Seq<u8>, slot: nat) -> u32 {
    bytes::u32_at(mem, record_at(slot))
}

/// The record of a slot.
pub open spec fn slot_at(mem: Seq<u8>, slot: nat) -> SlotView {
    let at = record_at(slot);
    SlotView {
        status: slot_status(mem, slot),
        req_id: mem.subrange(at + 4, at + 40),
        method: mem[at + 40],
        request: slot_payload(mem, Side::Request, slot),
        resp_status: bytes::u16_at(mem, at + 64),
        response: slot_payload(mem, Side::Response, slot),
    }
}

// ---- Serialized metadata -----------------------------------------------------

/// Pairs of texts as pairs of character sequences.
pub open spec fn pairs(v: Seq<(String, String)>) -> Seq<(Seq<char>, Seq<char>)> {
    v.map_values(|p: (String, String)| (p.0@, p.1@))
}

/// An optional text as an optional character sequence.
pub open spec fn optional(v: Option<String>) -> Option<Seq<char>> {
    match v {
        Some(s) => Some(s@),
        None => None,
    }
}

/// A copy of pairs of texts.
pub fn clone_pairs(v: &Vec<(String, String)>) -> (r: Vec<(String, String)>)
    ensures
        pairs(r@) == pairs(v@),
{
    let mut r: Vec<(String, String)> = Vec::new();
    let mut i: usize = 0;
    while i < v.len()
        invariant
            i <= v@.len(),
            pairs(r@) == pairs(v@.take(i as int)),
        decreases v@.len() - i,
    {
        r.push((v[i].0.clone(), v[i].1.clone()));
        i = i + 1;
        assert(pairs(r@) =~= pairs(v@.take(i - 1)).push((v@[i - 1].0@, v@[i - 1].1@)));
        assert(pairs(v@.take(i as int)) =~= pairs(v@.take(i - 1)).push(
            (v@[i - 1].0@, v@[i - 1].1@),
        ));
    }
    assert(v@.take(v@.len() as int) =~= v@);
    r
}

/// Serialized into the inline heap alongside each request.
#[derive(Debug)]
pub struct RequestMeta {
    /// The request path (e.g. `/session/abc123`).
    pub path: String,
    /// The matched route pattern (e.g. `/session/:id`).
    pub route_pattern: String,
    /// Extracted path parameters.
    pub path_params: Vec<(String, String)>,
    /// Raw query string (without the leading `?`).
    pub query: Option<String>,
    /// Request headers as key-value pairs.
    pub headers: Vec<(String, String)>,
}

impl Clone for RequestMeta {
    fn clone(&self) -> (r: Self)
        ensures
            r@ == self@,
    {
        RequestMeta {
            path: self.path.clone(),
            route_pattern: self.route_pattern.clone(),
            path_params: clone_pairs(&self.path_params),
            query: match &self.query {
                Some(q) => Some(q.clone()),
                None => None,
            },
            headers: clone_pairs(&self.headers),
        }
    }
}

/// A [`RequestMeta`] as a mathematical value.
pub struct RequestMetaView {
    pub path: Seq<char>,
    pub route_pattern: Seq<char>,
    pub path_params: Seq<(Seq<char>, Seq<char>)>,
    pub query: Option<Seq<char>>,
    pub headers: Seq<(Seq<char>, Seq<char>)>,
}

impl View for RequestMeta {
    type V = RequestMetaView;

    open spec fn view(&self) -> RequestMetaView {
        RequestMetaView {
            path: self.path@,
            route_pattern: self.route_pattern@,
            path_params: pairs(self.path_params@),
            query: optional(self.query),
            headers: pairs(self.headers@),
        }
    }
}

/// Serialized into the inline heap alongside each response.
#[derive(Debug)]
pub struct ResponseMeta {
    /// Content-Type of the response body.
    pub content_type: String,
    /// Response headers as key-value pairs.
    pub headers: Vec<(String, String)>,
}

impl Clone for ResponseMeta {
    fn clone(&self) -> (r: Self)
        ensures
            r@ == self@,
    {
        ResponseMeta {
            content_type: self.content_type.clone(),
            headers: clone_pairs(&self.headers),
        }
    }
}

/// A [`ResponseMeta`] as a mathematical value.
pub struct ResponseMetaView {
    pub content_type: Seq<char>,
    pub headers: Seq<(Seq<char>, Seq<char>)>,
}

impl View for ResponseMeta {
    type V = ResponseMetaView;

    open spec fn view(&self) -> ResponseMetaView {
        ResponseMetaView { content_type: self.content_type@, headers: pairs(self.headers@) }
    }
}

// ---- In numbers --------------------------------------------------------------

/// A region is a header of 64 bytes, a record of 128 bytes for every slot, and
/// whatever is left as the heap.
pub proof fn regions_are_header_records_heap(num_slots: nat, region_size: nat)
    ensures
        heap_start(num_slots) == 64 + 128 * num_slots,
        region_size >= 64 + 128 * num_slots ==> heap_start(num_slots) + heap_room(
            num_slots,
            region_size,
        ) == region_size,
        region_size < 64 + 128 * num_slots ==> heap_room(num_slots, region_size) == 0,
{
}

/// Rounding up to eight gives the next multiple of eight.
pub proof fn rounding_gives_the_next_multiple(n: nat)
    ensures
        aligned8(n) % 8 == 0,
        n <= aligned8(n) < n + 8,
{
}

/// All slots own equally much of the heap, all but less than eight bytes a slot
/// of it, and a slot's request and response arenas are halves of what it owns,
/// as nearly as multiples of eight can be. The arenas stand one behind the other.
pub proof fn arenas_share_the_heap(slot: nat, num_slots: nat, heap_size: nat)
    requires
        num_slots > 0,
    ensures
        ({
            let request = arena_size(Side::Request, num_slots, heap_size);
            let response = arena_size(Side::Response, num_slots, heap_size);
            &&& num_slots * (request + response) <= heap_size < num_slots * (request + response + 8)
            &&& request <= response <= request + 8
            &&& request % 8 == 0
            &&& response % 8 == 0
            &&& arena_base(Side::Request, slot, num_slots, heap_size) == slot * (request + response)
            &&& arena_base(Side::Response, slot, num_slots, heap_size) == slot * (request
                + response) + request
        }),
{
    reveal(arena_base);
    reveal(arena_size);
    let share = heap_size / num_slots;
    let stride = arena_stride(num_slots, heap_size);
    assert(num_slots * share <= heap_size < num_slots * (share + 1)) by (nonlinear_arith)
        requires
            num_slots > 0,
            share == heap_size / num_slots,
    ;
    assert(stride <= share < stride + 8);
    assert(num_slots * stride <= num_slots * share) by (nonlinear_arith)
        requires
            stride <= share,
    ;
    assert(num_slots * (share + 1) <= num_slots * (stride + 8)) by (nonlinear_arith)
        requires
            share + 1 <= stride + 8,
    ;
}

/// Marker zero says that a body is inline; any other is one more than the
/// generation of its overflow region.
pub proof fn markers_are_one_more_than_generations(marker: u8)
    ensures
        marker == 0 ==> marker_generation(marker) is None,
        marker > 0 ==> marker_generation(marker) == Some((marker - 1) as u8),
{
}

/// The codes of the seven methods. Every other text is coded like GET, and every
/// other code means GET.
pub proof fn methods_have_their_codes(method: Seq<char>, code: u8)
    ensures
        method == "GET"@ ==> method_code(method) == 0,
        method == "POST"@ ==> method_code(method) == 1,
        method == "PUT"@ ==> method_code(method) == 2,
        method == "DELETE"@ ==> method_code(method) == 3,
        method == "PATCH"@ ==> method_code(method) == 4,
        method == "HEAD"@ ==> method_code(method) == 5,
        method == "OPTIONS"@ ==> method_code(method) == 6,
        method_code(method) <= 6,
        method_code(method) == 0 || method_name(method_code(method)) == method,
        code == 0 || code > 6 ==> method_name(code) == "GET"@,
        code == 1 ==> method_name(code) == "POST"@,
        code == 2 ==> method_name(code) == "PUT"@,
        code == 3 ==> method_name(code) == "DELETE"@,
        code == 4 ==> method_name(code) == "PATCH"@,
        code == 5 ==> method_name(code) == "HEAD"@,
        code == 6 ==> method_name(code) == "OPTIONS"@,
{
    method_bytes_round_trip(0);
    method_bytes_round_trip(1);
    method_bytes_round_trip(2);
    method_bytes_round_trip(3);
    method_bytes_round_trip(4);
    method_bytes_round_trip(5);
    method_bytes_round_trip(6);
}

/// The fields of the header: six integers of four bytes, from the first byte of
/// the region on.
pub proof fn headers_have_their_fields(mem: Seq<u8>)
    ensures
        header_at(mem).magic == mem[0] + 256 * mem[1] + 65536 * mem[2] + 16777216 * mem[3],
        header_at(mem).version == mem[4] + 256 * mem[5] + 65536 * mem[6] + 16777216 * mem[7],
        header_at(mem).num_slots == mem[8] + 256 * mem[9] + 65536 * mem[10] + 16777216 * mem[11],
        header_at(mem).heap_offset == mem[12] + 256 * mem[13] + 65536 * mem[14] + 16777216
            * mem[15],
        header_at(mem).heap_size == mem[16] + 256 * mem[17] + 65536 * mem[18] + 16777216 * mem[19],
        header_at(mem).alloc_head == mem[20] + 256 * mem[21] + 65536 * mem[22] + 16777216
            * mem[23],
{
}

/// The fields of a slot's record, which has 128 bytes and stands behind the
/// header and the records of the slots before it.
pub proof fn records_have_their_fields(mem: Seq<u8>, slot: nat)
    requires
        64 + 128 * slot + 128 <= mem.len(),
    ensures
        ({
            let at: int = 64 + 128 * slot as int;
            let s = slot_at(mem, slot);
            &&& slot_status(mem, slot) == s.status
            &&& s.status == bytes::u32_at(mem, at)
            &&& s.req_id == mem.subrange(at + 4, at + 40)
            &&& s.method == mem[at + 40]
            &&& s.request.meta_offset == bytes::u32_at(mem, at + 44)
            &&& s.request.meta_len == bytes::u16_at(mem, at + 48)
            &&& s.request.body_offset == bytes::u32_at(mem, at + 52)
            &&& s.request.body_len == bytes::u32_at(mem, at + 56)
            &&& s.request.marker == mem[at + 60]
            &&& s.resp_status == bytes::u16_at(mem, at + 64)
            &&& s.response.meta_offset == bytes::u32_at(mem, at + 68)
            &&& s.response.meta_len == bytes::u16_at(mem, at + 72)
            &&& s.response.body_offset == bytes::u32_at(mem, at + 76)
            &&& s.response.body_len == bytes::u32_at(mem, at + 80)
            &&& s.response.marker == mem[at + 84]
            &&& slot_payload(mem, Side::Request, slot) == s.request
            &&& slot_payload(mem, Side::Response, slot) == s.response
        }),
{
}

/// Pairs of texts keep their number, their order and their characters, and an
/// optional text is there or not there.
pub proof fn texts_are_their_characters(v: Seq<(String, String)>, o: Option<String>)
    ensures
        pairs(v).len() == v.len(),
        forall|i: int|
            0 <= i < v.len() ==> (#[trigger] pairs(v)[i]).0 == v[i].0@ && pairs(v)[i].1 == v[i].1@,
        o is None <==> optional(o) is None,
        o is Some ==> optional(o) == Some(o->Some_0@),
{
}

/// Metadata stands for its fields, each for itself.
pub proof fn metadata_is_its_fields(request: RequestMeta, response: ResponseMeta)
    ensures
        request@.path == request.path@,
        request@.route_pattern == request.route_pattern@,
        request@.path_params == pairs(request.path_params@),
        request@.query == optional(request.query),
        request@.headers == pairs(request.headers@),
        response@.content_type == response.content_type@,
        response@.headers == pairs(response.headers@),
{
}

} // verus!
