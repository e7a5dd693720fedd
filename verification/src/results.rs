//! What the functions of this crate come to, in numbers, positions and fields.
//!
//! Each law here takes the arguments of one function, or of two, and what the
//! function may return for them, and says what that is.

use vstd::prelude::*;
use vstd::utf8::*;

use crate::backing;
use crate::bytes;
use crate::codec;
use crate::config;
use crate::config::{Side, SlotBusConfig, SlotBusConfigBuilder};
use crate::error::{ErrorView, SlotBusError};
use crate::events;
use crate::events::{EventCall, Poll, Timespec};
use crate::hub;
use crate::hub::{
    HealthResponse, HubConfig, HubEvent, HubState, Outcome, Plan, RegisterRequest, RegisterResponse,
    Reply, WorkerEvent,
};
use crate::laws;
use crate::overflow;
use crate::overflow::Mapper;
use crate::region;
use crate::region::{Attempt, ShmRegion};
use crate::routes;
use crate::slots;
use crate::table::Table;
use crate::text;
use crate::transport;
use crate::transport::{Delivery, SlotBus};
use crate::types;
use crate::types::{RequestMeta, ResponseMeta, ResponseMetaView, ShmHeader, SlotMeta};
use crate::worker::{Received, SlotWorker};

verus! {

// ---- Bytes -------------------------------------------------------------------

/// Bytes are written where they belong, and every other byte stays.
pub proof fn put_bytes_reaches_its_bytes(mem: &mut [u8], at: usize, data: &[u8])
    requires
        at + data@.len() <= old(mem)@.len(),
        call_ensures(bytes::put_bytes, (mem, at, data), ()),
    ensures
        final(mem)@.len() == old(mem)@.len(),
        forall|i: int| 0 <= i < data@.len() ==> final(mem)@[at + i] == #[trigger] data@[i],
        forall|i: int|
            0 <= i < old(mem)@.len() && !(at <= i < at + data@.len()) ==> #[trigger] final(mem)@[i]
                == old(mem)@[i],
{
}

/// Zeros are written where they belong, and every other byte stays.
pub proof fn put_zeros_reaches_its_bytes(mem: &mut [u8], at: usize, count: usize)
    requires
        at + count <= old(mem)@.len(),
        call_ensures(bytes::put_zeros, (mem, at, count), ()),
    ensures
        final(mem)@.len() == old(mem)@.len(),
        forall|i: int|
            0 <= i < old(mem)@.len() ==> #[trigger] final(mem)@[i] == (if at <= i < at + count {
                0
            } else {
                old(mem)@[i]
            }),
{
}

/// A byte is written where it belongs, and every other byte stays.
pub proof fn put_u8_reaches_its_byte(mem: &mut [u8], at: usize, x: u8)
    requires
        at < old(mem)@.len(),
        call_ensures(bytes::put_u8, (mem, at, x), ()),
    ensures
        final(mem)@ == old(mem)@.update(at as int, x),
{
    assert(bytes::put(old(mem)@, at as int, seq![x]) =~= old(mem)@.update(at as int, x));
}

/// An integer of two bytes is written low byte first, and read back.
pub proof fn two_byte_integers_are_little_endian(mem: &mut [u8], at: usize, x: u16)
    requires
        at + 2 <= old(mem)@.len(),
        call_ensures(bytes::put_u16, (mem, at, x), ()),
    ensures
        final(mem)@.len() == old(mem)@.len(),
        x == final(mem)@[at as int] + 256 * final(mem)@[at + 1],
        forall|i: int|
            0 <= i < old(mem)@.len() && !(at <= i < at + 2) ==> #[trigger] final(mem)@[i]
                == old(mem)@[i],
{
    bytes::lemma_u16_written(old(mem)@, at as int, x);
}

/// An integer of four bytes is written low byte first, and read back.
pub proof fn four_byte_integers_are_little_endian(mem: &mut [u8], at: usize, x: u32)
    requires
        at + 4 <= old(mem)@.len(),
        call_ensures(bytes::put_u32, (mem, at, x), ()),
    ensures
        final(mem)@.len() == old(mem)@.len(),
        x == final(mem)@[at as int] + 256 * final(mem)@[at + 1] + 65536 * final(mem)@[at + 2]
            + 16777216 * final(mem)@[at + 3],
        forall|i: int|
            0 <= i < old(mem)@.len() && !(at <= i < at + 4) ==> #[trigger] final(mem)@[i]
                == old(mem)@[i],
{
    bytes::lemma_u32_written(old(mem)@, at as int, x);
}

/// Integers are read low byte first.
pub proof fn integers_are_read_low_byte_first(mem: &[u8], at: usize, x: u16, y: u32)
    ensures
        call_ensures(bytes::get_u16, (mem, at), x) ==> x == mem@[at as int] + 256 * mem@[at + 1],
        call_ensures(bytes::get_u32, (mem, at), y) ==> y == mem@[at as int] + 256 * mem@[at + 1]
            + 65536 * mem@[at + 2] + 16777216 * mem@[at + 3],
{
}

/// Offsets keep their low 32 bits.
pub proof fn offsets_keep_their_low_bits(x: usize, r: u32)
    requires
        call_ensures(bytes::to_low32, (x,), r),
    ensures
        r == x as nat % 4294967296,
{
    bytes::four_bytes_keep_the_low_bits(x as nat);
}

// ---- Methods and layout ------------------------------------------------------

/// Of a method's byte the method comes back, where it is one of the seven; any
/// other text comes back as GET.
pub proof fn methods_come_back(method: &str, code: u8, back: &'static str)
    requires
        call_ensures(types::method_to_u8, (method,), code),
        call_ensures(types::u8_to_method, (code,), back),
    ensures
        code <= 6,
        method@ == "GET"@ ==> code == 0,
        method@ == "POST"@ ==> code == 1,
        method@ == "PUT"@ ==> code == 2,
        method@ == "DELETE"@ ==> code == 3,
        method@ == "PATCH"@ ==> code == 4,
        method@ == "HEAD"@ ==> code == 5,
        method@ == "OPTIONS"@ ==> code == 6,
        code == 0 ==> back@ == "GET"@,
        code > 0 ==> back@ == method@,
{
    types::methods_have_their_codes(method@, code);
}

/// The heap starts behind the header and the records and takes what is left.
pub proof fn layouts_are_computed_from_the_sizes(
    num_slots: usize,
    region_size: usize,
    r: (usize, usize),
)
    requires
        call_ensures(types::compute_layout, (num_slots, region_size), r),
    ensures
        r.0 == 64 + 128 * num_slots,
        region_size >= 64 + 128 * num_slots ==> r.1 == region_size - (64 + 128 * num_slots),
        region_size < 64 + 128 * num_slots ==> r.1 == 0,
{
}

/// Rounding up gives the least multiple of eight that is not smaller.
pub proof fn rounding_up_gives_a_multiple_of_eight(n: usize, r: usize)
    requires
        call_ensures(types::align8, (n,), r),
    ensures
        r % 8 == 0,
        n <= r < n + 8,
{
}

/// A slot's arenas, in numbers.
pub proof fn arenas_in_numbers(
    slot: usize,
    num_slots: usize,
    heap_size: usize,
    r: ((usize, usize), (usize, usize)),
)
    requires
        slot < num_slots,
        call_ensures(types::slot_arenas, (slot, num_slots, heap_size), r),
    ensures
        ({
            let stride = heap_size as int / num_slots as int / 8 * 8;
            &&& r.0.0 == slot * stride
            &&& r.0.1 == stride / 2 / 8 * 8
            &&& r.1.0 == r.0.0 + r.0.1
            &&& r.1.1 == stride - r.0.1
        }),
{
    reveal(types::arena_base);
    reveal(types::arena_size);
}

/// A marker is one more than its generation, and zero for inline bodies.
pub proof fn markers_stand_for_generations(marker: u8, r: Option<u8>)
    requires
        call_ensures(types::overflow_generation, (marker,), r),
    ensures
        marker == 0 <==> r is None,
        r matches Some(generation) ==> generation + 1 == marker,
{
}

/// Cloned pairs are the same pairs.
pub proof fn cloned_pairs_are_the_same(v: &Vec<(String, String)>, r: Vec<(String, String)>)
    requires
        call_ensures(types::clone_pairs, (v,), r),
    ensures
        r@.len() == v@.len(),
        forall|i: int|
            0 <= i < v@.len() ==> (#[trigger] r@[i]).0@ == v@[i].0@ && r@[i].1@ == v@[i].1@,
{
    types::texts_are_their_characters(v@, None);
    types::texts_are_their_characters(r@, None);
    assert forall|i: int| 0 <= i < v@.len() implies (#[trigger] r@[i]).0@ == v@[i].0@ && r@[i].1@
        == v@[i].1@ by {
        assert(types::pairs(r@)[i] == types::pairs(v@)[i]);
    }
}

// ---- Text --------------------------------------------------------------------

/// Numbers are appended by their digits, without leading zeros.
pub proof fn decimals_are_appended(s: &mut String, n: u64)
    requires
        call_ensures(text::push_decimal, (s, n), ()),
    ensures
        old(s)@.is_prefix_of(final(s)@),
        ({
            let digits = final(s)@.skip(old(s)@.len() as int);
            &&& text::decimal_value(digits) == n
            &&& digits.len() > 0
            &&& digits[0] == '0' ==> digits.len() == 1
            &&& forall|i: int| 0 <= i < digits.len() ==> '0' <= #[trigger] digits[i] <= '9'
        }),
{
    text::decimals_have_their_value(n as nat);
    assert(final(s)@.skip(old(s)@.len() as int) =~= text::decimal(n as nat));
}

/// Sizes are appended like other numbers.
pub proof fn sizes_are_appended(s: &mut String, n: usize)
    requires
        call_ensures(text::push_usize, (s, n), ()),
    ensures
        old(s)@.is_prefix_of(final(s)@),
        text::decimal_value(final(s)@.skip(old(s)@.len() as int)) == n,
        final(s)@.skip(old(s)@.len() as int) == text::decimal(n as nat),
{
    text::decimals_have_their_value(n as nat);
    assert(final(s)@.skip(old(s)@.len() as int) =~= text::decimal(n as nat));
}

/// Hexadecimal numbers are appended by eight digits.
pub proof fn hexadecimals_are_appended(s: &mut String, n: u32)
    requires
        call_ensures(text::push_hex8, (s, n), ()),
    ensures
        old(s)@.is_prefix_of(final(s)@),
        ({
            let h = final(s)@.skip(old(s)@.len() as int);
            &&& h.len() == 8
            &&& n == text::hex_value(h[0]) * 268435456 + text::hex_value(h[1]) * 16777216
                + text::hex_value(h[2]) * 1048576 + text::hex_value(h[3]) * 65536
                + text::hex_value(h[4]) * 4096 + text::hex_value(h[5]) * 256 + text::hex_value(h[6])
                * 16 + text::hex_value(h[7])
        }),
{
    text::hexadecimals_have_their_value(n);
    assert(final(s)@.skip(old(s)@.len() as int) =~= text::hex8(n));
}

/// Texts are the same where their characters are, and their characters are
/// theirs.
pub proof fn texts_are_compared_by_character(
    a: &str,
    b: &str,
    same: bool,
    chars: Vec<char>,
    from: usize,
    to: usize,
    part: String,
)
    ensures
        call_ensures(text::same_text, (a, b), same) ==> (same <==> a@.len() == b@.len() && forall|
            i: int,
        |
            0 <= i < a@.len() ==> #[trigger] a@[i] == b@[i]),
        call_ensures(text::chars_of, (a,), chars) ==> chars@ == a@,
        from <= to <= chars@.len() && call_ensures(text::text_of, (&chars, from, to), part)
            ==> part@.len() == to - from && forall|i: int|
            0 <= i < to - from ==> #[trigger] part@[i] == chars@[from + i],
{
    if a@.len() == b@.len() && forall|i: int| 0 <= i < a@.len() ==> #[trigger] a@[i] == b@[i] {
        assert(a@ =~= b@);
    }
}

// ---- Errors and events -------------------------------------------------------

/// The message of an error names its kind and what it holds.
pub proof fn messages_say_what_happened(e: &SlotBusError, r: String)
    requires
        call_ensures(SlotBusError::message, (e,), r),
    ensures
        match *e {
            SlotBusError::SharedMemory(m) => r@ == "shared memory error: "@ + m@,
            SlotBusError::Event(m) => r@ == "event error: "@ + m@,
            SlotBusError::InvalidRegion(m) => r@ == "invalid control region: "@ + m@,
            SlotBusError::NoFreeSlots(n) => r@ == "no free slots available (all "@ + text::decimal(
                n as nat,
            ) + " slots in use)"@,
            SlotBusError::Serialization(m) => r@ == "serialization error: "@ + m@,
            SlotBusError::Timeout(ms) => r@ == "request timed out after "@ + text::decimal(
                ms as nat,
            ) + "ms"@,
            SlotBusError::BadSlotState { expected, found } => r@
                == "unexpected slot state: expected "@ + text::decimal(expected as nat)
                + ", found "@ + text::decimal(found as nat),
            SlotBusError::CasFailed { slot, expected, found } => r@ == "CAS failed on slot "@
                + text::decimal(slot as nat) + ": expected "@ + text::decimal(expected as nat)
                + ", found "@ + text::decimal(found as nat),
            SlotBusError::ReceiveLoopStopped => r@ == "receive loop stopped"@,
        },
{
    crate::error::errors_say_what_happened(*e);
}

/// A semaphore's name is the name behind a slash. It is refused where its encoding
/// holds a zero byte, and the error tells the first position of one.
pub proof fn semaphore_names_hold_no_zero(name: &str, r: Result<String, SlotBusError>)
    requires
        call_ensures(events::semaphore_name, (name,), r),
    ensures
        match r {
            Ok(s) => s@ == "/"@ + name@ && !encode_utf8("/"@ + name@).contains(0),
            Err(e) => exists|k: nat|
                {
                    &&& k < encode_utf8("/"@ + name@).len()
                    &&& encode_utf8("/"@ + name@)[k as int] == 0
                    &&& !encode_utf8("/"@ + name@).take(k as int).contains(0)
                    &&& e@ == ErrorView::Event(
                        "invalid name: nul byte found in provided data at position: "@
                            + #[trigger] text::decimal(k),
                    )
                },
        },
{
    let data = encode_utf8("/"@ + name@);
    events::the_first_nul_is_the_first(data);
    if let Some(k) = events::first_nul(data) {
        assert(!data.take(k as int).contains(0)) by {
            if data.take(k as int).contains(0) {
                let i = choose|i: int| 0 <= i < k && data.take(k as int)[i] == 0;
                assert(data[i] != 0);
            }
        }
        assert(text::decimal(k) == text::decimal(k));
    } else if data.contains(0) {
        let i = choose|i: int| 0 <= i < data.len() && data[i] == 0;
        assert(data[i] != 0);
    }
}

/// A failed call is named in its error.
pub proof fn failed_calls_are_named(call: EventCall, name: &str, r: SlotBusError)
    requires
        call_ensures(EventCall::failed, (call, name), r),
    ensures
        r@ == ErrorView::Event(
            (match call {
                EventCall::SemaphoreCreate => "sem_open(create)"@,
                EventCall::SemaphoreOpen => "sem_open(open)"@,
                EventCall::WindowsCreate => "CreateEventW"@,
                EventCall::WindowsOpen => "OpenEventW"@,
            }) + " failed for '"@ + name@ + "'"@,
        ),
{
}

/// A deadline lies as many milliseconds ahead as were asked for, to the
/// nanosecond, and its nanoseconds stay below a second.
pub proof fn deadlines_lie_ahead(now: Timespec, ms: u32, r: Timespec)
    requires
        now.wf(),
        call_ensures(events::deadline, (now, ms), r),
    ensures
        0 <= r.tv_nsec < 1000000000,
        r.tv_sec * 1000000000 + r.tv_nsec == now.tv_sec * 1000000000 + now.tv_nsec + ms * 1000000,
{
}

/// A poll ends where the event was signaled or its time is up.
pub proof fn polls_end_in_time(signaled: bool, now_ms: u64, deadline_ms: u64, r: Poll)
    requires
        call_ensures(events::poll_step, (signaled, now_ms, deadline_ms), r),
    ensures
        r is Signaled <==> signaled,
        r is TimedOut <==> !signaled && now_ms >= deadline_ms,
        r is Wait <==> !signaled && now_ms < deadline_ms,
{
}

// ---- Names -------------------------------------------------------------------

/// A name is plain where it can stand for a file: not empty, not one of the two
/// dots, without slashes and without a drive.
pub proof fn plain_names_are_file_names(name: &str, r: bool)
    requires
        call_ensures(backing::is_plain_name, (name,), r),
    ensures
        r <==> {
            &&& name@.len() > 0
            &&& name@ != "."@
            &&& name@ != ".."@
            &&& !name@.contains('/')
            &&& !name@.contains('\\')
            &&& name@.len() < 2 || name@[1] != ':' || !('a' <= name@[0] <= 'z' || 'A' <= name@[0]
                <= 'Z')
        },
{
    if r {
        if name@.contains('/') {
            let i = choose|i: int| 0 <= i < name@.len() && name@[i] == '/';
            assert(name@[i] != '/');
        }
        if name@.contains('\\') {
            let i = choose|i: int| 0 <= i < name@.len() && name@[i] == '\\';
            assert(name@[i] != '\\');
        }
    } else if !name@.contains('/') && !name@.contains('\\') {
        assert forall|i: int| 0 <= i < name@.len() implies #[trigger] name@[i] != '/' && name@[i]
            != '\\' by {
            assert(name@.contains(name@[i]));
        }
    }
}

/// A plain name backs the file of that name, with a slash in front of it too. A
/// name with a slash or a backslash behind other characters backs none.
pub proof fn backing_files_are_plain_names(name: &str, r: Option<String>, i: int)
    requires
        call_ensures(backing::backing_file_name, (name,), r),
    ensures
        r matches Some(file) ==> {
            &&& file@.len() > 0
            &&& file@ != "."@
            &&& file@ != ".."@
            &&& forall|k: int| 0 <= k < file@.len() ==> #[trigger] file@[k] != '/' && file@[k] != '\\'
        },
        name@.len() > 0 && name@ != "."@ && name@ != ".."@ && (forall|k: int|
            0 <= k < name@.len() ==> #[trigger] name@[k] != '/' && name@[k] != '\\') && (name@.len()
            < 2 || name@[1] != ':' || !('a' <= name@[0] <= 'z' || 'A' <= name@[0] <= 'Z')) ==> (
        r matches Some(file) && file@ == name@),
        0 <= i < backing::trim_slashes(name@).len() && (backing::trim_slashes(name@)[i] == '/'
            || backing::trim_slashes(name@)[i] == '\\') ==> r is None,
{
    if let Some(file) = r {
        backing::backing_files_lie_in_their_directory(name@, file@);
    }
    if name@.len() > 0 && name@ != "."@ && name@ != ".."@ && (forall|k: int|
        0 <= k < name@.len() ==> #[trigger] name@[k] != '/' && name@[k] != '\\') && (name@.len() < 2
        || name@[1] != ':' || !('a' <= name@[0] <= 'z' || 'A' <= name@[0] <= 'Z')) {
        backing::plain_names_back_their_file(name@);
    }
    if 0 <= i < backing::trim_slashes(name@).len() && (backing::trim_slashes(name@)[i] == '/'
        || backing::trim_slashes(name@)[i] == '\\') {
        backing::traversing_names_back_no_file(name@, i);
    }
}

/// Of the slashes in front of a name none is left, and nothing else is lost.
pub proof fn only_leading_slashes_are_trimmed(name: Seq<char>, count: nat)
    requires
        count <= name.len(),
        forall|i: int| 0 <= i < count ==> #[trigger] name[i] == '/',
        count == name.len() || name[count as int] != '/',
    ensures
        backing::trim_slashes(name) == name.skip(count as int),
    decreases count,
{
    if count > 0 {
        assert(name.drop_first() =~= name.skip(1));
        only_leading_slashes_are_trimmed(name.drop_first(), (count - 1) as nat);
        assert(name.drop_first().skip(count - 1) =~= name.skip(count as int));
    } else {
        assert(name.skip(0) =~= name);
    }
}

/// What a dead process has left is removed only where the file that backs the name
/// lies in the directory for such files, and the answer is that of the removal.
pub proof fn only_files_in_their_directory_are_reclaimed<
    L: Fn(&str) -> Option<(String, String)>,
    U: Fn(&str) -> bool,
>(name: &str, locate: &L, remove: &U, r: bool)
    requires
        call_ensures(
            backing::reclaim_orphaned_backing_file::<L, U>,
            (name, locate, remove),
            r,
        ),
    ensures
        backing::backing_file(name@) is None ==> !r,
        r ==> exists|f: &str| #[trigger]
            remove.ensures((f,), true) && backing::backing_file(name@) == Some(f@),
        r ==> exists|f: &str, parent: String, dir: String| #[trigger]
            locate.ensures((f,), Some((parent, dir))) && parent@ == dir@
                && backing::backing_file(name@) == Some(f@),
        backing::backing_file(name@) is Some && (forall|
            f: &str,
            place: Option<(String, String)>,
        | #[trigger]
            locate.ensures((f,), place) ==> (place matches Some((parent, dir)) && parent@ == dir@))
            && (forall|f: &str, done: bool| #[trigger] remove.ensures((f,), done) ==> done) ==> r,
{
    if let Some(file) = backing::backing_file(name@) {
        let place = choose|place: Option<(String, String)>|
            {
                &&& #[trigger] backing::located(*locate, file, place)
                &&& match place {
                    Some((parent, dir)) => if parent@ == dir@ {
                        backing::removed(*remove, file, r)
                    } else {
                        !r
                    },
                    None => !r,
                }
            };
        let f = choose|f: &str| f@ == file && #[trigger] locate.ensures((f,), place);
        assert(locate.ensures((f,), place));
        if let Some((parent, dir)) = place {
            if parent@ == dir@ {
                let g = choose|g: &str| g@ == file && #[trigger] remove.ensures((g,), r);
                assert(remove.ensures((g,), r));
            }
        }
    }
}

/// Where names are not limited, region, events and overflow regions are named by
/// prefix and name, the side, the slot and the generation.
pub proof fn names_in_full(
    c: &SlotBusConfig,
    slot: usize,
    generation: u8,
    region: String,
    request: String,
    response: String,
    request_overflow: String,
    response_overflow: String,
    request_later: String,
    response_later: String,
)
    requires
        !c.limited_names,
        call_ensures(SlotBusConfig::region_name, (c,), region),
        call_ensures(SlotBusConfig::request_event_name, (c,), request),
        call_ensures(SlotBusConfig::response_event_name, (c,), response),
        call_ensures(SlotBusConfig::request_overflow_name, (c, slot), request_overflow),
        call_ensures(SlotBusConfig::response_overflow_name, (c, slot), response_overflow),
        call_ensures(SlotBusConfig::request_overflow_name_gen, (c, slot, generation), request_later),
        call_ensures(
            SlotBusConfig::response_overflow_name_gen,
            (c, slot, generation),
            response_later,
        ),
    ensures
        region@ == c.prefix@ + "-"@ + c.name@,
        request@ == c.prefix@ + "-"@ + c.name@ + "-req"@,
        response@ == c.prefix@ + "-"@ + c.name@ + "-rsp"@,
        request_overflow@ == c.prefix@ + "-"@ + c.name@ + "-req-"@ + text::decimal(slot as nat),
        response_overflow@ == c.prefix@ + "-"@ + c.name@ + "-rsp-"@ + text::decimal(slot as nat),
        generation == 0 ==> request_later@ == request_overflow@ && response_later@
            == response_overflow@,
        generation > 0 ==> request_later@ == request_overflow@ + "-g"@ + text::decimal(
            generation as nat,
        ),
        generation > 0 ==> response_later@ == response_overflow@ + "-g"@ + text::decimal(
            generation as nat,
        ),
{
    config::configurations_are_their_fields(*c);
    config::names_are_prefix_and_name(c@, slot as nat, generation);
    config::generation_zero_has_the_plain_name(c@, Side::Request, slot as nat);
    config::generation_zero_has_the_plain_name(c@, Side::Response, slot as nat);
}

/// The names of the two sides are those that are asked for by side.
pub proof fn names_by_side(
    c: &SlotBusConfig,
    slot: usize,
    generation: u8,
    name: String,
    by_side: String,
)
    ensures
        call_ensures(SlotBusConfig::request_overflow_name, (c, slot), name) && call_ensures(
            SlotBusConfig::overflow_name,
            (c, Side::Request, slot),
            by_side,
        ) ==> name@ == by_side@,
        call_ensures(SlotBusConfig::response_overflow_name, (c, slot), name) && call_ensures(
            SlotBusConfig::overflow_name,
            (c, Side::Response, slot),
            by_side,
        ) ==> name@ == by_side@,
        call_ensures(SlotBusConfig::request_overflow_name_gen, (c, slot, generation), name)
            && call_ensures(
            SlotBusConfig::overflow_name_gen,
            (c, Side::Request, slot, generation),
            by_side,
        ) ==> name@ == by_side@,
        call_ensures(SlotBusConfig::response_overflow_name_gen, (c, slot, generation), name)
            && call_ensures(
            SlotBusConfig::overflow_name_gen,
            (c, Side::Response, slot, generation),
            by_side,
        ) ==> name@ == by_side@,
{
}

/// A name of the system stays as it is unless names are limited and it has more
/// than thirty bytes; then it becomes one that has no more.
pub proof fn names_are_cut_only_where_limited(name: &str, limited: bool, r: String)
    requires
        call_ensures(config::sanitize_os_name, (name, limited), r),
    ensures
        !limited || encode_utf8(name@).len() <= 30 ==> r@ == name@,
        limited ==> encode_utf8(r@).len() <= 30,
        limited && is_ascii_chars(name@) && name@.len() > 30 ==> r@ == "sb-"@ + config::base62(
            config::fnv1a(encode_utf8(name@)) as nat,
            11,
        ) + name@.skip(name@.len() - 16),
{
    config::names_that_fit_stay(name@);
    if is_ascii_chars(name@) && name@.len() > 30 {
        config::long_names_are_hashed(name@);
    }
}

/// A configuration is what its builder was told, field by field, and the defaults
/// otherwise. The number of slots is kept between 1 and 256.
pub proof fn builders_build_what_they_are_told(
    b0: SlotBusConfigBuilder,
    name: &str,
    b1: SlotBusConfigBuilder,
    slots: usize,
    b2: SlotBusConfigBuilder,
    size: usize,
    b3: SlotBusConfigBuilder,
    ms: u32,
    b4: SlotBusConfigBuilder,
    instrumentation: bool,
    b5: SlotBusConfigBuilder,
    limited: bool,
    b6: SlotBusConfigBuilder,
    prefix: &str,
    b7: SlotBusConfigBuilder,
    plain: SlotBusConfig,
    c: SlotBusConfig,
)
    requires
        call_ensures(SlotBusConfig::builder, (), b0),
        call_ensures(SlotBusConfigBuilder::name, (b0, name), b1),
        call_ensures(SlotBusConfigBuilder::build, (b1,), plain),
        call_ensures(SlotBusConfigBuilder::num_slots, (b1, slots), b2),
        call_ensures(SlotBusConfigBuilder::region_size, (b2, size), b3),
        call_ensures(SlotBusConfigBuilder::wait_timeout_ms, (b3, ms), b4),
        call_ensures(SlotBusConfigBuilder::instrumentation, (b4, instrumentation), b5),
        call_ensures(SlotBusConfigBuilder::limited_names, (b5, limited), b6),
        call_ensures(SlotBusConfigBuilder::prefix, (b6, prefix), b7),
        call_ensures(SlotBusConfigBuilder::build, (b7,), c),
    ensures
        plain.name@ == name@,
        plain.prefix@ == "slotbus"@,
        plain.num_slots == 32,
        plain.region_size == 1048576,
        plain.wait_timeout_ms == 5000,
        !plain.instrumentation,
        !plain.limited_names,
        c.name@ == name@,
        c.prefix@ == prefix@,
        1 <= slots <= 256 ==> c.num_slots == slots,
        slots == 0 ==> c.num_slots == 1,
        slots > 256 ==> c.num_slots == 256,
        c.region_size == size,
        c.wait_timeout_ms == ms,
        c.instrumentation == instrumentation,
        c.limited_names == limited,
{
    config::configurations_are_their_fields(plain);
    config::configurations_are_their_fields(c);
}

// ---- Encoding and routes -----------------------------------------------------

/// Metadata that was encoded is decoded to the same fields again.
pub proof fn metadata_survives_encoding(
    request: &RequestMeta,
    request_data: Vec<u8>,
    request_read: &[u8],
    request_back: Result<RequestMeta, SlotBusError>,
    response: &ResponseMeta,
    response_data: Vec<u8>,
    response_read: &[u8],
    response_back: Result<ResponseMeta, SlotBusError>,
)
    requires
        call_ensures(codec::encode_request_meta, (request,), Ok(request_data)),
        request_read@ == request_data@,
        call_ensures(codec::decode_request_meta, (request_read,), request_back),
        call_ensures(codec::encode_response_meta, (response,), Ok(response_data)),
        response_read@ == response_data@,
        call_ensures(codec::decode_response_meta, (response_read,), response_back),
    ensures
        request_back matches Ok(back) && {
            &&& back.path@ == request.path@
            &&& back.route_pattern@ == request.route_pattern@
            &&& types::pairs(back.path_params@) == types::pairs(request.path_params@)
            &&& types::optional(back.query) == types::optional(request.query)
            &&& types::pairs(back.headers@) == types::pairs(request.headers@)
        },
        response_back matches Ok(back) && {
            &&& back.content_type@ == response.content_type@
            &&& types::pairs(back.headers@) == types::pairs(response.headers@)
        },
{
    if let (Ok(a), Ok(b)) = (request_back, response_back) {
        types::metadata_is_its_fields(a, b);
    }
    types::metadata_is_its_fields(*request, *response);
}

/// An id that was padded with zeros to 36 bytes is decoded to itself.
pub proof fn padded_ids_are_decoded(id: Seq<char>, raw: &[u8], r: String)
    requires
        call_ensures(codec::decode_id, (raw,), r),
        encode_utf8(id).len() <= 36,
        !encode_utf8(id).contains(0),
        raw@ == encode_utf8(id) + Seq::new((36 - encode_utf8(id).len()) as nat, |i: int| 0u8),
    ensures
        r@ == id,
{
    assert forall|k: int| 0 <= k < encode_utf8(id).len() implies encode_utf8(id)[k] != 0 by {
        assert(encode_utf8(id).contains(encode_utf8(id)[k]));
    }
    codec::padded_id_reads_back(id, raw@);
}

/// A path matches a pattern where both have the same number of pieces and each
/// piece of the pattern is the path's or stands in braces. Each name in braces then
/// has the path's piece at its last position.
pub proof fn matches_capture_by_position(pattern: &str, path: &str, r: Option<Table<String>>)
    requires
        call_ensures(routes::match_route, (pattern, path), r),
    ensures
        ({
            let pat = routes::split_path(pattern@);
            let act = routes::split_path(path@);
            &&& r is Some <==> pat.len() == act.len() && forall|i: int|
                0 <= i < pat.len() ==> {
                    ||| #[trigger] pat[i] == act[i]
                    ||| pat[i].len() >= 2 && pat[i][0] == '{' && pat[i][pat[i].len() - 1] == '}'
                }
            &&& r matches Some(params) ==> {
                &&& forall|i: int|
                    0 <= i < pat.len() && (#[trigger] pat[i]).len() >= 2 && pat[i][0] == '{'
                        && pat[i][pat[i].len() - 1] == '}' && (forall|j: int|
                        i < j < pat.len() && (#[trigger] pat[j]).len() >= 2 && pat[j][0] == '{'
                            && pat[j][pat[j].len() - 1] == '}' ==> pat[j] != pat[i]) ==> {
                        let name = pat[i].subrange(1, pat[i].len() - 1);
                        params@.contains_key(name) && params@[name]@ == act[i]
                    }
                &&& forall|key: Seq<char>| #[trigger]
                    params@.contains_key(key) ==> exists|i: int|
                        0 <= i < pat.len() && #[trigger] pat[i] == seq!['{'] + key + seq!['}']
            }
        }),
{
    routes::patterns_fit_piece_by_piece(pattern@, path@);
    if let Some(params) = r {
        routes::placeholders_hold_their_pieces(pattern@, path@, params@);
    }
}

// ---- Regions -----------------------------------------------------------------

/// A mapping is described by its name and its length; where the system refused it,
/// the error names the call, the name and the reason.
pub proof fn mappings_are_described(
    name: &str,
    len: usize,
    reason: String,
    described: ShmRegion,
    created: Result<ShmRegion, SlotBusError>,
    not_created: Result<ShmRegion, SlotBusError>,
    opened: Result<ShmRegion, SlotBusError>,
    not_opened: Result<ShmRegion, SlotBusError>,
    won: Result<Option<ShmRegion>, SlotBusError>,
    taken: Result<Option<ShmRegion>, SlotBusError>,
    lost: Result<Option<ShmRegion>, SlotBusError>,
)
    requires
        call_ensures(ShmRegion::new, (name, len), described),
        call_ensures(ShmRegion::create, (name, Ok(len)), created),
        call_ensures(ShmRegion::create, (name, Err(reason)), not_created),
        call_ensures(ShmRegion::open, (name, Ok(len)), opened),
        call_ensures(ShmRegion::open, (name, Err(reason)), not_opened),
        call_ensures(ShmRegion::try_create_exclusive, (name, Attempt::Mapped(len)), won),
        call_ensures(ShmRegion::try_create_exclusive, (name, Attempt::NameTaken), taken),
        call_ensures(ShmRegion::try_create_exclusive, (name, Attempt::Failed(reason)), lost),
    ensures
        described@.name == name@ && described@.len == len && described@.num_slots == 0,
        created matches Ok(r) && r@ == described@,
        opened matches Ok(r) && r@ == described@,
        won matches Ok(Some(r)) && r@ == described@,
        taken matches Ok(None),
        not_created matches Err(e) && e@ == ErrorView::SharedMemory(
            "create"@ + " '"@ + name@ + "': "@ + reason@,
        ),
        not_opened matches Err(e) && e@ == ErrorView::SharedMemory(
            "open"@ + " '"@ + name@ + "': "@ + reason@,
        ),
        lost matches Err(e) && e@ == ErrorView::SharedMemory(
            "create"@ + " '"@ + name@ + "': "@ + reason@,
        ),
{
}

/// A region tells its name, its length and its number of slots, and whether header,
/// records and heap lie in it.
pub proof fn regions_tell_their_measures(
    region: &ShmRegion,
    name: &str,
    len: usize,
    empty: bool,
    num_slots: usize,
    laid_out: bool,
)
    requires
        call_ensures(ShmRegion::name, (region,), name),
        call_ensures(ShmRegion::len, (region,), len),
        call_ensures(ShmRegion::is_empty, (region,), empty),
        call_ensures(ShmRegion::num_slots, (region,), num_slots),
        call_ensures(ShmRegion::is_laid_out, (region,), laid_out),
    ensures
        name@ == region@.name,
        len == region@.len,
        empty <==> len == 0,
        num_slots == region@.num_slots,
        laid_out <==> 64 + 128 * num_slots <= region@.heap_offset && region@.heap_offset
            + region@.heap_size <= len,
{
}

/// The header is read from the first 24 bytes.
pub proof fn headers_are_read_by_position(region: &ShmRegion, mem: &[u8], r: ShmHeader)
    requires
        call_ensures(ShmRegion::header, (region, mem), r),
    ensures
        r.magic == mem@[0] + 256 * mem@[1] + 65536 * mem@[2] + 16777216 * mem@[3],
        r.version == mem@[4] + 256 * mem@[5] + 65536 * mem@[6] + 16777216 * mem@[7],
        r.num_slots == mem@[8] + 256 * mem@[9] + 65536 * mem@[10] + 16777216 * mem@[11],
        r.heap_offset == mem@[12] + 256 * mem@[13] + 65536 * mem@[14] + 16777216 * mem@[15],
        r.heap_size == mem@[16] + 256 * mem@[17] + 65536 * mem@[18] + 16777216 * mem@[19],
        r.alloc_head == mem@[20] + 256 * mem@[21] + 65536 * mem@[22] + 16777216 * mem@[23],
{
}

/// A record is read from the 128 bytes that its slot has, field by field.
pub proof fn records_are_read_by_position(
    region: &ShmRegion,
    mem: &[u8],
    slot: usize,
    r: SlotMeta,
    status: u32,
)
    requires
        region@.maps(mem@),
        slot < region@.num_slots,
        call_ensures(ShmRegion::slot, (region, mem, slot), r),
        call_ensures(ShmRegion::status, (region, mem, slot), status),
    ensures
        ({
            let at: int = 64 + 128 * slot as int;
            &&& r.status == status
            &&& status == bytes::u32_at(mem@, at)
            &&& r.req_id@ == mem@.subrange(at + 4, at + 40)
            &&& r.method == mem@[at + 40]
            &&& r.meta_offset == bytes::u32_at(mem@, at + 44)
            &&& r.meta_len == bytes::u16_at(mem@, at + 48)
            &&& r.body_offset == bytes::u32_at(mem@, at + 52)
            &&& r.body_len == bytes::u32_at(mem@, at + 56)
            &&& r.body_overflow == mem@[at + 60]
            &&& r.resp_status == bytes::u16_at(mem@, at + 64)
            &&& r.resp_meta_offset == bytes::u32_at(mem@, at + 68)
            &&& r.resp_meta_len == bytes::u16_at(mem@, at + 72)
            &&& r.resp_body_offset == bytes::u32_at(mem@, at + 76)
            &&& r.resp_body_len == bytes::u32_at(mem@, at + 80)
            &&& r.resp_body_overflow == mem@[at + 84]
        }),
{
}

/// Setting a status reaches the first four bytes of the record alone, and the
/// status is then read back.
pub proof fn statuses_are_set_in_place(
    region: &ShmRegion,
    mem: &mut [u8],
    slot: usize,
    status: u32,
)
    requires
        region@.maps(old(mem)@),
        slot < region@.num_slots,
        call_ensures(ShmRegion::set_status, (region, mem, slot, status), ()),
    ensures
        final(mem)@.len() == old(mem)@.len(),
        bytes::u32_at(final(mem)@, 64 + 128 * slot as int) == status,
        forall|i: int|
            0 <= i < old(mem)@.len() && !(64 + 128 * slot <= i < 64 + 128 * slot + 4)
                ==> #[trigger] final(mem)@[i] == old(mem)@[i],
{
    region::statuses_reach_their_bytes_alone(old(mem)@, slot as nat, status);
}

/// Reading from the heap gives its bytes; the checked form fails exactly where they
/// do not all lie in the heap.
pub proof fn heap_reads_give_the_bytes(
    region: &ShmRegion,
    mem: &[u8],
    offset: u32,
    len: usize,
    plain: &[u8],
    checked: Result<&[u8], SlotBusError>,
)
    requires
        region@.maps(mem@),
    ensures
        offset + len <= region@.heap_size && call_ensures(
            ShmRegion::heap_read,
            (region, mem, offset, len),
            plain,
        ) ==> plain@.len() == len && forall|i: int|
            0 <= i < len ==> #[trigger] plain@[i] == mem@[region@.heap_offset + offset + i],
        call_ensures(ShmRegion::heap_read_checked, (region, mem, offset, len), checked) ==> {
            &&& checked is Ok <==> offset + len <= region@.heap_size
            &&& checked matches Ok(data) ==> data@.len() == len && forall|i: int|
                0 <= i < len ==> #[trigger] data@[i] == mem@[region@.heap_offset + offset + i]
            &&& checked matches Err(e) ==> e@ == ErrorView::InvalidRegion(
                "heap read"@ + " out of bounds: offset="@ + text::decimal(offset as nat) + " len="@
                    + text::decimal(len as nat) + " heap_size="@ + text::decimal(
                    region@.heap_size,
                ),
            )
        },
{
}

/// Writing to the heap changes the bytes that are written and no others; the checked
/// form fails, and writes nothing, exactly where they do not all lie in the heap.
pub proof fn heap_writes_reach_their_bytes(
    region: &ShmRegion,
    mem: &mut [u8],
    offset: u32,
    data: &[u8],
    r: Result<(), SlotBusError>,
)
    requires
        region@.maps(old(mem)@),
        call_ensures(ShmRegion::heap_write_checked, (region, mem, offset, data), r),
    ensures
        r is Ok <==> offset + data@.len() <= region@.heap_size,
        final(mem)@.len() == old(mem)@.len(),
        r is Ok ==> {
            &&& forall|i: int|
                0 <= i < data@.len() ==> final(mem)@[region@.heap_offset + offset + i]
                    == #[trigger] data@[i]
            &&& forall|i: int|
                0 <= i < old(mem)@.len() && !(region@.heap_offset + offset <= i
                    < region@.heap_offset + offset + data@.len()) ==> #[trigger] final(mem)@[i]
                    == old(mem)@[i]
        },
        r matches Err(e) ==> final(mem)@ == old(mem)@ && e@ == ErrorView::InvalidRegion(
            "heap write"@ + " out of bounds: offset="@ + text::decimal(offset as nat) + " len="@
                + text::decimal(data@.len()) + " heap_size="@ + text::decimal(region@.heap_size),
        ),
{
}

/// The unchecked form of a heap write changes the same bytes.
pub proof fn unchecked_heap_writes_reach_their_bytes(
    region: &ShmRegion,
    mem: &mut [u8],
    offset: u32,
    data: &[u8],
)
    requires
        region@.maps(old(mem)@),
        offset + data@.len() <= region@.heap_size,
        call_ensures(ShmRegion::heap_write, (region, mem, offset, data), ()),
    ensures
        final(mem)@.len() == old(mem)@.len(),
        forall|i: int|
            0 <= i < data@.len() ==> final(mem)@[region@.heap_offset + offset + i]
                == #[trigger] data@[i],
        forall|i: int|
            0 <= i < old(mem)@.len() && !(region@.heap_offset + offset <= i < region@.heap_offset
                + offset + data@.len()) ==> #[trigger] final(mem)@[i] == old(mem)@[i],
{
}

/// A region's arenas, and the largest body that fits inline, in numbers.
pub proof fn regions_share_their_heap(
    region: &ShmRegion,
    slot: usize,
    arenas: ((usize, usize), (usize, usize)),
    meta_len: usize,
    capacity: usize,
)
    requires
        slot < region@.num_slots,
        call_ensures(ShmRegion::slot_arenas, (region, slot), arenas),
        call_ensures(ShmRegion::inline_body_capacity, (region, meta_len), capacity),
    ensures
        ({
            let stride = region@.heap_size as int / region@.num_slots as int / 8 * 8;
            let rounded = (meta_len + 7) / 8 * 8;
            &&& arenas.0.0 == slot * stride
            &&& arenas.0.1 == stride / 2 / 8 * 8
            &&& arenas.1.0 == arenas.0.0 + arenas.0.1
            &&& arenas.1.1 == stride - arenas.0.1
            &&& rounded <= arenas.0.1 ==> capacity == arenas.0.1 - rounded
            &&& rounded > arenas.0.1 ==> capacity == 0
        }),
{
    region::heaps_are_shared_out_evenly(region@, slot as nat);
    region::inline_capacity_is_what_metadata_leaves(region@, meta_len as nat);
}

/// The allocator hands out the head and moves it on by the size rounded up to a
/// multiple of eight, where the heap has so much left; otherwise it changes nothing.
/// It reaches its own four bytes alone.
pub proof fn allocations_move_the_head(
    region: &ShmRegion,
    mem: &mut [u8],
    size: usize,
    r: Option<u32>,
)
    requires
        region@.maps(old(mem)@),
        region@.heap_size < 4294967296,
        call_ensures(ShmRegion::alloc_heap, (region, mem, size), r),
    ensures
        ({
            let head = bytes::u32_at(old(mem)@, 20);
            let rounded = (size + 7) / 8 * 8;
            &&& r is Some <==> head + rounded <= region@.heap_size
            &&& r matches Some(offset) ==> offset == head && bytes::u32_at(final(mem)@, 20) == head
                + rounded
            &&& r is None ==> final(mem)@ == old(mem)@
            &&& final(mem)@.len() == old(mem)@.len()
            &&& forall|i: int|
                0 <= i < old(mem)@.len() && !(20 <= i < 24) ==> #[trigger] final(mem)@[i]
                    == old(mem)@[i]
        }),
{
    let head = bytes::u32_at(old(mem)@, 20);
    let new_head = (head + types::aligned8(size as nat)) as nat;
    if new_head <= region@.heap_size {
        bytes::lemma_low32(new_head);
        region::allocator_heads_reach_their_bytes_alone(old(mem)@, bytes::low32(new_head));
    }
}

/// Resetting the allocator sets its head to zero; the cautious form does so only
/// where the status of every slot is zero, and tells whether some is not.
pub proof fn resets_set_the_head_to_zero(region: &ShmRegion, mem: &mut [u8], other: &mut [u8])
    requires
        region@.maps(old(mem)@),
        region@.maps(old(other)@),
        call_ensures(ShmRegion::reset_heap, (region, mem), ()),
        call_ensures(ShmRegion::try_reset_heap, (region, other), ()),
    ensures
        bytes::u32_at(final(mem)@, 20) == 0,
        forall|i: int|
            0 <= i < old(mem)@.len() && !(20 <= i < 24) ==> #[trigger] final(mem)@[i]
                == old(mem)@[i],
        (forall|slot: nat|
            slot < region@.num_slots ==> #[trigger] types::slot_status(old(other)@, slot) == 0)
            ==> bytes::u32_at(final(other)@, 20) == 0,
        (exists|slot: nat|
            slot < region@.num_slots && #[trigger] types::slot_status(old(other)@, slot) != 0)
            ==> final(other)@ == old(other)@,
        forall|i: int|
            0 <= i < old(other)@.len() && !(20 <= i < 24) ==> #[trigger] final(other)@[i]
                == old(other)@[i],
{
    region::allocator_heads_reach_their_bytes_alone(old(mem)@, 0);
    region::allocator_heads_reach_their_bytes_alone(old(other)@, 0);
}

/// Slots are in flight where some status is not zero.
pub proof fn in_flight_means_not_zero(region: &ShmRegion, mem: &[u8], r: bool)
    requires
        call_ensures(ShmRegion::has_inflight_slots, (region, mem), r),
    ensures
        r <==> exists|slot: nat|
            slot < region@.num_slots && #[trigger] types::slot_status(mem@, slot) != 0,
{
}

/// A mapping is initialized where header, records and what the size leaves for the
/// heap fit in it: the header then tells the layout, and all behind it is zero. A
/// mapping that is too small is refused and left alone.
pub proof fn initialized_mappings_tell_their_layout(
    region: &mut ShmRegion,
    mem: &mut [u8],
    config: &SlotBusConfig,
    r: Result<(), SlotBusError>,
)
    requires
        old(mem)@.len() == old(region)@.len,
        config@.num_slots < 4294967296,
        64 + 128 * config@.num_slots < 4294967296,
        config@.region_size < 4294967296,
        call_ensures(ShmRegion::init_control, (region, mem, config), r),
    ensures
        ({
            let start = 64 + 128 * config@.num_slots;
            let end = if config@.region_size >= start {
                config@.region_size as int
            } else {
                start as int
            };
            let h = types::header_at(final(mem)@);
            &&& r is Ok <==> end <= old(region)@.len
            &&& r is Ok ==> {
                &&& final(region)@.name == old(region)@.name
                &&& final(region)@.len == old(region)@.len
                &&& final(region)@.num_slots == config@.num_slots
                &&& final(region)@.heap_offset == start
                &&& final(region)@.heap_size == end - start
                &&& final(mem)@.len() == old(mem)@.len()
                &&& h.magic == 0x534C4231
                &&& h.version == 2
                &&& h.num_slots == config@.num_slots
                &&& h.heap_offset == start
                &&& h.heap_size == end - start
                &&& forall|i: int| 20 <= i < old(mem)@.len() ==> #[trigger] final(mem)@[i] == 0
            }
            &&& r matches Err(e) ==> {
                &&& final(region)@ == old(region)@
                &&& final(mem)@ == old(mem)@
                &&& e@ == ErrorView::InvalidRegion(
                    region::layout_too_large_text(old(region)@, end as nat, config@),
                )
            }
        }),
{
    let heap_offset = types::heap_start(config@.num_slots);
    let heap_size = types::heap_room(config@.num_slots, config@.region_size);
    if heap_offset + heap_size <= old(region)@.len {
        laws::initialized_regions_validate(
            old(region)@.len,
            config@.num_slots,
            heap_offset,
            heap_size,
        );
    }
}

/// A header is accepted where it has the magic number and the version and does not
/// describe more than the mapping holds; the region then has its layout.
pub proof fn headers_are_accepted_by_their_numbers(
    region: &mut ShmRegion,
    mem: &[u8],
    r: Result<(), SlotBusError>,
)
    requires
        mem@.len() == old(region)@.len,
        mem@.len() >= 64,
        call_ensures(ShmRegion::validate_control, (region, mem), r),
    ensures
        ({
            let h = types::header_at(mem@);
            &&& r is Ok <==> h.magic == 0x534C4231 && h.version == 2 && h.heap_offset + h.heap_size
                <= mem@.len()
            &&& r is Ok ==> {
                &&& final(region)@.name == old(region)@.name
                &&& final(region)@.len == old(region)@.len
                &&& final(region)@.num_slots == h.num_slots
                &&& final(region)@.heap_offset == h.heap_offset
                &&& final(region)@.heap_size == h.heap_size
            }
            &&& r is Err ==> final(region)@ == old(region)@
            &&& h.magic != 0x534C4231 ==> (r matches Err(e) && e@ == ErrorView::InvalidRegion(
                region::bad_magic_text(h.magic),
            ))
            &&& h.magic == 0x534C4231 && h.version != 2 ==> (r matches Err(e) && e@
                == ErrorView::InvalidRegion(region::bad_version_text(h.version)))
            &&& h.magic == 0x534C4231 && h.version == 2 && h.heap_offset + h.heap_size > mem@.len()
                ==> (r matches Err(e) && e@ == ErrorView::InvalidRegion(
                region::header_overrun_text(old(region)@, h),
            ))
        }),
{
}

/// The first slot of status zero is found; claiming it sets its status to 4, and
/// nothing else changes.
pub proof fn first_free_slots_are_claimed(
    region: &ShmRegion,
    mem: &mut [u8],
    seen: &[u8],
    found: Option<usize>,
    claimed: Option<usize>,
)
    requires
        region@.maps(old(mem)@),
        seen@ == old(mem)@,
        call_ensures(region::find_free_slot, (region, seen), found),
        call_ensures(region::claim_free_slot, (region, mem), claimed),
    ensures
        found matches Some(slot) ==> {
            &&& slot < region@.num_slots
            &&& types::slot_status(seen@, slot as nat) == 0
            &&& forall|j: nat| j < slot ==> #[trigger] types::slot_status(seen@, j) != 0
        },
        found is None ==> forall|j: nat|
            j < region@.num_slots ==> #[trigger] types::slot_status(seen@, j) != 0,
        found == claimed,
        claimed matches Some(slot) ==> {
            &&& slot < region@.num_slots
            &&& types::slot_status(old(mem)@, slot as nat) == 0
            &&& forall|j: nat| j < slot ==> #[trigger] types::slot_status(old(mem)@, j) != 0
            &&& types::slot_status(final(mem)@, slot as nat) == 4
            &&& forall|i: int|
                0 <= i < old(mem)@.len() && !(64 + 128 * slot <= i < 64 + 128 * slot + 4)
                    ==> #[trigger] final(mem)@[i] == old(mem)@[i]
        },
        claimed is None ==> {
            &&& forall|j: nat|
                j < region@.num_slots ==> #[trigger] types::slot_status(old(mem)@, j) != 0
            &&& final(mem)@ == old(mem)@
        },
{
    if let Some(slot) = claimed {
        region::statuses_reach_their_bytes_alone(old(mem)@, slot as nat, 4);
        assert(types::slot_status(seen@, slot as nat) == 0);
        if let Some(other) = found {
            assert(types::slot_status(old(mem)@, other as nat) == 0);
        }
    } else if let Some(other) = found {
        assert(types::slot_status(old(mem)@, other as nat) == 0);
    }
}

/// The first slot that can be won is claimed, and none where none can be.
pub proof fn first_claims_win<C: Fn(usize) -> bool>(
    num_slots: usize,
    try_claim: C,
    r: Option<usize>,
    first: usize,
)
    requires
        call_ensures(region::claim_first::<C>, (num_slots, try_claim), r),
        forall|i: usize, won: bool| #[trigger]
            try_claim.ensures((i,), won) ==> (won <==> i >= first),
    ensures
        first < num_slots ==> r == Some(first),
        first >= num_slots ==> r is None,
{
    if let Some(i) = r {
        assert(try_claim.ensures((i,), true));
        if first < i {
            assert(try_claim.ensures((first,), false));
        }
    } else if first < num_slots {
        assert(region::lost_below(try_claim, num_slots));
        assert(try_claim.ensures((first,), false));
    }
}

// ---- Overflow regions --------------------------------------------------------

/// An overflow region has whole pages of 4096 bytes, as few as hold its body, and
/// one at least.
pub proof fn overflow_sizes_are_whole_pages(len: usize, r: usize)
    requires
        call_ensures(ShmRegion::overflow_size_for, (len,), r),
    ensures
        r % 4096 == 0,
        r >= len,
        r >= 4096,
        len > 0 ==> r < len + 4096,
        len == 0 ==> r == 4096,
{
    overflow::overflow_regions_are_whole_pages(len as nat);
}

/// A mapping is filled with all of a body, from its first byte on, or, where it is
/// too small, not at all; and the body is read back from it.
pub proof fn filled_mappings_give_the_body_back(
    mem: &mut [u8],
    name: &str,
    data: &[u8],
    r: Result<(), SlotBusError>,
    len: usize,
    seen: &[u8],
    read: Result<Vec<u8>, SlotBusError>,
)
    requires
        call_ensures(ShmRegion::fill_overflow, (mem, name, data), r),
        len == data@.len(),
        seen@ == final(mem)@,
        call_ensures(ShmRegion::overflow_payload, (name, len, seen), read),
    ensures
        r is Ok <==> old(mem)@.len() >= data@.len(),
        final(mem)@.len() == old(mem)@.len(),
        r is Ok ==> forall|i: int|
            data@.len() <= i < old(mem)@.len() ==> #[trigger] final(mem)@[i] == old(mem)@[i],
        r is Ok ==> (read matches Ok(back) && back@ == data@),
        r matches Err(e) ==> final(mem)@ == old(mem)@ && e@ == ErrorView::SharedMemory(
            overflow::no_room_text(name@, data@.len(), old(mem)@.len()),
        ),
        r is Err ==> (read matches Err(e) && e@ == ErrorView::SharedMemory(
            overflow::too_small_text(name@, data@.len(), old(mem)@.len()),
        )),
{
    if r is Ok {
        assert(final(mem)@.take(len as int) =~= data@);
    }
}

/// What is read from an overflow region are the first bytes of what opening it
/// gave.
pub proof fn overflow_reads_are_first_bytes<O: Fn(&str) -> Result<Vec<u8>, SlotBusError>>(
    open: &O,
    name: &str,
    len: usize,
    mem: Vec<u8>,
    r: Result<Vec<u8>, SlotBusError>,
)
    requires
        call_ensures(ShmRegion::read_overflow::<O>, (open, name, len), r),
        forall|n: &str, res: Result<Vec<u8>, SlotBusError>| #[trigger]
            open.ensures((n,), res) ==> (res matches Ok(m) && m@ == mem@),
    ensures
        r is Ok <==> len <= mem@.len(),
        r matches Ok(data) ==> data@ == mem@.take(len as int),
{
    overflow::overflow_reads_give_the_first_bytes(*open, name@, len as nat, r);
    if let Ok(data) = r {
        assert(data@ =~= mem@.take(len as int));
    }
}

/// Where the system grants the mapping, it is what comes back, from an exclusive
/// create and from one that would open instead; where the name stays taken, the
/// exclusive create tells so, the other one opens, and an overflow region is
/// refused.
pub proof fn creates_follow_the_system<
    R,
    C: Fn(&str, usize, bool) -> Result<Option<R>, SlotBusError>,
    Q: Fn(&str) -> bool,
    F: Fn(&R, &str, &[u8]) -> Result<(), SlotBusError>,
    O: Fn(&str) -> Result<R, SlotBusError>,
>(
    os: &Mapper<C, Q, F>,
    open: &O,
    name: &str,
    size: usize,
    data: &[u8],
    exclusive: Result<Option<R>, SlotBusError>,
    either: Result<R, SlotBusError>,
    overflow: Result<R, SlotBusError>,
)
    requires
        call_ensures(ShmRegion::create_exclusive::<R, C, Q, F>, (os, name, size), exclusive),
        call_ensures(ShmRegion::create_or_open::<R, C, Q, F, O>, (os, open, name, size), either),
        call_ensures(ShmRegion::create_overflow::<R, C, Q, F>, (os, name, data), overflow),
    ensures
        either matches Err(e) ==> (exists|n: &str, again: bool|
            n@ == name@ && #[trigger] os.create.ensures((n, size, again), Err(e))) || (exists|
            n: &str,
        |
            n@ == name@ && #[trigger] open.ensures((n,), Err(e))),
        (forall|n: &str, s: usize, again: bool, r: Result<Option<R>, SlotBusError>| #[trigger]
            os.create.ensures((n, s, again), r) ==> (r matches Ok(Some(_)))) ==> {
            &&& exclusive matches Ok(Some(_))
            &&& either is Ok
            &&& (forall|m: &R, n: &str, d: &[u8], r: Result<(), SlotBusError>| #[trigger]
                os.fill.ensures((m, n, d), r) ==> r is Ok) ==> overflow is Ok
        },
        (forall|n: &str, s: usize, again: bool, r: Result<Option<R>, SlotBusError>| #[trigger]
            os.create.ensures((n, s, again), r) ==> (r matches Ok(None))) ==> {
            &&& exclusive matches Ok(None)
            &&& exists|n: &str| n@ == name@ && #[trigger] open.ensures((n,), either)
            &&& overflow matches Err(e) && e@ == ErrorView::SharedMemory(
                "overflow region '"@ + name@ + "' already exists: need "@ + text::decimal(
                    data@.len(),
                )
                    + " bytes (held by a live peer, or an orphaned backing file that could not be reclaimed)"@,
            )
        },
{
    let page = overflow::overflow_size(data@.len()) as usize;
    assert forall|s: usize, again: bool, r: Result<Option<R>, SlotBusError>| #[trigger]
        overflow::attempted(os.create, name@, s, again, r) implies exists|n: &str| #[trigger]
        os.create.ensures((n, s, again), r) by {}
    if let Ok(region) = either {
        if overflow::opened(*open, name@, either) {
            let n = choose|n: &str| n@ == name@ && #[trigger] open.ensures((n,), either);
            assert(open.ensures((n,), either));
        }
    } else if overflow::opened(*open, name@, either) {
        let n = choose|n: &str| n@ == name@ && #[trigger] open.ensures((n,), either);
        assert(open.ensures((n,), either));
    }
    if let Err(e) = either {
        let failed: Result<Option<R>, SlotBusError> = Err(e);
        if overflow::created_exclusively::<R, C, Q>(os.create, os.reclaim, name@, size, failed) {
            let again = !overflow::attempted(os.create, name@, size, false, failed);
            let n = choose|n: &str|
                n@ == name@ && #[trigger] os.create.ensures((n, size, again), failed);
            assert(os.create.ensures((n, size, again), failed));
        }
    }
    if let Err(e) = overflow {
        let refused: Result<(), SlotBusError> = Err(e);
        if exists|region: R|
            #![trigger overflow::filled(os.fill, region, name@, data@, refused)]
            {
                &&& overflow::created_exclusively(
                    os.create,
                    os.reclaim,
                    name@,
                    page,
                    Ok(Some(region)),
                )
                &&& overflow::filled(os.fill, region, name@, data@, refused)
            } {
            let region = choose|region: R|
                #![trigger overflow::filled(os.fill, region, name@, data@, refused)]
                {
                    &&& overflow::created_exclusively(
                        os.create,
                        os.reclaim,
                        name@,
                        page,
                        Ok(Some(region)),
                    )
                    &&& overflow::filled(os.fill, region, name@, data@, refused)
                };
            let (n, d) = choose|n: &str, d: &[u8]|
                n@ == name@ && d@ == data@ && #[trigger] os.fill.ensures((&region, n, d), refused);
            assert(os.fill.ensures((&region, n, d), refused));
        }
    }
}

/// Where the system grants every mapping and every copy, a fresh overflow region is
/// of the first generation: its marker is one.
pub proof fn granted_overflow_regions_are_of_the_first_generation<
    R,
    C: Fn(&str, usize, bool) -> Result<Option<R>, SlotBusError>,
    Q: Fn(&str) -> bool,
    F: Fn(&R, &str, &[u8]) -> Result<(), SlotBusError>,
    N: Fn(u8) -> String,
>(os: &Mapper<C, Q, F>, name_for: &N, data: &[u8], r: Result<(R, u8), SlotBusError>)
    requires
        call_ensures(
            ShmRegion::create_overflow_fresh::<R, C, Q, F, N>,
            (os, name_for, data),
            r,
        ),
        forall|n: &str, s: usize, again: bool, r: Result<Option<R>, SlotBusError>| #[trigger]
            os.create.ensures((n, s, again), r) ==> (r matches Ok(Some(_))),
        forall|m: &R, n: &str, d: &[u8], r: Result<(), SlotBusError>| #[trigger]
            os.fill.ensures((m, n, d), r) ==> r is Ok,
    ensures
        r matches Ok((_, marker)) && marker == 1,
{
    overflow::granted_searches_end_at_once::<R, C, Q, F>(
        *os,
        overflow::names_from(*name_for),
        data@,
    );
}

// ---- Slots -------------------------------------------------------------------

/// A request is written wherever its slot exists, its sizes are within the limits and
/// the system grants what is asked of it. Its slot is then ready, status 1, or, where
/// the write failed, free, status 0. No other slot's status changes.
pub proof fn requests_are_written_within_the_limits<
    R,
    C: Fn(&str, usize, bool) -> Result<Option<R>, SlotBusError>,
    Q: Fn(&str) -> bool,
    F: Fn(&R, &str, &[u8]) -> Result<(), SlotBusError>,
>(
    region: &ShmRegion,
    mem: &mut [u8],
    os: &Mapper<C, Q, F>,
    slot: usize,
    id: &str,
    method: u8,
    meta: &[u8],
    body: &[u8],
    config: &SlotBusConfig,
    res: Result<Option<R>, SlotBusError>,
)
    requires
        region@.maps(old(mem)@),
        call_ensures(
            slots::write_request::<R, C, Q, F>,
            (region, mem, os, slot, id, method, meta, body, config),
            res,
        ),
    ensures
        slot >= region@.num_slots || meta@.len() > region@.arena_size(Side::Request) || meta@.len()
            > 65535 || body@.len() > 4294967295 ==> res is Err,
        slot < region@.num_slots && meta@.len() <= region@.arena_size(Side::Request) && meta@.len()
            <= 65535 && body@.len() <= 4294967295 && (forall|
            n: &str,
            size: usize,
            again: bool,
            r: Result<Option<R>, SlotBusError>,
        | #[trigger]
            os.create.ensures((n, size, again), r) ==> (r matches Ok(Some(_)))) && (forall|
            m: &R,
            n: &str,
            d: &[u8],
            r: Result<(), SlotBusError>,
        | #[trigger]
            os.fill.ensures((m, n, d), r) ==> r is Ok) ==> res is Ok,
        slot < region@.num_slots ==> types::slot_status(final(mem)@, slot as nat) == (if res is Ok {
            1u32
        } else {
            0u32
        }),
        forall|other: nat|
            other < region@.num_slots && other != slot ==> #[trigger] types::slot_status(
                final(mem)@,
                other,
            ) == types::slot_status(old(mem)@, other),
{
    let on_ok = Some(types::SLOT_READY);
    let on_err = Some(types::SLOT_FREE);
    let data = encode_utf8(id@);
    if slot < region@.num_slots {
        laws::request_writes_settle_the_slot(
            region@,
            *os,
            config@,
            slot as nat,
            data,
            method,
            meta@,
            body@,
            old(mem)@,
            final(mem)@,
            on_ok,
            on_err,
            res,
        );
    }
    if slot >= region@.num_slots || meta@.len() > region@.arena_size(Side::Request) || meta@.len()
        > 65535 || body@.len() > 4294967295 {
        laws::requests_beyond_the_limits_are_refused(
            region@,
            *os,
            config@,
            slot as nat,
            data,
            method,
            meta@,
            body@,
            old(mem)@,
            final(mem)@,
            on_ok,
            on_err,
            res,
        );
    } else if (forall|n: &str, size: usize, again: bool, r: Result<Option<R>, SlotBusError>|
        #[trigger] os.create.ensures((n, size, again), r) ==> (r matches Ok(Some(_)))) && (forall|
        m: &R,
        n: &str,
        d: &[u8],
        r: Result<(), SlotBusError>,
    | #[trigger] os.fill.ensures((m, n, d), r) ==> r is Ok) {
        laws::requests_within_the_limits_are_written(
            region@,
            *os,
            config@,
            slot as nat,
            data,
            method,
            meta@,
            body@,
            old(mem)@,
            final(mem)@,
            on_ok,
            on_err,
            res,
        );
    }
}

/// A response is written wherever its slot exists, its sizes are within the limits
/// and the system grants what is asked of it. Its slot is then done, status 3; where
/// the write failed, its status stays. No other slot's status changes.
pub proof fn responses_are_written_within_the_limits<
    R,
    C: Fn(&str, usize, bool) -> Result<Option<R>, SlotBusError>,
    Q: Fn(&str) -> bool,
    F: Fn(&R, &str, &[u8]) -> Result<(), SlotBusError>,
>(
    region: &ShmRegion,
    mem: &mut [u8],
    os: &Mapper<C, Q, F>,
    slot: usize,
    status: u16,
    meta: &[u8],
    body: &[u8],
    config: &SlotBusConfig,
    res: Result<Option<R>, SlotBusError>,
)
    requires
        region@.maps(old(mem)@),
        call_ensures(
            slots::write_response::<R, C, Q, F>,
            (region, mem, os, slot, status, meta, body, config),
            res,
        ),
    ensures
        slot >= region@.num_slots || meta@.len() > region@.arena_size(Side::Response) || meta@.len()
            > 65535 || body@.len() > 4294967295 ==> res is Err,
        slot < region@.num_slots && meta@.len() <= region@.arena_size(Side::Response)
            && meta@.len() <= 65535 && body@.len() <= 4294967295 && (forall|
            n: &str,
            size: usize,
            again: bool,
            r: Result<Option<R>, SlotBusError>,
        | #[trigger]
            os.create.ensures((n, size, again), r) ==> (r matches Ok(Some(_)))) && (forall|
            m: &R,
            n: &str,
            d: &[u8],
            r: Result<(), SlotBusError>,
        | #[trigger]
            os.fill.ensures((m, n, d), r) ==> r is Ok) ==> res is Ok,
        slot < region@.num_slots ==> types::slot_status(final(mem)@, slot as nat) == (if res is Ok {
            3u32
        } else {
            types::slot_status(old(mem)@, slot as nat)
        }),
        forall|other: nat|
            other < region@.num_slots && other != slot ==> #[trigger] types::slot_status(
                final(mem)@,
                other,
            ) == types::slot_status(old(mem)@, other),
{
    let on_ok = Some(types::SLOT_DONE);
    if slot < region@.num_slots {
        laws::response_writes_settle_the_slot(
            region@,
            *os,
            config@,
            slot as nat,
            status,
            meta@,
            body@,
            old(mem)@,
            final(mem)@,
            on_ok,
            None,
            res,
        );
    }
    if slot >= region@.num_slots || meta@.len() > region@.arena_size(Side::Response) || meta@.len()
        > 65535 || body@.len() > 4294967295 {
        laws::responses_beyond_the_limits_are_refused(
            region@,
            *os,
            config@,
            slot as nat,
            status,
            meta@,
            body@,
            old(mem)@,
            final(mem)@,
            on_ok,
            None,
            res,
        );
    } else if (forall|n: &str, size: usize, again: bool, r: Result<Option<R>, SlotBusError>|
        #[trigger] os.create.ensures((n, size, again), r) ==> (r matches Ok(Some(_)))) && (forall|
        m: &R,
        n: &str,
        d: &[u8],
        r: Result<(), SlotBusError>,
    | #[trigger] os.fill.ensures((m, n, d), r) ==> r is Ok) {
        laws::responses_within_the_limits_are_written(
            region@,
            *os,
            config@,
            slot as nat,
            status,
            meta@,
            body@,
            old(mem)@,
            final(mem)@,
            on_ok,
            None,
            res,
        );
    }
}

/// A request that was written is read back from the slot, part by part.
pub proof fn written_requests_are_read_back<
    R,
    C: Fn(&str, usize, bool) -> Result<Option<R>, SlotBusError>,
    Q: Fn(&str) -> bool,
    F: Fn(&R, &str, &[u8]) -> Result<(), SlotBusError>,
    O: Fn(&str) -> Result<Vec<u8>, SlotBusError>,
>(
    region: &ShmRegion,
    mem: &mut [u8],
    os: &Mapper<C, Q, F>,
    slot: usize,
    id: &str,
    method: u8,
    meta: &RequestMeta,
    data: Vec<u8>,
    data_slice: &[u8],
    body: &[u8],
    config: &SlotBusConfig,
    handle: Option<R>,
    seen: &[u8],
    open: &O,
    read: Result<(String, u8, RequestMeta, Vec<u8>), SlotBusError>,
    id_read: String,
)
    requires
        region@.maps(old(mem)@),
        region@.side_is_addressable(Side::Request, slot as nat),
        encode_utf8(id@).len() <= 36,
        !encode_utf8(id@).contains(0),
        call_ensures(codec::encode_request_meta, (meta,), Ok(data)),
        data_slice@ == data@,
        call_ensures(
            slots::write_request::<R, C, Q, F>,
            (region, mem, os, slot, id, method, data_slice, body, config),
            Ok(handle),
        ),
        seen@ == final(mem)@,
        laws::overflow_holds(*open, config@, seen@, Side::Request, slot as nat, body@),
        call_ensures(slots::read_request::<O>, (region, seen, open, slot, config), read),
        call_ensures(slots::read_id, (region, seen, slot), id_read),
    ensures
        id_read@ == id@,
        read matches Ok((id2, method2, meta2, body2)) && {
            &&& id2@ == id@
            &&& method2 == method
            &&& meta2.path@ == meta.path@
            &&& meta2.route_pattern@ == meta.route_pattern@
            &&& types::pairs(meta2.path_params@) == types::pairs(meta.path_params@)
            &&& types::optional(meta2.query) == types::optional(meta.query)
            &&& types::pairs(meta2.headers@) == types::pairs(meta.headers@)
            &&& body2@ == body@
        },
{
    slots::ids_of_thirty_six_bytes_fit(id@);
    laws::lemma_same_side_refl(region@, final(mem)@, Side::Request, slot as nat);
    laws::requests_round_trip(
        region@,
        *os,
        config@,
        config@,
        slot as nat,
        id@,
        method,
        data@,
        meta@,
        body@,
        old(mem)@,
        final(mem)@,
        Some(types::SLOT_READY),
        Some(types::SLOT_FREE),
        Ok(handle),
        seen@,
        *open,
        read,
    );
}

// ---- Requests and responses --------------------------------------------------

/// A table of pairs holds the last value of each name and no other name.
pub proof fn collected_pairs_keep_the_last(pairs: Vec<(String, String)>, r: Table<String>)
    requires
        call_ensures(transport::collect_pairs, (pairs,), r),
    ensures
        forall|i: int|
            0 <= i < pairs@.len() && (forall|j: int|
                i < j < pairs@.len() ==> (#[trigger] pairs@[j]).0@ != pairs@[i].0@)
                ==> r@.contains_key((#[trigger] pairs@[i]).0@) && r@[pairs@[i].0@]@ == pairs@[i].1@,
        forall|key: Seq<char>| #[trigger]
            r@.contains_key(key) ==> exists|i: int|
                0 <= i < pairs@.len() && (#[trigger] pairs@[i]).0@ == key,
{
    let all = types::pairs(pairs@);
    transport::lemma_table_of_last_values(r@, all);
    types::texts_are_their_characters(pairs@, None);
    assert forall|i: int|
        0 <= i < pairs@.len() && (forall|j: int|
            i < j < pairs@.len() ==> (#[trigger] pairs@[j]).0@ != pairs@[i].0@) implies
        r@.contains_key((#[trigger] pairs@[i]).0@) && r@[pairs@[i].0@]@ == pairs@[i].1@ by {
        assert forall|j: int| i < j < all.len() implies (#[trigger] all[j]).0 != all[i].0 by {
            assert(pairs@[j].0@ != pairs@[i].0@);
        }
        assert(r@.contains_key(all[i].0));
    }
    assert forall|key: Seq<char>| #[trigger] r@.contains_key(key) implies exists|i: int|
        0 <= i < pairs@.len() && (#[trigger] pairs@[i]).0@ == key by {
        let i = choose|i: int|
            0 <= i < all.len() && (#[trigger] all[i]).0 == key && all[i].1 == r@[key]@;
        assert(pairs@[i].0@ == key);
    }
}

/// A request is made of its parts, each for itself; none is dropped or changed.
pub proof fn requests_are_made_of_their_parts(
    req_id: String,
    method: u8,
    meta: RequestMeta,
    body: Vec<u8>,
    r: transport::Request,
)
    requires
        call_ensures(transport::Request::from_parts, (req_id, method, meta, body), r),
    ensures
        r.req_id@ == req_id@,
        r.method@ == (match method {
            1 => "POST"@,
            2 => "PUT"@,
            3 => "DELETE"@,
            4 => "PATCH"@,
            5 => "HEAD"@,
            6 => "OPTIONS"@,
            _ => "GET"@,
        }),
        r.path@ == meta.path@,
        r.route_pattern@ == meta.route_pattern@,
        types::optional(r.query) == types::optional(meta.query),
        r.query is Some <==> meta.query is Some,
        r.body@ == body@,
        forall|i: int|
            0 <= i < meta@.path_params.len() && (forall|j: int|
                i < j < meta@.path_params.len() ==> (#[trigger] meta@.path_params[j]).0
                    != meta@.path_params[i].0) ==> r.path_params@.contains_key(
                (#[trigger] meta@.path_params[i]).0,
            ) && r.path_params@[meta@.path_params[i].0]@ == meta@.path_params[i].1,
        forall|i: int|
            0 <= i < meta@.headers.len() && (forall|j: int|
                i < j < meta@.headers.len() ==> (#[trigger] meta@.headers[j]).0
                    != meta@.headers[i].0) ==> r.headers@.contains_key(
                (#[trigger] meta@.headers[i]).0,
            ) && r.headers@[meta@.headers[i].0]@ == meta@.headers[i].1,
{
    transport::requests_have_every_part(r, req_id@, method, meta@, body@);
}

/// A new bus has the configuration it was given, a region with that many slots,
/// nothing pending, and runs.
pub proof fn new_buses_are_empty<T, R>(
    config: SlotBusConfig,
    mapping: ShmRegion,
    mem: &mut [u8],
    r: Result<SlotBus<T, R>, SlotBusError>,
)
    requires
        call_ensures(SlotBus::<T, R>::create, (config, mapping, mem), r),
    ensures
        ({
            let start = 64 + 128 * config@.num_slots;
            let end = if config@.region_size >= start {
                config@.region_size as int
            } else {
                start as int
            };
            &&& r is Ok <==> end <= mapping@.len
            &&& r is Err ==> final(mem)@ == old(mem)@
            &&& r matches Ok(bus) ==> {
                &&& bus@.config == config@
                &&& bus@.region.name == mapping@.name
                &&& bus@.region.len == mapping@.len
                &&& bus@.region.num_slots == config@.num_slots
                &&& bus@.region.heap_offset == start
                &&& bus@.region.heap_size == end - start
                &&& bus@.pending == Map::<Seq<char>, (Seq<char>, T)>::empty()
                &&& bus@.overflow_regions == Map::<usize, R>::empty()
                &&& bus@.running
            }
        }),
{
}

/// A dispatch takes the first slot of status zero. Where there is none, it is refused
/// with the number of slots; where the id has more than 36 bytes or a zero byte, it is
/// refused too. Within the limits, and where the system grants what is asked of it, it
/// succeeds: the slot is ready, status 1, and the request is pending under its id with
/// its label and its ticket.
pub proof fn dispatches_take_the_first_free_slot<
    T,
    R,
    C: Fn(&str, usize, bool) -> Result<Option<R>, SlotBusError>,
    Q: Fn(&str) -> bool,
    F: Fn(&R, &str, &[u8]) -> Result<(), SlotBusError>,
>(
    bus: &mut SlotBus<T, R>,
    mem: &mut [u8],
    os: &Mapper<C, Q, F>,
    id: &str,
    method: &str,
    meta: &RequestMeta,
    body: &[u8],
    ticket: T,
    res: Result<usize, SlotBusError>,
    first: usize,
)
    requires
        old(bus)@.region.maps(old(mem)@),
        call_ensures(
            SlotBus::<T, R>::dispatch::<C, Q, F>,
            (bus, mem, os, id, method, meta, body, ticket),
            res,
        ),
    ensures
        (forall|j: nat|
            j < old(bus)@.region.num_slots ==> #[trigger] types::slot_status(old(mem)@, j) != 0) ==> {
            &&& res matches Err(e)
            &&& e@ == ErrorView::NoFreeSlots(old(bus)@.config.num_slots)
            &&& final(bus)@ == old(bus)@
            &&& final(mem)@ == old(mem)@
        },
        encode_utf8(id@).len() > 36 || encode_utf8(id@).contains(0) ==> {
            &&& res is Err
            &&& final(bus)@ == old(bus)@
            &&& final(mem)@ == old(mem)@
        },
        res matches Ok(slot) ==> {
            &&& slot < old(bus)@.region.num_slots
            &&& types::slot_status(old(mem)@, slot as nat) == 0
            &&& forall|j: nat| j < slot ==> #[trigger] types::slot_status(old(mem)@, j) != 0
            &&& types::slot_status(final(mem)@, slot as nat) == 1
            &&& final(bus)@.pending == old(bus)@.pending.insert(
                id@,
                (method@ + " "@ + meta.path@, ticket),
            )
        },
        first < old(bus)@.region.num_slots && types::slot_status(old(mem)@, first as nat) == 0
            && encode_utf8(id@).len() <= 36 && !encode_utf8(id@).contains(0)
            && codec::request_meta_bytes(meta@).len() <= old(bus)@.region.arena_size(Side::Request)
            && codec::request_meta_bytes(meta@).len() <= 65535 && body@.len() <= 4294967295 && (
        forall|n: &str, size: usize, again: bool, r: Result<Option<R>, SlotBusError>| #[trigger]
            os.create.ensures((n, size, again), r) ==> (r matches Ok(Some(_)))) && (forall|
            m: &R,
            n: &str,
            d: &[u8],
            r: Result<(), SlotBusError>,
        | #[trigger]
            os.fill.ensures((m, n, d), r) ==> r is Ok) ==> res is Ok,
{
    let before = old(bus)@;
    slots::ids_of_thirty_six_bytes_fit(id@);
    if let Ok(slot) = res {
        if !before.none_free(old(mem)@) && slots::id_fits(id@) {
            let claimed = region::with_status(old(mem)@, slot as nat, types::SLOT_WRITING);
            let done: Result<(), SlotBusError> = Ok(());
            assert(before.dispatched(
                final(bus)@,
                *os,
                slot,
                id@,
                method@,
                meta@,
                body@,
                ticket,
                claimed,
                final(mem)@,
                Some(types::SLOT_READY),
                Some(types::SLOT_FREE),
                done,
            ));
            let written = choose|written: Result<Option<R>, SlotBusError>|
                {
                    &&& #[trigger] slots::request_written(
                        before.region,
                        *os,
                        before.config,
                        slot as nat,
                        encode_utf8(id@),
                        types::method_code(method@),
                        codec::request_meta_bytes(meta@),
                        body@,
                        claimed,
                        final(mem)@,
                        Some(types::SLOT_READY),
                        Some(types::SLOT_FREE),
                        written,
                    )
                    &&& codec::request_meta_of(codec::request_meta_bytes(meta@)) == codec::decoded(
                        meta@,
                    )
                    &&& before.after_write(
                        final(bus)@,
                        slot,
                        id@,
                        transport::request_label(method@, meta@.path),
                        ticket,
                        written,
                        done,
                    )
                };
            laws::request_writes_settle_the_slot(
                before.region,
                *os,
                before.config,
                slot as nat,
                encode_utf8(id@),
                types::method_code(method@),
                codec::request_meta_bytes(meta@),
                body@,
                claimed,
                final(mem)@,
                Some(types::SLOT_READY),
                Some(types::SLOT_FREE),
                written,
            );
        }
    }
    if let Err(e) = res {
        if first < before.region.num_slots && types::slot_status(old(mem)@, first as nat) == 0
            && slots::id_fits(id@) && codec::request_meta_bytes(meta@).len()
            <= before.region.arena_size(Side::Request) && codec::request_meta_bytes(meta@).len()
            <= 65535 && body@.len() <= 4294967295 && (forall|
            n: &str,
            size: usize,
            again: bool,
            r: Result<Option<R>, SlotBusError>,
        | #[trigger]
            os.create.ensures((n, size, again), r) ==> (r matches Ok(Some(_)))) && (forall|
            m: &R,
            n: &str,
            d: &[u8],
            r: Result<(), SlotBusError>,
        | #[trigger]
            os.fill.ensures((m, n, d), r) ==> r is Ok) {
            let failed: Result<(), SlotBusError> = Err(e);
            let slot = choose|slot: usize|
                {
                    &&& #[trigger] before.first_free(old(mem)@, slot)
                    &&& before.dispatched(
                        final(bus)@,
                        *os,
                        slot,
                        id@,
                        method@,
                        meta@,
                        body@,
                        ticket,
                        region::with_status(old(mem)@, slot as nat, types::SLOT_WRITING),
                        final(mem)@,
                        Some(types::SLOT_READY),
                        Some(types::SLOT_FREE),
                        failed,
                    )
                };
            laws::dispatches_within_the_limits_succeed(
                before,
                final(bus)@,
                *os,
                slot,
                id@,
                method@,
                meta@,
                body@,
                ticket,
                region::with_status(old(mem)@, slot as nat, types::SLOT_WRITING),
                final(mem)@,
                Some(types::SLOT_READY),
                Some(types::SLOT_FREE),
                failed,
            );
        }
    }
}

/// Taking in a response hands it to the request that waits for it.
pub proof fn settled_responses_are_handed_out<T, R>(
    bus: &mut SlotBus<T, R>,
    slot: usize,
    id: &str,
    outcome: Result<(u16, ResponseMeta, Vec<u8>), SlotBusError>,
    r: Delivery<T>,
)
    requires
        call_ensures(SlotBus::<T, R>::settle, (bus, slot, id, outcome), r),
    ensures
        outcome matches Ok((status, meta, body)) ==> old(bus)@.pending.contains_key(id@) ==> {
            &&& r matches Delivery::Delivered { ticket, label, response }
            &&& ticket == old(bus)@.pending[id@].1
            &&& label@ == old(bus)@.pending[id@].0
            &&& response.status == status
            &&& response.body@ == body@
            &&& response.content_type@ == meta.content_type@
            &&& types::pairs(response.headers@) == types::pairs(meta.headers@)
            &&& final(bus)@.pending == old(bus)@.pending.remove(id@)
        },
        outcome is Ok && !old(bus)@.pending.contains_key(id@) ==> r is Unmatched
            && final(bus)@.pending == old(bus)@.pending,
        outcome matches Err(e) ==> r == Delivery::<T>::Unreadable(e) && final(bus)@.pending
            == old(bus)@.pending,
        final(bus)@.overflow_regions == old(bus)@.overflow_regions.remove(slot),
{
}

/// A slot is collected where its status is 3, and only there; its status is then
/// zero, and nothing else in memory changes.
pub proof fn done_slots_are_collected<
    T,
    R,
    O: Fn(&str) -> Result<Vec<u8>, SlotBusError>,
>(bus: &mut SlotBus<T, R>, mem: &mut [u8], open: &O, slot: usize, r: Delivery<T>)
    requires
        old(bus)@.region.maps(old(mem)@),
        slot < old(bus)@.region.num_slots,
        call_ensures(SlotBus::<T, R>::collect::<O>, (bus, mem, open, slot), r),
    ensures
        r is Idle <==> types::slot_status(old(mem)@, slot as nat) != 3,
        r is Idle ==> final(bus)@ == old(bus)@ && final(mem)@ == old(mem)@,
        !(r is Idle) ==> types::slot_status(final(mem)@, slot as nat) == 0,
        forall|i: int|
            0 <= i < old(mem)@.len() && !(64 + 128 * slot <= i < 64 + 128 * slot + 4)
                ==> #[trigger] final(mem)@[i] == old(mem)@[i],
{
    region::statuses_reach_their_bytes_alone(old(mem)@, slot as nat, 0);
}

/// The diagnostics list every slot, in order, with its status.
pub proof fn diagnostics_list_every_slot<T, R>(
    bus: &SlotBus<T, R>,
    mem: &[u8],
    r: Vec<(usize, u32)>,
    i: usize,
)
    requires
        call_ensures(SlotBus::<T, R>::slot_diagnostics, (bus, mem), r),
    ensures
        r@.len() == bus@.region.num_slots,
        i < r@.len() ==> r@[i as int].0 == i && r@[i as int].1 == bytes::u32_at(
            mem@,
            64 + 128 * i as int,
        ),
{
}

/// A bus and a worker show what they were made with.
pub proof fn sides_show_what_they_were_made_with<T, R>(
    bus: &SlotBus<T, R>,
    bus_config: &SlotBusConfig,
    bus_region: &ShmRegion,
    name: String,
    worker: &SlotWorker<R>,
    worker_config: &SlotBusConfig,
    worker_region: &ShmRegion,
)
    requires
        call_ensures(SlotBus::<T, R>::config, (bus,), bus_config),
        call_ensures(SlotBus::<T, R>::region, (bus,), bus_region),
        call_ensures(SlotBus::<T, R>::region_name, (bus,), name),
        call_ensures(SlotWorker::<R>::config, (worker,), worker_config),
        call_ensures(SlotWorker::<R>::region, (worker,), worker_region),
    ensures
        bus_config@ == bus@.config,
        bus_region@ == bus@.region,
        !bus@.config.limited_names ==> name@ == bus@.config.prefix + "-"@ + bus@.config.name,
        worker_config@ == worker@.config,
        worker_region@ == worker@.region,
{
    if !bus@.config.limited_names {
        config::names_are_prefix_and_name(bus@.config, 0, 0);
    }
}

/// A bus and a worker run until they are told to stop.
pub proof fn stopped_sides_do_not_run<T, R>(
    bus: &mut SlotBus<T, R>,
    worker: &mut SlotWorker<R>,
    bus_runs: bool,
    worker_runs: bool,
    stopped_bus: &SlotBus<T, R>,
    stopped_worker: &SlotWorker<R>,
)
    requires
        call_ensures(SlotBus::<T, R>::stop, (bus,), ()),
        call_ensures(SlotWorker::<R>::stop, (worker,), ()),
        *stopped_bus == *final(bus),
        *stopped_worker == *final(worker),
        call_ensures(SlotBus::<T, R>::is_running, (stopped_bus,), bus_runs),
        call_ensures(SlotWorker::<R>::is_running, (stopped_worker,), worker_runs),
    ensures
        !bus_runs,
        !worker_runs,
        final(bus)@.pending == old(bus)@.pending,
        final(bus)@.region == old(bus)@.region,
        final(worker)@.region == old(worker)@.region,
{
}

// ---- The worker --------------------------------------------------------------

/// A worker attaches to a region with the magic number, the version and a layout
/// that the mapping holds, and to no other.
pub proof fn workers_attach_to_valid_regions<R>(
    config: SlotBusConfig,
    mapping: ShmRegion,
    mem: &[u8],
    r: Result<SlotWorker<R>, SlotBusError>,
)
    requires
        call_ensures(SlotWorker::<R>::open, (config, mapping, mem), r),
    ensures
        ({
            let h = types::header_at(mem@);
            &&& r is Ok <==> h.magic == 0x534C4231 && h.version == 2 && h.heap_offset + h.heap_size
                <= mem@.len()
            &&& r matches Ok(worker) ==> {
                &&& worker@.config == config@
                &&& worker@.region.name == mapping@.name
                &&& worker@.region.len == mapping@.len
                &&& worker@.region.num_slots == h.num_slots
                &&& worker@.region.heap_offset == h.heap_offset
                &&& worker@.region.heap_size == h.heap_size
                &&& worker@.overflow_regions == Map::<usize, R>::empty()
                &&& worker@.running
            }
        }),
{
}

/// A request is received where the status of its slot is 1, and only there. Its slot
/// is then claimed, status 2, or, where the request could not be read, free, status
/// zero; nothing else in memory changes.
pub proof fn ready_slots_are_received<R, O: Fn(&str) -> Result<Vec<u8>, SlotBusError>>(
    worker: &SlotWorker<R>,
    mem: &mut [u8],
    open: &O,
    slot: usize,
    r: Received,
)
    requires
        worker@.region.maps(old(mem)@),
        slot < worker@.region.num_slots,
        call_ensures(SlotWorker::<R>::receive::<O>, (worker, mem, open, slot), r),
    ensures
        r is Idle <==> types::slot_status(old(mem)@, slot as nat) != 1,
        r is Idle ==> final(mem)@ == old(mem)@,
        r is Taken ==> types::slot_status(final(mem)@, slot as nat) == 2,
        r is Unreadable ==> types::slot_status(final(mem)@, slot as nat) == 0,
        forall|i: int|
            0 <= i < old(mem)@.len() && !(64 + 128 * slot <= i < 64 + 128 * slot + 4)
                ==> #[trigger] final(mem)@[i] == old(mem)@[i],
{
    region::statuses_reach_their_bytes_alone(old(mem)@, slot as nat, 2);
    let claimed = region::with_status(old(mem)@, slot as nat, 2);
    region::statuses_reach_their_bytes_alone(claimed, slot as nat, 0);
}

/// A response is sent within the limits where the system grants what is asked of it.
/// Its slot is then done, status 3, or, where that failed, free, status zero.
pub proof fn sent_responses_settle_the_slot<
    R,
    C: Fn(&str, usize, bool) -> Result<Option<R>, SlotBusError>,
    Q: Fn(&str) -> bool,
    F: Fn(&R, &str, &[u8]) -> Result<(), SlotBusError>,
>(
    worker: &mut SlotWorker<R>,
    mem: &mut [u8],
    os: &Mapper<C, Q, F>,
    slot: usize,
    status: u16,
    body: Vec<u8>,
    content_type: &str,
    headers: Vec<(String, String)>,
    res: Result<(), SlotBusError>,
)
    requires
        old(worker)@.region.maps(old(mem)@),
        slot < old(worker)@.region.num_slots,
        call_ensures(
            SlotWorker::<R>::send_response::<C, Q, F>,
            (worker, mem, os, slot, status, body, content_type, headers),
            res,
        ),
    ensures
        types::slot_status(final(mem)@, slot as nat) == (if res is Ok {
            3u32
        } else {
            0u32
        }),
        ({
            let meta = ResponseMetaView {
                content_type: content_type@,
                headers: types::pairs(headers@),
            };
            codec::response_meta_bytes(meta).len() <= old(worker)@.region.arena_size(Side::Response)
                && codec::response_meta_bytes(meta).len() <= 65535 && body@.len() <= 4294967295 && (
            forall|n: &str, size: usize, again: bool, r: Result<Option<R>, SlotBusError>| #[trigger]
                os.create.ensures((n, size, again), r) ==> (r matches Ok(Some(_)))) && (forall|
                m: &R,
                n: &str,
                d: &[u8],
                r: Result<(), SlotBusError>,
            | #[trigger]
                os.fill.ensures((m, n, d), r) ==> r is Ok) ==> res is Ok
        }),
{
    let meta = ResponseMetaView { content_type: content_type@, headers: types::pairs(headers@) };
    let before = old(worker)@;
    let written = choose|written: Result<Option<R>, SlotBusError>|
        {
            &&& #[trigger] slots::response_written(
                before.region,
                *os,
                before.config,
                slot as nat,
                status,
                codec::response_meta_bytes(meta),
                body@,
                old(mem)@,
                final(mem)@,
                Some(types::SLOT_DONE),
                Some(types::SLOT_FREE),
                written,
            )
            &&& codec::response_meta_of(codec::response_meta_bytes(meta)) == codec::decoded(meta)
            &&& before.after_write(final(worker)@, slot, written, res)
        };
    laws::response_writes_settle_the_slot(
        before.region,
        *os,
        before.config,
        slot as nat,
        status,
        codec::response_meta_bytes(meta),
        body@,
        old(mem)@,
        final(mem)@,
        Some(types::SLOT_DONE),
        Some(types::SLOT_FREE),
        written,
    );
    if codec::response_meta_bytes(meta).len() <= before.region.arena_size(Side::Response)
        && codec::response_meta_bytes(meta).len() <= 65535 && body@.len() <= 4294967295 && (forall|
        n: &str,
        size: usize,
        again: bool,
        r: Result<Option<R>, SlotBusError>,
    | #[trigger] os.create.ensures((n, size, again), r) ==> (r matches Ok(Some(_)))) && (forall|
        m: &R,
        n: &str,
        d: &[u8],
        r: Result<(), SlotBusError>,
    | #[trigger] os.fill.ensures((m, n, d), r) ==> r is Ok) {
        laws::responses_within_the_limits_are_sent(
            before,
            final(worker)@,
            *os,
            slot,
            status,
            meta,
            body@,
            old(mem)@,
            final(mem)@,
            Some(types::SLOT_DONE),
            Some(types::SLOT_FREE),
            res,
        );
    }
}

// ---- The hub -----------------------------------------------------------------

/// A worker's response reaches the client as it is, its status too where it has three
/// digits; a status without three digits becomes 500. Where no worker answered, the
/// client gets one of the hub's own statuses and a sentence that tells why.
pub proof fn replies_carry_the_outcome(outcome: Outcome, path: &str, secs: u64, r: Reply)
    requires
        call_ensures(hub::reply_to, (outcome, path, secs), r),
    ensures
        outcome matches Outcome::Answered(response) ==> {
            &&& r matches Reply::Full { status, content_type, headers, body }
            &&& 100 <= response.status <= 999 ==> status == response.status
            &&& response.status < 100 || response.status > 999 ==> status == 500
            &&& content_type@ == response.content_type@
            &&& headers@.len() == response.headers@.len()
            &&& forall|i: int|
                0 <= i < headers@.len() ==> (#[trigger] headers@[i]).0@
                    == response.headers@[i].0@ && headers@[i].1@ == response.headers@[i].1@
            &&& body@ == response.body@
        },
        outcome matches Outcome::BodyUnreadable(reason) ==> {
            &&& r matches Reply::Text { status, message }
            &&& status == 400
            &&& message@ == "Failed to read request body: "@ + reason@
        },
        outcome matches Outcome::DispatchFailed(e) ==> {
            &&& r matches Reply::Text { status, message }
            &&& status == 502
            &&& message@ == "SHM dispatch failed: "@ + e@.sentence()
        },
        outcome is Dropped ==> {
            &&& r matches Reply::Text { status, message }
            &&& status == 502
            &&& message@ == "Worker dropped the request"@
        },
        outcome is TimedOut ==> {
            &&& r matches Reply::Text { status, message }
            &&& status == 504
            &&& message@ == "Request to "@ + path@ + " timed out after "@ + text::decimal(
                secs as nat,
            ) + "s"@
        },
{
    if let Outcome::Answered(response) = outcome {
        if let Reply::Full { status, content_type, headers, body } = r {
            types::texts_are_their_characters(headers@, None);
            types::texts_are_their_characters(response.headers@, None);
            assert forall|i: int| 0 <= i < headers@.len() implies (#[trigger] headers@[i]).0@
                == response.headers@[i].0@ && headers@[i].1@ == response.headers@[i].1@ by {
                assert(types::pairs(headers@)[i] == types::pairs(response.headers@)[i]);
            }
        }
    }
}

/// The hub takes request bodies of ten times 1024 times 1024 bytes.
pub proof fn bodies_may_have_ten_mebibytes()
    ensures
        hub::MAX_BODY_BYTES == 10 * 1024 * 1024,
{
}

/// The headers of a request that can be read as text are kept, in order, and no
/// others.
pub proof fn readable_headers_stay(
    headers: Vec<(String, Option<String>)>,
    r: Vec<(String, String)>,
)
    requires
        call_ensures(hub::readable_headers, (headers,), r),
    ensures
        types::pairs(r@) == headers@.filter(
            |h: (String, Option<String>)| h.1 is Some,
        ).map_values(|h: (String, Option<String>)| (h.0@, h.1->Some_0@)),
        (forall|i: int| 0 <= i < headers@.len() ==> (#[trigger] headers@[i]).1 is Some)
            ==> r@.len() == headers@.len(),
{
    hub::readable_headers_are_kept(headers@);
    types::texts_are_their_characters(r@, None);
    if forall|i: int| 0 <= i < headers@.len() ==> (#[trigger] headers@[i]).1 is Some {
        hub::lemma_all_readable(headers@);
    }
}

/// A request goes to the worker of the first route that fits it.
pub proof fn planned_requests_go_to_the_first_fitting_route<B>(
    state: &HubState<B>,
    method: &str,
    path: &str,
    query: Option<String>,
    headers: Vec<(String, Option<String>)>,
    plan: Plan,
    i: int,
)
    requires
        call_ensures(HubState::<B>::plan_request, (state, method, path, query, headers), plan),
        0 <= i < state@.routes.len(),
        state@.routes[i].0 == method@,
        routes::route_matches(state@.routes[i].1, path@),
        forall|k: int|
            0 <= k < i ==> (#[trigger] state@.routes[k]).0 != method@ || !routes::route_matches(
                state@.routes[k].1,
                path@,
            ),
    ensures
        state@.workers.contains_key(state@.routes[i].2) ==> {
            &&& plan matches Plan::Forward { worker_id, req_id, meta }
            &&& worker_id@ == state@.routes[i].2
            &&& req_id@.len() == 36
            &&& meta.path@ == path@
            &&& meta.route_pattern@ == state@.routes[i].1
            &&& types::optional(meta.query) == types::optional(query)
            &&& types::pairs(meta.headers@) == headers@.filter(
                |h: (String, Option<String>)| h.1 is Some,
            ).map_values(|h: (String, Option<String>)| (h.0@, h.1->Some_0@))
            &&& forall|p: int| #[trigger]
                hub::captured_alone(state@.routes[i].1, p) ==> exists|k: int|
                    {
                        &&& 0 <= k < meta.path_params@.len()
                        &&& seq!['{'] + (#[trigger] meta.path_params@[k]).0@ + seq!['}']
                            == routes::split_path(state@.routes[i].1)[p]
                        &&& meta.path_params@[k].1@ == routes::split_path(path@)[p]
                    }
        },
        !state@.workers.contains_key(state@.routes[i].2) ==> {
            &&& plan matches Plan::Reject(Reply::Text { status, message })
            &&& status == 502
            &&& message@ == "Worker "@ + state@.routes[i].2 + " not found"@
        },
{
    hub::readable_headers_are_kept(headers@);
    hub::requests_go_to_the_first_fitting_route(
        state@,
        method@,
        path@,
        types::optional(query),
        hub::readable(headers@),
        plan,
        i,
    );
}

/// A request that no route fits is refused.
pub proof fn planned_requests_without_a_route_are_refused<B>(
    state: &HubState<B>,
    method: &str,
    path: &str,
    query: Option<String>,
    headers: Vec<(String, Option<String>)>,
    plan: Plan,
)
    requires
        call_ensures(HubState::<B>::plan_request, (state, method, path, query, headers), plan),
        forall|k: int|
            0 <= k < state@.routes.len() ==> (#[trigger] state@.routes[k]).0 != method@
                || !routes::route_matches(state@.routes[k].1, path@),
    ensures
        plan matches Plan::Reject(Reply::Text { status, message }) && status == 502 && message@
            == "No worker registered for "@ + method@ + " "@ + path@,
{
    hub::requests_without_a_route_are_refused(
        state@,
        method@,
        path@,
        types::optional(query),
        hub::readable(headers@),
        plan,
    );
}

/// A worker with a plain name is registered where its bus can be made: with every
/// route that it asks for, behind those of the workers of other names.
pub proof fn registered_workers_get_every_route<
    B,
    C: Fn(&SlotBusConfig) -> Result<B, SlotBusError>,
>(
    state: &mut HubState<B>,
    worker_id: String,
    req: RegisterRequest,
    create: &C,
    r: Result<RegisterResponse, Reply>,
)
    requires
        call_ensures(HubState::<B>::register_as::<C>, (state, worker_id, req, create), r),
    ensures
        r matches Ok(response) ==> {
            let kept = old(state)@.routes.filter(
                |route: hub::RouteView|
                    !(old(state)@.workers.contains_key(route.2) && old(state)@.workers[route.2].name@
                        == req.name@),
            );
            &&& response.worker_id@ == worker_id@
            &&& final(state)@.workers.contains_key(worker_id@)
            &&& final(state)@.workers[worker_id@].name@ == req.name@
            &&& final(state)@.workers[worker_id@].routes@ == req.routes@
            &&& final(state)@.routes.len() == kept.len() + req.routes@.len()
            &&& forall|i: int|
                0 <= i < req.routes@.len() ==> {
                    &&& final(state)@.routes[kept.len() + i].0 == (#[trigger] req.routes@[i]).method@
                    &&& final(state)@.routes[kept.len() + i].1 == req.routes@[i].path@
                    &&& final(state)@.routes[kept.len() + i].2 == worker_id@
                }
        },
        req.name@.len() > 0 && req.name@ != "."@ && req.name@ != ".."@ && (forall|i: int|
            0 <= i < req.name@.len() ==> #[trigger] req.name@[i] != '/' && req.name@[i] != '\\') && (
        req.name@.len() < 2 || req.name@[1] != ':' || !('a' <= req.name@[0] <= 'z' || 'A'
            <= req.name@[0] <= 'Z')) && (forall|c: &SlotBusConfig, made: Result<B, SlotBusError>|
         #[trigger]
            create.ensures((c,), made) ==> made is Ok) ==> r is Ok,
        r is Err ==> forall|id: Seq<char>| #[trigger]
            final(state)@.workers.contains_key(id) ==> old(state)@.workers.contains_key(id),
{
    match r {
        Ok(response) => {
            hub::registrations_add_every_route(
                old(state)@,
                final(state)@,
                worker_id@,
                req,
                *create,
                response,
            );
        },
        Err(reply) => {
            hub::failed_registrations_add_nothing(
                old(state)@,
                final(state)@,
                worker_id@,
                req,
                *create,
                reply,
            );
        },
    }
    if req.name@.len() > 0 && req.name@ != "."@ && req.name@ != ".."@ && (forall|i: int|
        0 <= i < req.name@.len() ==> #[trigger] req.name@[i] != '/' && req.name@[i] != '\\') && (
    req.name@.len() < 2 || req.name@[1] != ':' || !('a' <= req.name@[0] <= 'z' || 'A' <= req.name@[0]
        <= 'Z')) && (forall|c: &SlotBusConfig, made: Result<B, SlotBusError>| #[trigger]
        create.ensures((c,), made) ==> made is Ok) {
        hub::plain_names_are_registered(
            old(state)@,
            final(state)@,
            worker_id@,
            req,
            *create,
            r,
        );
    }
}

/// A hub's health lists every worker once, with its name, its number of routes and
/// its region.
pub proof fn health_lists_every_worker<B>(
    state: &HubState<B>,
    r: HealthResponse,
    id: Seq<char>,
)
    requires
        state.wf(),
        call_ensures(HubState::<B>::health, (state,), r),
    ensures
        r.ok,
        state@.workers.contains_key(id) ==> exists|i: int|
            {
                &&& 0 <= i < r.workers@.len()
                &&& (#[trigger] r.workers@[i]).worker_id@ == id
                &&& r.workers@[i].name@ == state@.workers[id].name@
                &&& r.workers@[i].route_count == state@.workers[id].routes@.len()
                &&& r.workers@[i].transport@ == "shm:"@ + state@.workers[id].region_name@
            },
        forall|i: int|
            0 <= i < r.workers@.len() ==> state@.workers.contains_key(
                (#[trigger] r.workers@[i]).worker_id@,
            ),
{
    state.workers_are_listed_once();
    if state@.workers.contains_key(id) {
        let i = choose|i: int|
            0 <= i < state.listed().len() && #[trigger] state.listed()[i] == (
                id,
                state@.workers[id],
            );
        assert(r.workers@[i].worker_id@ == id);
    }
    assert forall|i: int| 0 <= i < r.workers@.len() implies state@.workers.contains_key(
        (#[trigger] r.workers@[i]).worker_id@,
    ) by {
        assert(state@.workers.contains_key(state.listed()[i].0));
    }
}

/// An event is passed on as it came, and a worker's bus is found under its id.
pub proof fn events_and_buses_are_passed_on<B>(
    event: WorkerEvent,
    passed: HubEvent,
    state: &HubState<B>,
    id: &str,
    bus: Option<&B>,
    config: HubConfig,
    fresh: HubState<B>,
)
    requires
        call_ensures(hub::hub_event, (event,), passed),
        call_ensures(HubState::<B>::bus, (state, id), bus),
        call_ensures(HubState::<B>::new, (config,), fresh),
    ensures
        passed.source@ == event.source@,
        passed.event_type@ == event.event_type@,
        passed.data@ == event.data@,
        bus is Some <==> state@.workers.contains_key(id@),
        bus matches Some(b) ==> *b == state@.workers[id@].bus,
        fresh@.workers == Map::<Seq<char>, hub::WorkerRecord<B>>::empty(),
        fresh@.routes.len() == 0,
        fresh@.config == config,
{
}

// ---- Tables and copies -------------------------------------------------------

/// A table gives back what was inserted last under a key, knows nothing else by it,
/// keeps every other key, and gives out and forgets what is removed.
pub proof fn tables_give_back_what_was_inserted<V>(
    empty: Table<V>,
    table: &mut Table<V>,
    key: String,
    value: V,
    filled: &mut Table<V>,
    gone: &str,
    removed: Option<V>,
    asked: &Table<V>,
    other: &str,
    found: Option<&V>,
)
    requires
        call_ensures(Table::<V>::new, (), empty),
        call_ensures(Table::<V>::insert, (table, key, value), ()),
        call_ensures(Table::<V>::remove, (filled, gone), removed),
        call_ensures(Table::<V>::get, (asked, other), found),
    ensures
        forall|k: Seq<char>| !#[trigger] empty@.contains_key(k),
        final(table)@.contains_key(key@),
        final(table)@[key@] == value,
        forall|k: Seq<char>|
            k != key@ ==> (#[trigger] final(table)@.contains_key(k) <==> old(table)@.contains_key(k))
                && final(table)@[k] == old(table)@[k],
        removed is Some <==> old(filled)@.contains_key(gone@),
        removed matches Some(v) ==> v == old(filled)@[gone@],
        !final(filled)@.contains_key(gone@),
        forall|k: Seq<char>|
            k != gone@ ==> (#[trigger] final(filled)@.contains_key(k)
                <==> old(filled)@.contains_key(k)) && final(filled)@[k] == old(filled)@[k],
        found is Some <==> asked@.contains_key(other@),
        found matches Some(v) ==> *v == asked@[other@],
{
}

/// A table lists each of its keys once, with its value.
pub proof fn tables_list_their_entries<V>(
    table: &Table<V>,
    len: usize,
    i: usize,
    key: &str,
    value: &V,
    sought: Seq<char>,
)
    requires
        table.wf(),
        call_ensures(Table::<V>::len, (table,), len),
        i < len ==> call_ensures(Table::<V>::key, (table, i), key),
        i < len ==> call_ensures(Table::<V>::value, (table, i), value),
    ensures
        i < len ==> table@.contains_key(key@) && table@[key@] == *value,
        table@.contains_key(sought) ==> exists|k: int|
            0 <= k < len && (#[trigger] table.list()[k]).0 == sought,
{
    if i < len {
        table.lemma_listed(i as int);
    }
    if table@.contains_key(sought) {
        let k = table.lemma_in_list(sought);
        assert(table.list()[k].0 == sought);
    }
}

/// A configuration and metadata are cloned field by field, and a configuration that
/// nobody has told anything has the defaults.
pub proof fn clones_are_the_same(
    c: &SlotBusConfig,
    c2: SlotBusConfig,
    request: &RequestMeta,
    request2: RequestMeta,
    response: &ResponseMeta,
    response2: ResponseMeta,
    standard: SlotBusConfig,
)
    requires
        call_ensures(<SlotBusConfig as Clone>::clone, (c,), c2),
        call_ensures(<RequestMeta as Clone>::clone, (request,), request2),
        call_ensures(<ResponseMeta as Clone>::clone, (response,), response2),
        call_ensures(<SlotBusConfig as Default>::default, (), standard),
    ensures
        c2.name@ == c.name@,
        c2.prefix@ == c.prefix@,
        c2.num_slots == c.num_slots,
        c2.region_size == c.region_size,
        c2.wait_timeout_ms == c.wait_timeout_ms,
        c2.instrumentation == c.instrumentation,
        c2.limited_names == c.limited_names,
        request2.path@ == request.path@,
        request2.route_pattern@ == request.route_pattern@,
        types::pairs(request2.path_params@) == types::pairs(request.path_params@),
        types::optional(request2.query) == types::optional(request.query),
        types::pairs(request2.headers@) == types::pairs(request.headers@),
        response2.content_type@ == response.content_type@,
        types::pairs(response2.headers@) == types::pairs(response.headers@),
        standard.name@.len() == 0,
        standard.prefix@ == "slotbus"@,
        standard.num_slots == 32,
        standard.region_size == 1048576,
        standard.wait_timeout_ms == 5000,
        !standard.instrumentation,
        !standard.limited_names,
{
    config::configurations_are_their_fields(*c);
    config::configurations_are_their_fields(c2);
    config::configurations_are_their_fields(standard);
    types::metadata_is_its_fields(*request, *response);
    types::metadata_is_its_fields(request2, response2);
}

// ---- One step at a time ------------------------------------------------------

/// Placing a request leaves the status of its slot to the caller; otherwise it comes
/// to the same as writing it.
pub proof fn placed_requests_keep_the_status<
    R,
    C: Fn(&str, usize, bool) -> Result<Option<R>, SlotBusError>,
    Q: Fn(&str) -> bool,
    F: Fn(&R, &str, &[u8]) -> Result<(), SlotBusError>,
>(
    region: &ShmRegion,
    mem: &mut [u8],
    os: &Mapper<C, Q, F>,
    slot: usize,
    id: &str,
    method: u8,
    meta: &[u8],
    body: &[u8],
    config: &SlotBusConfig,
    res: Result<Option<R>, SlotBusError>,
)
    requires
        region@.maps(old(mem)@),
        slot < region@.num_slots,
        region@.side_is_addressable(Side::Request, slot as nat),
        call_ensures(
            slots::place_request::<R, C, Q, F>,
            (region, mem, os, slot, id, method, meta, body, config),
            res,
        ),
    ensures
        forall|other: nat|
            other < region@.num_slots ==> #[trigger] types::slot_status(final(mem)@, other)
                == types::slot_status(old(mem)@, other),
        res is Ok ==> {
            let at: int = 64 + 128 * slot as int;
            let arena: int = region@.heap_offset as int + region@.arena_base(
                Side::Request,
                slot as nat,
            );
            let data = encode_utf8(id@);
            &&& forall|k: int|
                0 <= k < 36 && k < data.len() ==> final(mem)@[at + 4 + k] == #[trigger] data[k]
            &&& final(mem)@[at + 40] == method
            &&& bytes::u16_at(final(mem)@, at + 48) == meta@.len()
            &&& bytes::u32_at(final(mem)@, at + 56) == body@.len()
            &&& forall|i: int|
                0 <= i < meta@.len() ==> final(mem)@[arena + i] == #[trigger] meta@[i]
        },
        meta@.len() <= region@.arena_size(Side::Request) && meta@.len() <= 65535 && body@.len()
            <= 4294967295 && (body@.len() == 0 || (meta@.len() + 7) / 8 * 8 + body@.len()
            <= region@.arena_size(Side::Request)) ==> (res matches Ok(None)),
{
    let data = encode_utf8(id@);
    laws::request_writes_settle_the_slot(
        region@,
        *os,
        config@,
        slot as nat,
        data,
        method,
        meta@,
        body@,
        old(mem)@,
        final(mem)@,
        None,
        None,
        res,
    );
    if res is Ok {
        laws::written_requests_lie_where_they_belong(
            region@,
            *os,
            config@,
            slot as nat,
            data,
            method,
            meta@,
            body@,
            old(mem)@,
            final(mem)@,
            None,
            None,
            res,
        );
    }
}

/// Placing a response leaves the status of its slot to the caller; otherwise it comes
/// to the same as writing it.
pub proof fn placed_responses_keep_the_status<
    R,
    C: Fn(&str, usize, bool) -> Result<Option<R>, SlotBusError>,
    Q: Fn(&str) -> bool,
    F: Fn(&R, &str, &[u8]) -> Result<(), SlotBusError>,
>(
    region: &ShmRegion,
    mem: &mut [u8],
    os: &Mapper<C, Q, F>,
    slot: usize,
    status: u16,
    meta: &[u8],
    body: &[u8],
    config: &SlotBusConfig,
    res: Result<Option<R>, SlotBusError>,
)
    requires
        region@.maps(old(mem)@),
        slot < region@.num_slots,
        region@.side_is_addressable(Side::Response, slot as nat),
        call_ensures(
            slots::place_response::<R, C, Q, F>,
            (region, mem, os, slot, status, meta, body, config),
            res,
        ),
    ensures
        forall|other: nat|
            other < region@.num_slots ==> #[trigger] types::slot_status(final(mem)@, other)
                == types::slot_status(old(mem)@, other),
        res is Ok ==> {
            let at: int = 64 + 128 * slot as int;
            let arena: int = region@.heap_offset as int + region@.arena_base(
                Side::Response,
                slot as nat,
            );
            &&& bytes::u16_at(final(mem)@, at + 64) == status
            &&& bytes::u16_at(final(mem)@, at + 72) == meta@.len()
            &&& bytes::u32_at(final(mem)@, at + 80) == body@.len()
            &&& forall|i: int|
                0 <= i < meta@.len() ==> final(mem)@[arena + i] == #[trigger] meta@[i]
        },
        meta@.len() <= region@.arena_size(Side::Response) && meta@.len() <= 65535 && body@.len()
            <= 4294967295 && (body@.len() == 0 || (meta@.len() + 7) / 8 * 8 + body@.len()
            <= region@.arena_size(Side::Response)) ==> (res matches Ok(None)),
{
    laws::response_writes_settle_the_slot(
        region@,
        *os,
        config@,
        slot as nat,
        status,
        meta@,
        body@,
        old(mem)@,
        final(mem)@,
        None,
        None,
        res,
    );
    if res is Ok {
        laws::written_responses_lie_where_they_belong(
            region@,
            *os,
            config@,
            slot as nat,
            status,
            meta@,
            body@,
            old(mem)@,
            final(mem)@,
            None,
            None,
            res,
        );
    }
}

/// A response that was written is read back from the slot, part by part, by the hub
/// and from the slot itself.
pub proof fn written_responses_are_read_back<
    T,
    R,
    C: Fn(&str, usize, bool) -> Result<Option<R>, SlotBusError>,
    Q: Fn(&str) -> bool,
    F: Fn(&R, &str, &[u8]) -> Result<(), SlotBusError>,
    O: Fn(&str) -> Result<Vec<u8>, SlotBusError>,
>(
    region: &ShmRegion,
    mem: &mut [u8],
    os: &Mapper<C, Q, F>,
    slot: usize,
    status: u16,
    meta: &ResponseMeta,
    data: Vec<u8>,
    data_slice: &[u8],
    body: &[u8],
    config: &SlotBusConfig,
    handle: Option<R>,
    seen: &[u8],
    open: &O,
    read: Result<(u16, ResponseMeta, Vec<u8>), SlotBusError>,
    bus: &SlotBus<T, R>,
    peeked: (String, Result<(u16, ResponseMeta, Vec<u8>), SlotBusError>),
)
    requires
        region@.maps(old(mem)@),
        region@.side_is_addressable(Side::Response, slot as nat),
        call_ensures(codec::encode_response_meta, (meta,), Ok(data)),
        data_slice@ == data@,
        call_ensures(
            slots::write_response::<R, C, Q, F>,
            (region, mem, os, slot, status, data_slice, body, config),
            Ok(handle),
        ),
        seen@ == final(mem)@,
        laws::overflow_holds(*open, config@, seen@, Side::Response, slot as nat, body@),
        call_ensures(slots::read_response::<O>, (region, seen, open, slot, config), read),
        bus@.region == region@,
        bus@.config == config@,
        call_ensures(SlotBus::<T, R>::peek_response::<O>, (bus, seen, open, slot), peeked),
    ensures
        read matches Ok((status2, meta2, body2)) && {
            &&& status2 == status
            &&& meta2.content_type@ == meta.content_type@
            &&& types::pairs(meta2.headers@) == types::pairs(meta.headers@)
            &&& body2@ == body@
        },
        peeked.1 matches Ok((status2, meta2, body2)) && {
            &&& status2 == status
            &&& meta2.content_type@ == meta.content_type@
            &&& types::pairs(meta2.headers@) == types::pairs(meta.headers@)
            &&& body2@ == body@
        },
        peeked.0@ == codec::id_text(
            seen@.subrange(64 + 128 * slot as int + 4, 64 + 128 * slot as int + 40),
        ),
{
    laws::lemma_same_side_refl(region@, final(mem)@, Side::Response, slot as nat);
    laws::responses_round_trip(
        region@,
        *os,
        config@,
        config@,
        slot as nat,
        status,
        data@,
        meta@,
        body@,
        old(mem)@,
        final(mem)@,
        Some(types::SLOT_DONE),
        None,
        Ok(handle),
        seen@,
        *open,
        read,
    );
    laws::responses_round_trip(
        region@,
        *os,
        config@,
        config@,
        slot as nat,
        status,
        data@,
        meta@,
        body@,
        old(mem)@,
        final(mem)@,
        Some(types::SLOT_DONE),
        None,
        Ok(handle),
        seen@,
        *open,
        peeked.1,
    );
}

/// A request that the hub put into a slot is what the worker takes from it, part by
/// part, for as long as nothing else writes to the request side of the slot and an
/// overflow region still holds the body.
pub proof fn taken_requests_are_those_dispatched<
    T,
    R,
    W,
    C: Fn(&str, usize, bool) -> Result<Option<R>, SlotBusError>,
    Q: Fn(&str) -> bool,
    F: Fn(&R, &str, &[u8]) -> Result<(), SlotBusError>,
    O: Fn(&str) -> Result<Vec<u8>, SlotBusError>,
>(
    bus: &mut SlotBus<T, R>,
    mem: &mut [u8],
    os: &Mapper<C, Q, F>,
    slot: usize,
    id: &str,
    method: &str,
    meta: &RequestMeta,
    body: &[u8],
    ticket: T,
    worker: &SlotWorker<W>,
    seen: &[u8],
    open: &O,
    taken: Result<transport::Request, SlotBusError>,
)
    requires
        old(bus)@.region.maps(old(mem)@),
        old(bus)@.region.side_is_addressable(Side::Request, slot as nat),
        encode_utf8(id@).len() <= 36,
        !encode_utf8(id@).contains(0),
        call_ensures(
            SlotBus::<T, R>::dispatch_into::<C, Q, F>,
            (bus, mem, os, slot, id, method, meta, body, ticket),
            Ok(()),
        ),
        worker@.region == old(bus)@.region,
        old(bus)@.region.same_side(final(mem)@, seen@, Side::Request, slot as nat),
        laws::overflow_holds(*open, worker@.config, seen@, Side::Request, slot as nat, body@),
        call_ensures(SlotWorker::<W>::take_request::<O>, (worker, seen, open, slot), taken),
    ensures
        taken matches Ok(request) && {
            &&& request.req_id@ == id@
            &&& request.method@ == (if method@ == "POST"@ || method@ == "PUT"@ || method@
                == "DELETE"@ || method@ == "PATCH"@ || method@ == "HEAD"@ || method@ == "OPTIONS"@ {
                method@
            } else {
                "GET"@
            })
            &&& request.path@ == meta.path@
            &&& request.route_pattern@ == meta.route_pattern@
            &&& types::optional(request.query) == types::optional(meta.query)
            &&& request.body@ == body@
        },
        final(bus)@.pending == old(bus)@.pending.insert(
            id@,
            (method@ + " "@ + meta.path@, ticket),
        ),
{
    slots::ids_of_thirty_six_bytes_fit(id@);
    laws::dispatched_requests_arrive(
        old(bus)@,
        final(bus)@,
        *os,
        slot,
        id@,
        method@,
        meta@,
        body@,
        ticket,
        old(mem)@,
        final(mem)@,
        None,
        None,
        worker@.config,
        seen@,
        *open,
        taken,
    );
}

/// A response that the worker put into a slot is what the hub hands out, part by part,
/// to the request that waits for it.
pub proof fn settled_responses_are_those_sent<
    T,
    R,
    C: Fn(&str, usize, bool) -> Result<Option<R>, SlotBusError>,
    Q: Fn(&str) -> bool,
    F: Fn(&R, &str, &[u8]) -> Result<(), SlotBusError>,
    O: Fn(&str) -> Result<Vec<u8>, SlotBusError>,
>(
    worker: &mut SlotWorker<R>,
    mem: &mut [u8],
    os: &Mapper<C, Q, F>,
    slot: usize,
    status: u16,
    body: Vec<u8>,
    content_type: &str,
    headers: Vec<(String, String)>,
    watcher: &SlotBus<T, R>,
    bus: &mut SlotBus<T, R>,
    seen: &[u8],
    open: &O,
    peeked: (String, Result<(u16, ResponseMeta, Vec<u8>), SlotBusError>),
    id: &str,
    delivery: Delivery<T>,
)
    requires
        old(worker)@.region.maps(old(mem)@),
        old(worker)@.region.side_is_addressable(Side::Response, slot as nat),
        call_ensures(
            SlotWorker::<R>::respond_into::<C, Q, F>,
            (worker, mem, os, slot, status, body, content_type, headers),
            Ok(()),
        ),
        *watcher == *old(bus),
        old(bus)@.region == old(worker)@.region,
        old(bus)@.region.same_side(final(mem)@, seen@, Side::Response, slot as nat),
        laws::overflow_holds(*open, old(bus)@.config, seen@, Side::Response, slot as nat, body@),
        call_ensures(SlotBus::<T, R>::peek_response::<O>, (watcher, seen, open, slot), peeked),
        id@ == peeked.0@,
        old(bus)@.pending.contains_key(id@),
        call_ensures(SlotBus::<T, R>::settle, (bus, slot, id, peeked.1), delivery),
    ensures
        delivery matches Delivery::Delivered { ticket, label, response } && {
            &&& ticket == old(bus)@.pending[id@].1
            &&& label@ == old(bus)@.pending[id@].0
            &&& response.status == status
            &&& response.body@ == body@
            &&& response.content_type@ == content_type@
            &&& types::pairs(response.headers@) == types::pairs(headers@)
        },
        final(bus)@.pending == old(bus)@.pending.remove(id@),
{
    let meta = ResponseMetaView { content_type: content_type@, headers: types::pairs(headers@) };
    laws::responses_reach_their_request(
        old(worker)@,
        final(worker)@,
        *os,
        slot,
        status,
        meta,
        body@,
        old(mem)@,
        final(mem)@,
        None,
        None,
        old(bus)@,
        final(bus)@,
        seen@,
        *open,
        peeked.1,
        delivery,
    );
}

/// A worker that registers itself gets a fresh id, a UUID, and every route that it
/// asks for under this id.
pub proof fn registering_workers_get_an_id<
    B,
    C: Fn(&SlotBusConfig) -> Result<B, SlotBusError>,
>(
    state: &mut HubState<B>,
    req: RegisterRequest,
    create: &C,
    r: Result<RegisterResponse, Reply>,
)
    requires
        call_ensures(HubState::<B>::register_worker::<C>, (state, req, create), r),
    ensures
        r matches Ok(response) ==> {
            let id = response.worker_id@;
            let kept = old(state)@.routes.filter(
                |route: hub::RouteView|
                    !(old(state)@.workers.contains_key(route.2) && old(state)@.workers[route.2].name@
                        == req.name@),
            );
            &&& id.len() == 36
            &&& final(state)@.workers.contains_key(id)
            &&& final(state)@.workers[id].name@ == req.name@
            &&& final(state)@.routes.len() == kept.len() + req.routes@.len()
            &&& forall|i: int|
                0 <= i < req.routes@.len() ==> {
                    &&& final(state)@.routes[kept.len() + i].0 == (#[trigger] req.routes@[i]).method@
                    &&& final(state)@.routes[kept.len() + i].1 == req.routes@[i].path@
                    &&& final(state)@.routes[kept.len() + i].2 == id
                }
        },
{
    if let Ok(response) = r {
        hub::registrations_add_every_route(
            old(state)@,
            final(state)@,
            response.worker_id@,
            req,
            *create,
            response,
        );
    }
}

// ---- What can be asked -------------------------------------------------------

/// A system whose functions can be called with anything can be handed to every
/// operation, whatever the request or the response.
pub proof fn willing_systems_serve_every_operation<
    T,
    R,
    C: Fn(&str, usize, bool) -> Result<Option<R>, SlotBusError>,
    Q: Fn(&str) -> bool,
    F: Fn(&R, &str, &[u8]) -> Result<(), SlotBusError>,
    O: Fn(&str) -> Result<Vec<u8>, SlotBusError>,
>(
    bus: transport::BusView<T, R>,
    worker: crate::worker::WorkerView<R>,
    os: Mapper<C, Q, F>,
    open: O,
    slot: usize,
    id: Seq<char>,
    request: types::RequestMetaView,
    response: ResponseMetaView,
    body: Seq<u8>,
    mem: Seq<u8>,
    side: Side,
    name: Seq<char>,
    size: usize,
)
    requires
        forall|n: &str, s: usize, again: bool| #[trigger] os.create.requires((n, s, again)),
        forall|n: &str| #[trigger] os.reclaim.requires((n,)),
        forall|m: &R, n: &str, d: &[u8]| #[trigger] os.fill.requires((m, n, d)),
        forall|n: &str| #[trigger] open.requires((n,)),
    ensures
        overflow::can_create::<R, C, Q>(os.create, os.reclaim, name, size),
        overflow::can_make::<R, C, Q, F>(os, name, body),
        overflow::can_open::<Vec<u8>, O>(open, name),
        bus.can_dispatch(os, slot, id, request, body),
        worker.can_respond(os, slot, response, body),
        slots::can_read_body(mem, open, bus.config, side, slot as nat),
{
    overflow::willing_systems_can_be_searched::<R, C, Q, F>(
        os,
        overflow::names_of_slot(bus.config, Side::Request, slot as nat),
        body,
    );
    overflow::willing_systems_can_be_searched::<R, C, Q, F>(
        os,
        overflow::names_of_slot(worker.config, Side::Response, slot as nat),
        body,
    );
}

/// Replies, plans, matches, names and texts can be asked for without conditions, but
/// for the form of what they are asked of.
pub proof fn most_questions_can_always_be_asked<B>(
    outcome: Outcome,
    path: &str,
    secs: u64,
    state: &HubState<B>,
    method: &str,
    query: Option<String>,
    headers: Vec<(String, Option<String>)>,
    id: &str,
    event: WorkerEvent,
    pairs: Vec<(String, String)>,
    req_id: String,
    code: u8,
    meta: RequestMeta,
    body: Vec<u8>,
    c: &SlotBusConfig,
    limited: bool,
    mem: &mut [u8],
    data: &[u8],
)
    ensures
        call_requires(hub::reply_to, (outcome, path, secs)),
        state.wf() ==> call_requires(
            HubState::<B>::plan_request,
            (state, method, path, query, headers),
        ),
        state.wf() ==> call_requires(HubState::<B>::health, (state,)),
        state.wf() ==> call_requires(HubState::<B>::bus, (state, id)),
        call_requires(hub::readable_headers, (headers,)),
        call_requires(hub::hub_event, (event,)),
        call_requires(routes::match_route, (method, path)),
        call_requires(transport::collect_pairs, (pairs,)),
        call_requires(transport::Request::from_parts, (req_id, code, meta, body)),
        call_requires(types::method_to_u8, (method,)),
        call_requires(types::u8_to_method, (code,)),
        call_requires(config::sanitize_os_name, (path, limited)),
        call_requires(SlotBusConfig::region_name, (c,)),
        call_requires(backing::is_plain_name, (path,)),
        call_requires(backing::backing_file_name, (path,)),
        call_requires(events::semaphore_name, (path,)),
        call_requires(codec::decode_id, (data,)),
        call_requires(codec::decode_request_meta, (data,)),
        call_requires(codec::decode_response_meta, (data,)),
        call_requires(ShmRegion::fill_overflow, (mem, path, data)),
{
}

/// Requests and responses can be written, and slots read, wherever the memory is that
/// of the region and the system's functions can be called with anything; a body may
/// have any length that leaves room for rounding it up to whole pages.
pub proof fn willing_systems_can_be_asked<
    T,
    R,
    C: Fn(&str, usize, bool) -> Result<Option<R>, SlotBusError>,
    Q: Fn(&str) -> bool,
    F: Fn(&R, &str, &[u8]) -> Result<(), SlotBusError>,
    O: Fn(&str) -> Result<Vec<u8>, SlotBusError>,
>(
    bus: &mut SlotBus<T, R>,
    mem: &mut [u8],
    os: &Mapper<C, Q, F>,
    id: &str,
    method: &str,
    meta: &RequestMeta,
    body: &[u8],
    ticket: T,
    region: &ShmRegion,
    slot: usize,
    config: &SlotBusConfig,
    open: &O,
    seen: &[u8],
    code: u8,
    status: u16,
    data: &[u8],
)
    requires
        forall|n: &str, s: usize, again: bool| #[trigger] os.create.requires((n, s, again)),
        forall|n: &str| #[trigger] os.reclaim.requires((n,)),
        forall|m: &R, n: &str, d: &[u8]| #[trigger] os.fill.requires((m, n, d)),
        forall|n: &str| #[trigger] open.requires((n,)),
        old(bus).wf(),
        old(bus)@.region.maps(old(mem)@),
        region@.maps(old(mem)@),
        seen@ == old(mem)@,
        body@.len() + 4095 <= usize::MAX,
    ensures
        call_requires(
            SlotBus::<T, R>::dispatch::<C, Q, F>,
            (bus, mem, os, id, method, meta, body, ticket),
        ),
        call_requires(
            slots::write_request::<R, C, Q, F>,
            (region, mem, os, slot, id, code, data, body, config),
        ),
        call_requires(
            slots::write_response::<R, C, Q, F>,
            (region, mem, os, slot, status, data, body, config),
        ),
        slot < region@.num_slots ==> call_requires(
            slots::read_request::<O>,
            (region, seen, open, slot, config),
        ),
        slot < region@.num_slots ==> call_requires(
            slots::read_response::<O>,
            (region, seen, open, slot, config),
        ),
{
    assert forall|side: Side, s: nat, c: config::ConfigView| #[trigger]
        overflow::can_search::<R, C, Q, F>(*os, overflow::names_of_slot(c, side, s), body@) by {
        overflow::willing_systems_can_be_searched::<R, C, Q, F>(
            *os,
            overflow::names_of_slot(c, side, s),
            body@,
        );
    }
}

} // verus!
