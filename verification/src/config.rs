//! Configuration of a bus, and the OS-level names that follow from it.

use vstd::prelude::*;
use vstd::string::StringExecFns;
use vstd::utf8::*;

use crate::text;

verus! {

// ---- Short OS names ----------------------------------------------------------

/// The 64-bit FNV-1a hash of `bytes`.
pub open spec fn fnv1a(bytes: Seq<u8>) -> u64
    decreases bytes.len(),
{
    if bytes.len() == 0 {
        0xcbf29ce484222325
    } else {
        let mixed = fnv1a(bytes.drop_last()) ^ (bytes.last() as u64);
        ((mixed * 0x100000001b3) % 0x1_0000_0000_0000_0000) as u64
    }
}

/// The digit `d` in base 62: `0-9`, then `A-Z`, then `a-z`.
pub open spec fn base62_char(d: nat) -> char {
    if d < 10 {
        (48 + d) as char
    } else if d < 36 {
        (55 + d) as char
    } else {
        (61 + d) as char
    }
}

/// The lowest `count` base-62 digits of `h`, low digit first.
pub open spec fn base62(h: nat, count: nat) -> Seq<char>
    decreases count,
{
    if count == 0 {
        Seq::empty()
    } else {
        seq![base62_char(h % 62)] + base62(h / 62, (count - 1) as nat)
    }
}

/// Where the first whole character at or behind `from` starts.
pub open spec fn text_start(bytes: Seq<u8>, from: int) -> int
    decreases bytes.len() - from,
{
    if from >= bytes.len() || is_char_boundary(bytes, from) {
        from
    } else {
        text_start(bytes, from + 1)
    }
}

/// A name of at most thirty bytes that stands for `name`: itself where it is
/// short enough, otherwise `sb-`, eleven digits of its hash and its last
/// sixteen bytes. Where these start inside a character, a hyphen stands for each
/// byte that is left of it.
pub open spec fn short_name(name: Seq<char>) -> Seq<char> {
    let bytes = encode_utf8(name);
    let from = bytes.len() - 16;
    let start = text_start(bytes, from);
    if bytes.len() <= 30 {
        name
    } else {
        "sb-"@ + base62(fnv1a(bytes) as nat, 11) + Seq::new((start - from) as nat, |i: int| '-')
            + decode_utf8(bytes.subrange(start, bytes.len() as int))
    }
}

/// The name that the operating system is given for `name`: itself, or its short
/// name on a system that limits names.
pub open spec fn os_name(name: Seq<char>, limited: bool) -> Seq<char> {
    if limited {
        short_name(name)
    } else {
        name
    }
}

fn fnv1a_of(bytes: &[u8]) -> (r: u64)
    ensures
        r == fnv1a(bytes@),
{
    let mut hash: u64 = 0xcbf29ce484222325;
    let mut i: usize = 0;
    assert(bytes@.take(0) =~= Seq::<u8>::empty());
    while i < bytes.len()
        invariant
            i <= bytes@.len(),
            hash == fnv1a(bytes@.take(i as int)),
        decreases bytes@.len() - i,
    {
        hash = (hash ^ (bytes[i] as u64)).wrapping_mul(0x100000001b3);
        i = i + 1;
        assert(bytes@.take(i as int).drop_last() =~= bytes@.take(i - 1));
    }
    assert(bytes@.take(bytes@.len() as int) =~= bytes@);
    hash
}

fn base62_digit(d: u8) -> (c: char)
    requires
        d < 62,
    ensures
        c == base62_char(d as nat),
{
    if d < 10 {
        (48 + d) as char
    } else if d < 36 {
        (55 + d) as char
    } else {
        (61 + d) as char
    }
}

fn push_base62(s: &mut String, h: u64, count: u8)
    ensures
        final(s)@ == old(s)@ + base62(h as nat, count as nat),
    decreases count,
{
    if count > 0 {
        s.push(base62_digit((h % 62) as u8));
        push_base62(s, h / 62, count - 1);
    }
}

/// macOS limits POSIX semaphore and shared memory names to 31 characters with
/// their leading `/`. Where names are limited, one of more than thirty bytes is
/// hashed to a name of exactly thirty; any other name stays as it is.
pub fn sanitize_os_name(name: &str, limited: bool) -> (r: String)
    ensures
        r@ == os_name(name@, limited),
        limited ==> encode_utf8(r@).len() <= 30,
{
    proof {
        short_names_fit(name@);
    }
    let bytes: &[u8] = name.as_bytes();
    let len: usize = bytes.len();
    if !limited || len <= 30 {
        return name.to_owned();
    }
    let mut s = String::from_str("sb-");
    push_base62(&mut s, fnv1a_of(bytes), 11);
    let ghost head = s@;
    let from: usize = len - 16;
    let mut start: usize = from;
    assert(s@ =~= head + Seq::new(0, |i: int| '-'));
    while start < len && !name.is_char_boundary(start)
        invariant
            from == len - 16,
            from <= start <= len == bytes@.len(),
            bytes@ == encode_utf8(name@),
            s@ == head + Seq::new((start - from) as nat, |i: int| '-'),
            text_start(bytes@, from as int) == text_start(bytes@, start as int),
        decreases len - start,
    {
        s.push('-');
        start = start + 1;
        assert(s@ =~= head + Seq::new((start - from) as nat, |i: int| '-'));
    }
    proof {
        encode_utf8_valid_utf8(name@);
        is_char_boundary_start_end_of_seq(bytes@);
    }
    let (_, tail) = name.split_at(start);
    s.append(tail);
    proof {
        encode_utf8_decode_utf8(tail@);
    }
    s
}

/// The encoding of two texts in a row is that of the first, then that of the
/// second.
proof fn lemma_encode_concat(a: Seq<char>, b: Seq<char>)
    ensures
        encode_utf8(a + b) == encode_utf8(a) + encode_utf8(b),
    decreases a.len(),
{
    if a.len() == 0 {
        assert(a + b =~= b);
    } else {
        lemma_encode_concat(a.drop_first(), b);
        assert((a + b).drop_first() =~= a.drop_first() + b);
    }
}

/// There are as many base-62 digits as were asked for, and all are ASCII.
proof fn lemma_base62_ascii(h: nat, count: nat)
    ensures
        base62(h, count).len() == count,
        is_ascii_chars(base62(h, count)),
    decreases count,
{
    if count > 0 {
        lemma_base62_ascii(h / 62, (count - 1) as nat);
        assert('\0' <= base62_char(h % 62) <= '\u{7f}');
    }
}

/// The start of the text lies between `from` and any boundary behind it.
proof fn lemma_text_start(bytes: Seq<u8>, from: int, boundary: int)
    requires
        0 <= from <= boundary <= bytes.len(),
        is_char_boundary(bytes, boundary),
    ensures
        from <= text_start(bytes, from) <= boundary,
        is_char_boundary(bytes, text_start(bytes, from)),
    decreases boundary - from,
{
    if from < boundary && !is_char_boundary(bytes, from) {
        lemma_text_start(bytes, from + 1, boundary);
    }
}

/// A short name has at most thirty bytes, and exactly thirty where the name
/// itself has more.
pub proof fn short_names_fit(name: Seq<char>)
    ensures
        encode_utf8(short_name(name)).len() == (if encode_utf8(name).len() <= 30 {
            encode_utf8(name).len()
        } else {
            30
        }),
{
    let bytes = encode_utf8(name);
    if bytes.len() > 30 {
        let from = bytes.len() - 16;
        let start = text_start(bytes, from);
        let digits = base62(fnv1a(bytes) as nat, 11);
        let hyphens = Seq::new((start - from) as nat, |i: int| '-');
        let tail = bytes.subrange(start, bytes.len() as int);
        reveal_strlit("sb-");
        lemma_base62_ascii(fnv1a(bytes) as nat, 11);
        encode_utf8_valid_utf8(name);
        is_char_boundary_start_end_of_seq(bytes);
        lemma_text_start(bytes, from, bytes.len() as int);
        is_ascii_chars_encode_utf8("sb-"@);
        is_ascii_chars_encode_utf8(digits);
        assert(is_ascii_chars(hyphens));
        is_ascii_chars_encode_utf8(hyphens);
        valid_utf8_split(bytes, start);
        decode_utf8_encode_utf8(tail);
        lemma_encode_concat("sb-"@, digits);
        lemma_encode_concat("sb-"@ + digits, hyphens);
        lemma_encode_concat("sb-"@ + digits + hyphens, decode_utf8(tail));
    }
}

/// A name that ends in at most sixteen ASCII characters still ends in them when
/// it is shortened.
proof fn lemma_endings_are_kept(base: Seq<char>, ending: Seq<char>)
    requires
        is_ascii_chars(ending),
        0 < ending.len() <= 16,
    ensures
        exists|start: Seq<char>| short_name(base + ending) == #[trigger] (start + ending),
{
    let name = base + ending;
    let bytes = encode_utf8(name);
    lemma_encode_concat(base, ending);
    is_ascii_chars_encode_utf8(ending);
    if bytes.len() <= 30 {
        assert(short_name(name) == base + ending);
    } else {
        let from = bytes.len() - 16;
        let cut = bytes.len() - ending.len();
        let start = text_start(bytes, from);
        let tail = bytes.subrange(start, bytes.len() as int);
        encode_utf8_valid_utf8(name);
        assert(bytes[cut] == ending[0] as u8) by {
            assert(bytes[cut] == encode_utf8(ending)[0]);
        }
        assert(!is_continuation_byte(bytes[cut]));
        is_char_boundary_iff_not_is_continuation_byte(bytes, cut);
        lemma_text_start(bytes, from, cut);
        valid_utf8_split(bytes, start);
        assert(tail[cut - start] == bytes[cut]);
        is_char_boundary_iff_not_is_continuation_byte(tail, cut - start);
        decode_utf8_split(tail, cut - start);
        assert(tail.subrange(cut - start, tail.len() as int) =~= encode_utf8(ending));
        encode_utf8_decode_utf8(ending);
        let head = "sb-"@ + base62(fnv1a(bytes) as nat, 11) + Seq::new(
            (start - from) as nat,
            |i: int| '-',
        );
        let kept = head + decode_utf8(tail.subrange(0, cut - start));
        assert(short_name(name) =~= kept + ending);
    }
}

// ---- SlotBusConfig -----------------------------------------------------------

/// The direction that a payload travels in.
#[derive(Clone, Copy, Debug, PartialEq, Eq, Structural)]
pub enum Side {
    /// From the hub to the worker.
    Request,
    /// From the worker to the hub.
    Response,
}

/// Configuration for a slotbus shared memory region.
#[derive(Debug)]
pub struct SlotBusConfig {
    /// Name of the shared memory region. Used as the OS identifier.
    pub name: String,
    /// Prefix for shared memory region names. Default: `"slotbus"`.
    pub prefix: String,
    /// Number of request/response slots. Default: 32.
    pub num_slots: usize,
    /// Total size of the control region in bytes. Default: 1MB.
    pub region_size: usize,
    /// Timeout in milliseconds for event waits. Default: 5000.
    pub wait_timeout_ms: u32,
    /// Whether to enable latency instrumentation logging. Default: false.
    pub instrumentation: bool,
    /// Whether the operating system limits the length of names, as macOS does.
    /// Default: false.
    pub limited_names: bool,
}

/// A [`SlotBusConfig`] as a mathematical value.
pub struct ConfigView {
    pub name: Seq<char>,
    pub prefix: Seq<char>,
    pub num_slots: nat,
    pub region_size: nat,
    pub wait_timeout_ms: u32,
    pub instrumentation: bool,
    pub limited_names: bool,
}

impl View for SlotBusConfig {
    type V = ConfigView;

    open spec fn view(&self) -> ConfigView {
        ConfigView {
            name: self.name@,
            prefix: self.prefix@,
            num_slots: self.num_slots as nat,
            region_size: self.region_size as nat,
            wait_timeout_ms: self.wait_timeout_ms,
            instrumentation: self.instrumentation,
            limited_names: self.limited_names,
        }
    }
}

impl ConfigView {
    /// The values that a builder starts from.
    pub open spec fn default_view() -> ConfigView {
        ConfigView {
            name: Seq::empty(),
            prefix: "slotbus"@,
            num_slots: 32,
            region_size: 1_048_576,
            wait_timeout_ms: 5_000,
            instrumentation: false,
            limited_names: false,
        }
    }

    /// The name that all others start with.
    pub open spec fn full_name(self) -> Seq<char> {
        self.prefix + "-"@ + self.name
    }

    /// The OS-level name of the control region.
    pub open spec fn region_name(self) -> Seq<char> {
        os_name(self.full_name(), self.limited_names)
    }

    /// The OS-level name of the event that announces payloads of one side.
    pub open spec fn event_name(self, side: Side) -> Seq<char> {
        os_name(self.full_name() + side_ending(side), self.limited_names)
    }

    /// The OS-level name of the first overflow region of a slot.
    pub open spec fn overflow_name(self, side: Side, slot: nat) -> Seq<char> {
        os_name(self.full_name() + slot_ending(side, slot), self.limited_names)
    }

    /// The OS-level name of an overflow region of a slot. Generation zero has
    /// the plain name; every other one adds its number.
    pub open spec fn overflow_name_gen(self, side: Side, slot: nat, generation: u8) -> Seq<char> {
        os_name(
            self.full_name() + generation_ending(side, slot, generation),
            self.limited_names,
        )
    }
}

/// How names of one side end.
pub open spec fn side_ending(side: Side) -> Seq<char> {
    match side {
        Side::Request => "-req"@,
        Side::Response => "-rsp"@,
    }
}

/// How names of one side of a slot end.
pub open spec fn slot_ending(side: Side, slot: nat) -> Seq<char> {
    side_ending(side) + "-"@ + text::decimal(slot)
}

/// How the name of a generation of one side of a slot ends.
pub open spec fn generation_ending(side: Side, slot: nat, generation: u8) -> Seq<char> {
    if generation == 0 {
        slot_ending(side, slot)
    } else {
        slot_ending(side, slot) + "-g"@ + text::decimal(generation as nat)
    }
}

/// Generation zero of an overflow region has the plain name of its slot.
pub proof fn generation_zero_has_the_plain_name(config: ConfigView, side: Side, slot: nat)
    ensures
        config.overflow_name_gen(side, slot, 0) == config.overflow_name(side, slot),
{
}

/// What the ending of a generation looks like: `-r`, and no `r` behind that.
proof fn lemma_ending_shape(side: Side, slot: nat, generation: u8)
    ensures
        ({
            let ending = generation_ending(side, slot, generation);
            &&& ending.len() > 5
            &&& is_ascii_chars(ending)
            &&& ending[1] == 'r'
            &&& forall|i: int| 1 < i < ending.len() ==> #[trigger] ending[i] != 'r'
        }),
{
    reveal_strlit("-req");
    reveal_strlit("-rsp");
    reveal_strlit("-");
    reveal_strlit("-g");
    text::lemma_decimal_digits(slot);
    text::lemma_decimal_digits(generation as nat);
    let ending = generation_ending(side, slot, generation);
    let first = slot_ending(side, slot);
    assert forall|i: int| 0 <= i < first.len() implies '\0' <= #[trigger] first[i] <= '\u{7f}' && (
    i > 1 ==> first[i] != 'r') by {
        if i >= 5 {
            assert(first[i] == text::decimal(slot)[i - 5]);
        }
    }
    assert forall|i: int| 0 <= i < ending.len() implies '\0' <= #[trigger] ending[i] <= '\u{7f}'
        && (i > 1 ==> ending[i] != 'r') by {
        if i < first.len() {
            assert(ending[i] == first[i]);
        } else if i >= first.len() + 2 {
            assert(ending[i] == text::decimal(generation as nat)[i - first.len() - 2]);
        }
    }
}

/// Side, slot and generation can all be told from the ending.
proof fn lemma_endings_differ(
    side1: Side,
    slot1: nat,
    generation1: u8,
    side2: Side,
    slot2: nat,
    generation2: u8,
)
    requires
        generation_ending(side1, slot1, generation1) == generation_ending(
            side2,
            slot2,
            generation2,
        ),
    ensures
        side1 == side2,
        slot1 == slot2,
        generation1 == generation2,
{
    reveal_strlit("-req");
    reveal_strlit("-rsp");
    reveal_strlit("-");
    reveal_strlit("-g");
    let name1 = generation_ending(side1, slot1, generation1);
    let name2 = generation_ending(side2, slot2, generation2);
    let tail1 = if generation1 == 0 {
        Seq::empty()
    } else {
        "-g"@ + text::decimal(generation1 as nat)
    };
    let tail2 = if generation2 == 0 {
        Seq::empty()
    } else {
        "-g"@ + text::decimal(generation2 as nat)
    };
    let d1 = text::decimal(slot1);
    let d2 = text::decimal(slot2);
    text::lemma_decimal_digits(slot1);
    text::lemma_decimal_digits(slot2);
    text::lemma_decimal_digits(generation1 as nat);
    text::lemma_decimal_digits(generation2 as nat);
    assert("-req"@.len() == 4 && "-rsp"@.len() == 4 && "-req"@[2] == 'e' && "-rsp"@[2] == 's');
    assert("-"@.len() == 1);
    assert("-g"@.len() == 2 && "-g"@[0] == '-');
    assert(name1 =~= side_ending(side1) + "-"@ + (d1 + tail1));
    assert(name2 =~= side_ending(side2) + "-"@ + (d2 + tail2));
    assert(name1[2] == (match side1 {
        Side::Request => 'e',
        Side::Response => 's',
    }));
    assert(name2[2] == (match side2 {
        Side::Request => 'e',
        Side::Response => 's',
    }));
    let rest1 = name1.skip(5);
    let rest2 = name2.skip(5);
    assert(rest1 =~= d1 + tail1);
    assert(rest2 =~= d2 + tail2);
    if d1.len() < d2.len() {
        assert(rest2[d1.len() as int] == d2[d1.len() as int]);
        if generation1 != 0 {
            assert(rest1[d1.len() as int] == '-');
        }
        assert(false);
    }
    if d2.len() < d1.len() {
        assert(rest1[d2.len() as int] == d1[d2.len() as int]);
        if generation2 != 0 {
            assert(rest2[d2.len() as int] == '-');
        }
        assert(false);
    }
    assert(d1 =~= rest1.take(d1.len() as int));
    assert(d2 =~= rest2.take(d2.len() as int));
    text::decimal_is_injective(slot1, slot2);
    assert(tail1 =~= rest1.skip(d1.len() as int));
    assert(tail2 =~= rest2.skip(d2.len() as int));
    if generation1 != 0 && generation2 != 0 {
        assert(text::decimal(generation1 as nat) =~= tail1.skip(2));
        assert(text::decimal(generation2 as nat) =~= tail2.skip(2));
        text::decimal_is_injective(generation1 as nat, generation2 as nat);
    }
}

/// The OS-level name of an overflow region ends in side, slot and generation.
/// Where names are limited, the slot number must have at most six digits.
proof fn lemma_overflow_name_ending(config: ConfigView, side: Side, slot: nat, generation: u8) -> (
start: Seq<char>)
    requires
        config.limited_names ==> slot < 1_000_000,
    ensures
        config.overflow_name_gen(side, slot, generation) == start + generation_ending(
            side,
            slot,
            generation,
        ),
{
    let ending = generation_ending(side, slot, generation);
    if config.limited_names {
        lemma_ending_shape(side, slot, generation);
        assert(ending.len() <= 16) by {
            reveal_strlit("-req");
            reveal_strlit("-rsp");
            reveal_strlit("-");
            reveal_strlit("-g");
            reveal_with_fuel(text::decimal, 7);
        }
        lemma_endings_are_kept(config.full_name(), ending);
        choose|start: Seq<char>|
            short_name(config.full_name() + ending) == #[trigger] (start + ending)
    } else {
        config.full_name()
    }
}

/// No two overflow regions of one bus share a name: side, slot and generation
/// can all be told from it. Where names are limited, the slot numbers must have
/// at most six digits.
pub proof fn overflow_names_differ(
    config: ConfigView,
    side1: Side,
    slot1: nat,
    generation1: u8,
    side2: Side,
    slot2: nat,
    generation2: u8,
)
    requires
        config.limited_names ==> slot1 < 1_000_000 && slot2 < 1_000_000,
        config.overflow_name_gen(side1, slot1, generation1) == config.overflow_name_gen(
            side2,
            slot2,
            generation2,
        ),
    ensures
        side1 == side2,
        slot1 == slot2,
        generation1 == generation2,
{
    let ending1 = generation_ending(side1, slot1, generation1);
    let ending2 = generation_ending(side2, slot2, generation2);
    lemma_ending_shape(side1, slot1, generation1);
    lemma_ending_shape(side2, slot2, generation2);
    let start1 = lemma_overflow_name_ending(config, side1, slot1, generation1);
    let start2 = lemma_overflow_name_ending(config, side2, slot2, generation2);
    let name = config.overflow_name_gen(side1, slot1, generation1);
    if ending1.len() < ending2.len() {
        let at = name.len() - ending1.len() + 1;
        assert(name[at] == ending1[1]);
        assert(name[at] == ending2[at - start2.len()]);
        assert(false);
    }
    if ending2.len() < ending1.len() {
        let at = name.len() - ending2.len() + 1;
        assert(name[at] == ending2[1]);
        assert(name[at] == ending1[at - start1.len()]);
        assert(false);
    }
    assert(ending1 =~= name.skip(start1.len() as int));
    assert(ending2 =~= name.skip(start2.len() as int));
    lemma_endings_differ(side1, slot1, generation1, side2, slot2, generation2);
}

impl Clone for SlotBusConfig {
    fn clone(&self) -> (r: Self)
        ensures
            r@ == self@,
    {
        SlotBusConfig {
            name: self.name.clone(),
            prefix: self.prefix.clone(),
            num_slots: self.num_slots,
            region_size: self.region_size,
            wait_timeout_ms: self.wait_timeout_ms,
            instrumentation: self.instrumentation,
            limited_names: self.limited_names,
        }
    }
}

impl Default for SlotBusConfig {
    fn default() -> (r: Self)
        ensures
            r@ == ConfigView::default_view(),
    {
        SlotBusConfig {
            name: String::new(),
            prefix: String::from_str("slotbus"),
            num_slots: 32,
            region_size: 1_048_576,
            wait_timeout_ms: 5_000,
            instrumentation: false,
            limited_names: false,
        }
    }
}

impl SlotBusConfig {
    /// Create a new config builder.
    pub fn builder() -> (r: SlotBusConfigBuilder)
        ensures
            r@ == ConfigView::default_view(),
    {
        SlotBusConfigBuilder { config: SlotBusConfig::default() }
    }

    /// The name that all others start with.
    fn full_name(&self) -> (r: String)
        ensures
            r@ == self@.full_name(),
    {
        self.prefix.clone().concat("-").concat(self.name.as_str())
    }

    /// The name of one side, before it is fitted to the operating system.
    fn side_name(&self, side: Side) -> (r: String)
        ensures
            r@ == self@.full_name() + side_ending(side),
    {
        match side {
            Side::Request => self.full_name().concat("-req"),
            Side::Response => self.full_name().concat("-rsp"),
        }
    }

    /// The name of one side of a slot, before it is fitted to the operating
    /// system.
    fn slot_name(&self, side: Side, slot: usize) -> (r: String)
        ensures
            r@ == self@.full_name() + slot_ending(side, slot as nat),
    {
        let mut s = self.side_name(side).concat("-");
        text::push_usize(&mut s, slot);
        assert(s@ =~= self@.full_name() + slot_ending(side, slot as nat));
        s
    }

    /// The full OS-level name for the control region.
    pub fn region_name(&self) -> (r: String)
        ensures
            r@ == self@.region_name(),
    {
        sanitize_os_name(self.full_name().as_str(), self.limited_names)
    }

    /// The OS-level name for the request event.
    pub fn request_event_name(&self) -> (r: String)
        ensures
            r@ == self@.event_name(Side::Request),
    {
        sanitize_os_name(self.side_name(Side::Request).as_str(), self.limited_names)
    }

    /// The OS-level name for the response event.
    pub fn response_event_name(&self) -> (r: String)
        ensures
            r@ == self@.event_name(Side::Response),
    {
        sanitize_os_name(self.side_name(Side::Response).as_str(), self.limited_names)
    }

    /// The OS-level name for the first overflow region of a slot.
    pub fn overflow_name(&self, side: Side, slot: usize) -> (r: String)
        ensures
            r@ == self@.overflow_name(side, slot as nat),
    {
        sanitize_os_name(self.slot_name(side, slot).as_str(), self.limited_names)
    }

    /// The OS-level name for an overflow region of a slot.
    pub fn overflow_name_gen(&self, side: Side, slot: usize, generation: u8) -> (r: String)
        ensures
            r@ == self@.overflow_name_gen(side, slot as nat, generation),
    {
        let mut s = self.slot_name(side, slot);
        if generation > 0 {
            s.append("-g");
            text::push_decimal(&mut s, generation as u64);
        }
        assert(s@ =~= self@.full_name() + generation_ending(side, slot as nat, generation));
        sanitize_os_name(s.as_str(), self.limited_names)
    }

    /// The OS-level name for a request overflow region at a given slot.
    pub fn request_overflow_name(&self, slot: usize) -> (r: String)
        ensures
            r@ == self@.overflow_name(Side::Request, slot as nat),
    {
        self.overflow_name(Side::Request, slot)
    }

    /// The OS-level name for a response overflow region at a given slot.
    pub fn response_overflow_name(&self, slot: usize) -> (r: String)
        ensures
            r@ == self@.overflow_name(Side::Response, slot as nat),
    {
        self.overflow_name(Side::Response, slot)
    }

    /// The OS-level name for one generation of a slot's request overflow.
    pub fn request_overflow_name_gen(&self, slot: usize, generation: u8) -> (r: String)
        ensures
            r@ == self@.overflow_name_gen(Side::Request, slot as nat, generation),
    {
        self.overflow_name_gen(Side::Request, slot, generation)
    }

    /// The OS-level name for one generation of a slot's response overflow.
    pub fn response_overflow_name_gen(&self, slot: usize, generation: u8) -> (r: String)
        ensures
            r@ == self@.overflow_name_gen(Side::Response, slot as nat, generation),
    {
        self.overflow_name_gen(Side::Response, slot, generation)
    }
}

/// Builder for [`SlotBusConfig`].
#[derive(Debug)]
pub struct SlotBusConfigBuilder {
    config: SlotBusConfig,
}

impl View for SlotBusConfigBuilder {
    type V = ConfigView;

    closed spec fn view(&self) -> ConfigView {
        self.config@
    }
}

impl Default for SlotBusConfigBuilder {
    fn default() -> (r: Self)
        ensures
            r@ == ConfigView::default_view(),
    {
        SlotBusConfig::builder()
    }
}

impl SlotBusConfigBuilder {
    /// Set the worker name. **Required.**
    pub fn name(self, name: &str) -> (r: Self)
        ensures
            r@ == (ConfigView { name: name@, ..self@ }),
    {
        let mut config = self.config;
        config.name = name.to_owned();
        SlotBusConfigBuilder { config }
    }

    /// Set the region name prefix. Default: `"slotbus"`.
    pub fn prefix(self, prefix: &str) -> (r: Self)
        ensures
            r@ == (ConfigView { prefix: prefix@, ..self@ }),
    {
        let mut config = self.config;
        config.prefix = prefix.to_owned();
        SlotBusConfigBuilder { config }
    }

    /// Set the number of slots. Default: 32. Range: 1..=256.
    pub fn num_slots(self, n: usize) -> (r: Self)
        ensures
            r@ == (ConfigView {
                num_slots: if n < 1 {
                    1
                } else if n > 256 {
                    256
                } else {
                    n as nat
                },
                ..self@
            }),
    {
        let mut config = self.config;
        config.num_slots = if n < 1 {
            1
        } else if n > 256 {
            256
        } else {
            n
        };
        SlotBusConfigBuilder { config }
    }

    /// Set the control region size in bytes. Default: 1MB.
    pub fn region_size(self, size: usize) -> (r: Self)
        ensures
            r@ == (ConfigView { region_size: size as nat, ..self@ }),
    {
        let mut config = self.config;
        config.region_size = size;
        SlotBusConfigBuilder { config }
    }

    /// Set the event wait timeout in milliseconds. Default: 5000.
    pub fn wait_timeout_ms(self, ms: u32) -> (r: Self)
        ensures
            r@ == (ConfigView { wait_timeout_ms: ms, ..self@ }),
    {
        let mut config = self.config;
        config.wait_timeout_ms = ms;
        SlotBusConfigBuilder { config }
    }

    /// Enable or disable latency instrumentation. Default: false.
    pub fn instrumentation(self, enabled: bool) -> (r: Self)
        ensures
            r@ == (ConfigView { instrumentation: enabled, ..self@ }),
    {
        let mut config = self.config;
        config.instrumentation = enabled;
        SlotBusConfigBuilder { config }
    }

    /// Say whether the operating system limits the length of names, as macOS
    /// does. Default: false.
    pub fn limited_names(self, limited: bool) -> (r: Self)
        ensures
            r@ == (ConfigView { limited_names: limited, ..self@ }),
    {
        let mut config = self.config;
        config.limited_names = limited;
        SlotBusConfigBuilder { config }
    }

    /// Build the config. A name must have been set.
    pub fn build(self) -> (r: SlotBusConfig)
        requires
            self@.name.len() > 0,
        ensures
            r@ == self@,
    {
        self.config
    }
}

// ---- In words ----------------------------------------------------------------

/// Where names are not limited, every name is prefix and name with what it is
/// for behind them.
pub proof fn names_are_prefix_and_name(config: ConfigView, slot: nat, generation: u8)
    requires
        !config.limited_names,
    ensures
        config.region_name() == config.prefix + "-"@ + config.name,
        config.event_name(Side::Request) == config.prefix + "-"@ + config.name + "-req"@,
        config.event_name(Side::Response) == config.prefix + "-"@ + config.name + "-rsp"@,
        config.overflow_name(Side::Request, slot) == config.prefix + "-"@ + config.name + "-req-"@
            + text::decimal(slot),
        config.overflow_name(Side::Response, slot) == config.prefix + "-"@ + config.name + "-rsp-"@
            + text::decimal(slot),
        generation > 0 ==> config.overflow_name_gen(Side::Request, slot, generation)
            == config.overflow_name(Side::Request, slot) + "-g"@ + text::decimal(
            generation as nat,
        ),
        generation > 0 ==> config.overflow_name_gen(Side::Response, slot, generation)
            == config.overflow_name(Side::Response, slot) + "-g"@ + text::decimal(
            generation as nat,
        ),
{
    reveal_strlit("-");
    reveal_strlit("-req");
    reveal_strlit("-rsp");
    reveal_strlit("-req-");
    reveal_strlit("-rsp-");
    let full = config.prefix + "-"@ + config.name;
    let digits = text::decimal(slot);
    assert("-req"@ + "-"@ =~= "-req-"@);
    assert("-rsp"@ + "-"@ =~= "-rsp-"@);
    assert(full + ("-req"@ + "-"@ + digits) =~= full + "-req-"@ + digits);
    assert(full + ("-rsp"@ + "-"@ + digits) =~= full + "-rsp-"@ + digits);
    if generation > 0 {
        let number = text::decimal(generation as nat);
        assert(full + ("-req"@ + "-"@ + digits + "-g"@ + number) =~= full + "-req-"@ + digits
            + "-g"@ + number);
        assert(full + ("-rsp"@ + "-"@ + digits + "-g"@ + number) =~= full + "-rsp-"@ + digits
            + "-g"@ + number);
    }
}

/// Where names are limited, each is the short name of what it would be
/// otherwise.
pub proof fn limited_names_are_the_short_names(
    config: ConfigView,
    side: Side,
    slot: nat,
    generation: u8,
)
    requires
        config.limited_names,
    ensures
        ({
            let free = ConfigView { limited_names: false, ..config };
            &&& config.region_name() == short_name(free.region_name())
            &&& config.event_name(side) == short_name(free.event_name(side))
            &&& config.overflow_name(side, slot) == short_name(free.overflow_name(side, slot))
            &&& config.overflow_name_gen(side, slot, generation) == short_name(
                free.overflow_name_gen(side, slot, generation),
            )
        }),
{
}

/// A name of at most thirty bytes is its own short name, and a name of the
/// system is left alone where names are not limited.
pub proof fn names_that_fit_stay(name: Seq<char>)
    ensures
        encode_utf8(name).len() <= 30 ==> short_name(name) == name,
        os_name(name, false) == name,
        os_name(name, true) == short_name(name),
{
}

/// The short name of a long ASCII name is `sb-`, eleven base-62 digits of the
/// hash of the whole name, low digit first, and the name's last sixteen
/// characters.
pub proof fn long_names_are_hashed(name: Seq<char>)
    requires
        is_ascii_chars(name),
        name.len() > 30,
    ensures
        short_name(name) == "sb-"@ + base62(fnv1a(encode_utf8(name)) as nat, 11) + name.skip(
            name.len() - 16,
        ),
{
    let bytes = encode_utf8(name);
    let base = name.take(name.len() - 16);
    let tail = name.skip(name.len() - 16);
    is_ascii_chars_encode_utf8(name);
    encode_utf8_valid_utf8(name);
    let from = bytes.len() - 16;
    assert(bytes[from] == name[from] as u8);
    assert(!is_continuation_byte(bytes[from]));
    is_char_boundary_iff_not_is_continuation_byte(bytes, from);
    assert(base + tail =~= name);
    lemma_encode_concat(base, tail);
    assert(is_ascii_chars(base));
    assert(is_ascii_chars(tail));
    is_ascii_chars_encode_utf8(base);
    is_ascii_chars_encode_utf8(tail);
    assert(bytes.subrange(from, bytes.len() as int) =~= encode_utf8(tail));
    encode_utf8_decode_utf8(tail);
    assert(Seq::new(0, |i: int| '-') =~= Seq::<char>::empty());
    assert("sb-"@ + base62(fnv1a(bytes) as nat, 11) + Seq::new(0, |i: int| '-')
        =~= "sb-"@ + base62(fnv1a(bytes) as nat, 11));
}

/// Where a text starts, no earlier place from `from` on is a boundary.
proof fn lemma_text_start_is_first(bytes: Seq<u8>, from: int)
    requires
        0 <= from <= bytes.len(),
    ensures
        forall|j: int| from <= j < text_start(bytes, from) ==> !#[trigger] is_char_boundary(bytes, j),
    decreases bytes.len() - from,
{
    if from < bytes.len() && !is_char_boundary(bytes, from) {
        lemma_text_start_is_first(bytes, from + 1);
    }
}

/// Of the thirty bytes of a long name's short name, the last sixteen are the name's
/// own, except that a hyphen stands for each of them that is left of a character
/// which starts before them; the first fourteen are `sb-` and the digits of the hash.
pub proof fn short_names_end_like_the_name(name: Seq<char>, k: int)
    requires
        encode_utf8(name).len() > 30,
        0 <= k < 16,
    ensures
        ({
            let b = encode_utf8(name);
            let s = encode_utf8(short_name(name));
            &&& s.len() == 30
            &&& s.take(14) == encode_utf8("sb-"@ + base62(fnv1a(b) as nat, 11))
            &&& s[14 + k] == (if forall|j: int|
                0 <= j <= k ==> is_continuation_byte(#[trigger] b[b.len() - 16 + j]) {
                45
            } else {
                b[b.len() - 16 + k]
            })
        }),
{
    let bytes = encode_utf8(name);
    let from = bytes.len() - 16;
    let start = text_start(bytes, from);
    let digits = base62(fnv1a(bytes) as nat, 11);
    let hyphens = Seq::new((start - from) as nat, |i: int| '-');
    let tail = bytes.subrange(start, bytes.len() as int);
    reveal_strlit("sb-");
    lemma_base62_ascii(fnv1a(bytes) as nat, 11);
    encode_utf8_valid_utf8(name);
    is_char_boundary_start_end_of_seq(bytes);
    lemma_text_start(bytes, from, bytes.len() as int);
    lemma_text_start_is_first(bytes, from);
    is_ascii_chars_encode_utf8("sb-"@);
    is_ascii_chars_encode_utf8(digits);
    assert(is_ascii_chars(hyphens));
    is_ascii_chars_encode_utf8(hyphens);
    valid_utf8_split(bytes, start);
    decode_utf8_encode_utf8(tail);
    lemma_encode_concat("sb-"@, digits);
    lemma_encode_concat("sb-"@ + digits, hyphens);
    lemma_encode_concat("sb-"@ + digits + hyphens, decode_utf8(tail));
    let s = encode_utf8(short_name(name));
    assert(s =~= encode_utf8("sb-"@ + digits) + encode_utf8(hyphens) + tail);
    assert(s.take(14) =~= encode_utf8("sb-"@ + digits));
    if k < start - from {
        assert(s[14 + k] == encode_utf8(hyphens)[k]);
        assert(hyphens[k] == '-');
        assert forall|j: int| 0 <= j <= k implies is_continuation_byte(
            #[trigger] bytes[bytes.len() - 16 + j],
        ) by {
            assert(!is_char_boundary(bytes, from + j));
            is_char_boundary_iff_not_is_continuation_byte(bytes, from + j);
        }
    } else {
        assert(s[14 + k] == tail[k - (start - from)]);
        if start < bytes.len() {
            is_char_boundary_iff_not_is_continuation_byte(bytes, start);
            assert(!is_continuation_byte(bytes[bytes.len() - 16 + (start - from)]));
        }
    }
}

/// The hash is 64-bit FNV-1a: it starts from the offset basis and takes in one
/// byte after the other.
pub proof fn hashes_take_in_every_byte(bytes: Seq<u8>, b: u8)
    ensures
        fnv1a(Seq::empty()) == 14695981039346656037,
        fnv1a(bytes.push(b)) == ((fnv1a(bytes) ^ (b as u64)) * 1099511628211)
            % 18446744073709551616,
{
    assert(bytes.push(b).drop_last() =~= bytes);
}

/// The base-62 digit of a number below sixty-two.
pub proof fn base62_digits_have_their_characters(h: nat, count: nat)
    requires
        count > 0,
    ensures
        base62(h, count).len() == count,
        base62(h, count).drop_first() == base62(h / 62, (count - 1) as nat),
        h % 62 < 10 ==> base62(h, count)[0] as nat == '0' as nat + h % 62,
        10 <= h % 62 < 36 ==> base62(h, count)[0] as nat == 'A' as nat + (h % 62 - 10),
        36 <= h % 62 ==> base62(h, count)[0] as nat == 'a' as nat + (h % 62 - 36),
{
    lemma_base62_ascii(h, count);
    assert(base62(h, count).drop_first() =~= base62(h / 62, (count - 1) as nat));
}

/// What a configuration starts from.
pub proof fn configurations_start_from_the_defaults()
    ensures
        ConfigView::default_view().name.len() == 0,
        ConfigView::default_view().prefix == "slotbus"@,
        ConfigView::default_view().num_slots == 32,
        ConfigView::default_view().region_size == 1048576,
        ConfigView::default_view().wait_timeout_ms == 5000,
        !ConfigView::default_view().instrumentation,
        !ConfigView::default_view().limited_names,
{
}

/// A configuration stands for its fields, each for itself.
pub proof fn configurations_are_their_fields(config: SlotBusConfig)
    ensures
        config@.name == config.name@,
        config@.prefix == config.prefix@,
        config@.num_slots == config.num_slots,
        config@.region_size == config.region_size,
        config@.wait_timeout_ms == config.wait_timeout_ms,
        config@.instrumentation == config.instrumentation,
        config@.limited_names == config.limited_names,
{
}

} // verus!
