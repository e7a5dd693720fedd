//! Text built by hand: decimal and hexadecimal numbers, comparison, and the
//! pieces of `String` that names and messages are put together from.

use vstd::prelude::*;
use vstd::utf8::*;

verus! {

/// `String::push` appends one character.
pub assume_specification[ String::push ](s: &mut String, c: char)
    ensures
        final(s)@ == old(s)@.push(c),
;

/// The character that stands for the digit `d`, for `d` below ten.
pub open spec fn digit_char(d: nat) -> char {
    (48 + d) as char
}

/// `n` in decimal, without leading zeros.
pub open spec fn decimal(n: nat) -> Seq<char>
    decreases n,
{
    if n < 10 {
        seq![digit_char(n)]
    } else {
        decimal(n / 10).push(digit_char(n % 10))
    }
}

/// The upper-case hexadecimal digit for `d`, for `d` below sixteen.
pub open spec fn hex_char(d: nat) -> char {
    if d < 10 {
        (48 + d) as char
    } else {
        (55 + d) as char
    }
}

/// `n` in upper-case hexadecimal, eight digits wide.
pub open spec fn hex8(n: u32) -> Seq<char> {
    seq![
        hex_char((n / 0x10000000 % 16) as nat),
        hex_char((n / 0x1000000 % 16) as nat),
        hex_char((n / 0x100000 % 16) as nat),
        hex_char((n / 0x10000 % 16) as nat),
        hex_char((n / 0x1000 % 16) as nat),
        hex_char((n / 0x100 % 16) as nat),
        hex_char((n / 0x10 % 16) as nat),
        hex_char((n % 16) as nat),
    ]
}

fn digit(d: u8) -> (c: char)
    requires
        d < 10,
    ensures
        c == digit_char(d as nat),
{
    (48 + d) as char
}

fn hex_digit(d: u8) -> (c: char)
    requires
        d < 16,
    ensures
        c == hex_char(d as nat),
{
    if d < 10 {
        (48 + d) as char
    } else {
        (55 + d) as char
    }
}

/// Appends `n` in decimal.
pub fn push_decimal(s: &mut String, n: u64)
    ensures
        final(s)@ == old(s)@ + decimal(n as nat),
    decreases n,
{
    if n >= 10 {
        push_decimal(s, n / 10);
    }
    let d: u8 = (n % 10) as u8;
    s.push(digit(d));
}

/// Appends `n` in decimal.
pub fn push_usize(s: &mut String, n: usize)
    ensures
        final(s)@ == old(s)@ + decimal(n as nat),
{
    push_decimal(s, n as u64);
}

/// Appends `n` as eight upper-case hexadecimal digits.
pub fn push_hex8(s: &mut String, n: u32)
    ensures
        final(s)@ == old(s)@ + hex8(n),
{
    s.push(hex_digit((n / 0x10000000 % 16) as u8));
    s.push(hex_digit((n / 0x1000000 % 16) as u8));
    s.push(hex_digit((n / 0x100000 % 16) as u8));
    s.push(hex_digit((n / 0x10000 % 16) as u8));
    s.push(hex_digit((n / 0x1000 % 16) as u8));
    s.push(hex_digit((n / 0x100 % 16) as u8));
    s.push(hex_digit((n / 0x10 % 16) as u8));
    s.push(hex_digit((n % 16) as u8));
}

/// Whether two texts are the same.
pub fn same_text(a: &str, b: &str) -> (r: bool)
    ensures
        r == (a@ == b@),
{
    let x: &[u8] = a.as_bytes();
    let y: &[u8] = b.as_bytes();
    proof {
        encode_utf8_decode_utf8(a@);
        encode_utf8_decode_utf8(b@);
    }
    if x.len() != y.len() {
        return false;
    }
    let mut i: usize = 0;
    while i < x.len()
        invariant
            i <= x@.len(),
            x@.len() == y@.len(),
            x@ == encode_utf8(a@),
            y@ == encode_utf8(b@),
            forall|k: int| 0 <= k < i ==> x@[k] == y@[k],
        decreases x@.len() - i,
    {
        if x[i] != y[i] {
            return false;
        }
        i = i + 1;
    }
    assert(x@ =~= y@);
    true
}

/// The characters of a text.
pub fn chars_of(s: &str) -> (r: Vec<char>)
    ensures
        r@ == s@,
{
    let mut r: Vec<char> = Vec::new();
    let n: usize = s.unicode_len();
    let mut it = s.chars();
    let mut i: usize = 0;
    while i < n
        invariant
            i <= n,
            n == s@.len(),
            vstd::std_specs::iter::IteratorSpec::remaining(&it) == s@.skip(i as int),
            r@ == s@.take(i as int),
        decreases n - i,
    {
        match it.next() {
            Some(c) => {
                r.push(c);
            },
            None => {},
        }
        i = i + 1;
        assert(s@.take(i as int) =~= s@.take(i - 1).push(s@[i - 1]));
        assert(s@.skip(i as int) =~= s@.skip(i - 1).drop_first());
    }
    assert(s@.take(n as int) =~= s@);
    r
}

/// The text made of the characters `from..to` of `chars`.
pub fn text_of(chars: &Vec<char>, from: usize, to: usize) -> (r: String)
    requires
        from <= to <= chars@.len(),
    ensures
        r@ == chars@.subrange(from as int, to as int),
{
    let mut r: String = String::new();
    let mut i: usize = from;
    while i < to
        invariant
            from <= i <= to <= chars@.len(),
            r@ == chars@.subrange(from as int, i as int),
        decreases to - i,
    {
        r.push(chars[i]);
        i = i + 1;
    }
    r
}

/// A number in decimal is not empty and holds digits only.
pub proof fn lemma_decimal_digits(n: nat)
    ensures
        decimal(n).len() > 0,
        forall|i: int| 0 <= i < decimal(n).len() ==> '0' <= #[trigger] decimal(n)[i] <= '9',
    decreases n,
{
    if n >= 10 {
        lemma_decimal_digits(n / 10);
    }
}

/// Different numbers look different in decimal.
pub proof fn decimal_is_injective(a: nat, b: nat)
    requires
        decimal(a) == decimal(b),
    ensures
        a == b,
    decreases a,
{
    lemma_decimal_digits(a / 10);
    lemma_decimal_digits(b / 10);
    assert(decimal(a).last() == digit_char(a % 10));
    assert(decimal(b).last() == digit_char(b % 10));
    if a >= 10 && b >= 10 {
        assert(decimal(a).drop_last() =~= decimal(a / 10));
        assert(decimal(b).drop_last() =~= decimal(b / 10));
        decimal_is_injective(a / 10, b / 10);
    } else if a >= 10 {
        assert(decimal(a).len() == decimal(a / 10).len() + 1);
        assert(decimal(b).len() == 1);
    } else if b >= 10 {
        assert(decimal(b).len() == decimal(b / 10).len() + 1);
        assert(decimal(a).len() == 1);
    }
}

/// The number that decimal digits stand for.
pub open spec fn decimal_value(digits: Seq<char>) -> nat
    decreases digits.len(),
{
    if digits.len() == 0 {
        0
    } else {
        decimal_value(digits.drop_last()) * 10 + (digits.last() as nat - 48) as nat
    }
}

/// A number in decimal stands for that number, in digits and without leading
/// zeros.
pub proof fn decimals_have_their_value(n: nat)
    ensures
        decimal_value(decimal(n)) == n,
        forall|i: int| 0 <= i < decimal(n).len() ==> '0' <= #[trigger] decimal(n)[i] <= '9',
        decimal(n).len() > 0,
        n > 0 ==> decimal(n)[0] != '0',
        n == 0 ==> decimal(n).len() == 1,
    decreases n,
{
    lemma_decimal_digits(n);
    assert(decimal(n).last() == digit_char(n % 10));
    assert(digit_char(n % 10) as nat == 48 + n % 10);
    if n >= 10 {
        decimals_have_their_value(n / 10);
        assert(decimal(n).drop_last() =~= decimal(n / 10));
        assert(decimal(n)[0] == decimal(n / 10)[0]);
    } else {
        assert(decimal(n).drop_last() =~= Seq::empty());
        assert(decimal_value(Seq::<char>::empty()) == 0);
    }
}

/// The number that a hexadecimal digit stands for.
pub open spec fn hex_value(c: char) -> nat {
    if '0' <= c <= '9' {
        (c as nat - 48) as nat
    } else {
        (c as nat - 55) as nat
    }
}

proof fn lemma_hex_char(d: nat)
    requires
        d < 16,
    ensures
        hex_value(hex_char(d)) == d,
        '0' <= hex_char(d) <= '9' || 'A' <= hex_char(d) <= 'F',
{
}

/// Eight hexadecimal digits stand for their number, high digit first, in digits
/// and upper-case letters.
pub proof fn hexadecimals_have_their_value(n: u32)
    ensures
        ({
            let h = hex8(n);
            &&& h.len() == 8
            &&& n == hex_value(h[0]) * 268435456 + hex_value(h[1]) * 16777216 + hex_value(h[2])
                * 1048576 + hex_value(h[3]) * 65536 + hex_value(h[4]) * 4096 + hex_value(h[5]) * 256
                + hex_value(h[6]) * 16 + hex_value(h[7])
            &&& forall|i: int|
                0 <= i < 8 ==> ('0' <= #[trigger] h[i] <= '9' || 'A' <= h[i] <= 'F')
        }),
{
    lemma_hex_char((n / 0x10000000 % 16) as nat);
    lemma_hex_char((n / 0x1000000 % 16) as nat);
    lemma_hex_char((n / 0x100000 % 16) as nat);
    lemma_hex_char((n / 0x10000 % 16) as nat);
    lemma_hex_char((n / 0x1000 % 16) as nat);
    lemma_hex_char((n / 0x100 % 16) as nat);
    lemma_hex_char((n / 0x10 % 16) as nat);
    lemma_hex_char((n % 16) as nat);
    assert(n == (n / 0x10000000 % 16) * 268435456 + (n / 0x1000000 % 16) * 16777216 + (n / 0x100000
        % 16) * 1048576 + (n / 0x10000 % 16) * 65536 + (n / 0x1000 % 16) * 4096 + (n / 0x100 % 16)
        * 256 + (n / 0x10 % 16) * 16 + n % 16) by (bit_vector);
}

} // verus!
