//! Little-endian integers and byte strings inside a block of memory.

use vstd::prelude::*;

verus! {

/// `mem` with `data` written over it from position `at` on.
pub open spec fn put(mem: Seq<u8>, at: int, data: Seq<u8>) -> Seq<u8> {
    Seq::new(
        mem.len(),
        |i: int|
            if at <= i < at + data.len() {
                data[i - at]
            } else {
                mem[i]
            },
    )
}

/// The two bytes of `x`, low byte first.
pub open spec fn le16(x: u16) -> Seq<u8> {
    seq![(x % 256) as u8, (x / 256) as u8]
}

/// The four bytes of `x`, low byte first.
pub open spec fn le32(x: u32) -> Seq<u8> {
    seq![
        (x % 256) as u8,
        (x / 0x100 % 256) as u8,
        (x / 0x10000 % 256) as u8,
        (x / 0x1000000) as u8,
    ]
}

/// The two-byte integer at `at`.
pub open spec fn u16_at(mem: Seq<u8>, at: int) -> u16 {
    (mem[at] + 0x100 * mem[at + 1]) as u16
}

/// The four-byte integer at `at`.
pub open spec fn u32_at(mem: Seq<u8>, at: int) -> u32 {
    (mem[at] + 0x100 * mem[at + 1] + 0x10000 * mem[at + 2] + 0x1000000 * mem[at + 3]) as u32
}

/// What is left of `x` in four bytes.
#[verifier::opaque]
pub open spec fn low32(x: nat) -> u32 {
    (x % 0x1_0000_0000) as u32
}

/// Nothing is lost of what fits in four bytes, and nothing is gained.
pub proof fn lemma_low32(x: nat)
    ensures
        low32(x) <= x,
        x < 0x1_0000_0000 ==> low32(x) == x,
{
    reveal(low32);
}

/// An integer that is written is read back.
pub proof fn lemma_u32_written(mem: Seq<u8>, at: int, x: u32)
    requires
        0 <= at,
        at + 4 <= mem.len(),
    ensures
        u32_at(put(mem, at, le32(x)), at) == x,
{
}

/// An integer that is written is read back.
pub proof fn lemma_u16_written(mem: Seq<u8>, at: int, x: u16)
    requires
        0 <= at,
        at + 2 <= mem.len(),
    ensures
        u16_at(put(mem, at, le16(x)), at) == x,
{
}

/// The low 32 bits of `x`.
pub fn to_low32(x: usize) -> (r: u32)
    ensures
        r == low32(x as nat),
{
    proof {
        reveal(low32);
    }
    ((x as u64) % 0x1_0000_0000) as u32
}

/// Writes one byte at `at`.
pub fn put_u8(mem: &mut [u8], at: usize, x: u8)
    requires
        at < old(mem)@.len(),
    ensures
        final(mem)@ == put(old(mem)@, at as int, seq![x]),
{
    mem[at] = x;
}

/// Writes `x` in two bytes at `at`.
pub fn put_u16(mem: &mut [u8], at: usize, x: u16)
    requires
        at + 2 <= old(mem)@.len(),
    ensures
        final(mem)@ == put(old(mem)@, at as int, le16(x)),
{
    mem[at] = (x % 256) as u8;
    mem[at + 1] = (x / 256) as u8;
}

/// Writes `x` in four bytes at `at`.
pub fn put_u32(mem: &mut [u8], at: usize, x: u32)
    requires
        at + 4 <= old(mem)@.len(),
    ensures
        final(mem)@ == put(old(mem)@, at as int, le32(x)),
{
    mem[at] = (x % 256) as u8;
    mem[at + 1] = (x / 0x100 % 256) as u8;
    mem[at + 2] = (x / 0x10000 % 256) as u8;
    mem[at + 3] = (x / 0x1000000) as u8;
}

/// Copies `data` to `at`.
pub fn put_bytes(mem: &mut [u8], at: usize, data: &[u8])
    requires
        at + data@.len() <= old(mem)@.len(),
    ensures
        final(mem)@ == put(old(mem)@, at as int, data@),
{
    let size: usize = mem.len();
    let ghost before = mem@;
    let mut i: usize = 0;
    while i < data.len()
        invariant
            i <= data@.len(),
            at + data@.len() <= before.len() == size,
            mem@ == put(before, at as int, data@.take(i as int)),
        decreases data@.len() - i,
    {
        mem[at + i] = data[i];
        i = i + 1;
        assert(mem@ =~= put(before, at as int, data@.take(i as int)));
    }
    assert(data@.take(data@.len() as int) =~= data@);
}

/// Fills `count` bytes from `at` on with zero.
pub fn put_zeros(mem: &mut [u8], at: usize, count: usize)
    requires
        at + count <= old(mem)@.len(),
    ensures
        final(mem)@ == put(old(mem)@, at as int, Seq::new(count as nat, |i: int| 0u8)),
{
    let size: usize = mem.len();
    let ghost before = mem@;
    let mut i: usize = 0;
    while i < count
        invariant
            i <= count,
            at + count <= before.len() == size,
            mem@ == put(before, at as int, Seq::new(i as nat, |k: int| 0u8)),
        decreases count - i,
    {
        mem[at + i] = 0;
        i = i + 1;
        assert(mem@ =~= put(before, at as int, Seq::new(i as nat, |k: int| 0u8)));
    }
}

/// Reads two bytes at `at`.
pub fn get_u16(mem: &[u8], at: usize) -> (r: u16)
    requires
        at + 2 <= mem@.len(),
    ensures
        r == u16_at(mem@, at as int),
{
    (mem[at] as u16) + 0x100 * (mem[at + 1] as u16)
}

/// Reads four bytes at `at`.
pub fn get_u32(mem: &[u8], at: usize) -> (r: u32)
    requires
        at + 4 <= mem@.len(),
    ensures
        r == u32_at(mem@, at as int),
{
    (mem[at] as u32) + 0x100 * (mem[at + 1] as u32) + 0x10000 * (mem[at + 2] as u32) + 0x1000000 * (
    mem[at + 3] as u32)
}

// ---- By the byte -------------------------------------------------------------

/// What is written stands where it was written, byte by byte, and every other
/// byte stays as it was.
pub proof fn writes_reach_their_bytes_alone(mem: Seq<u8>, at: int, data: Seq<u8>)
    ensures
        put(mem, at, data).len() == mem.len(),
        forall|i: int|
            0 <= i < mem.len() && at <= i < at + data.len() ==> #[trigger] put(mem, at, data)[i]
                == data[i - at],
        forall|i: int|
            0 <= i < mem.len() && !(at <= i < at + data.len()) ==> #[trigger] put(mem, at, data)[i]
                == mem[i],
{
}

/// Integers stand in memory with their low byte first.
pub proof fn integers_are_little_endian(x: u32, y: u16, mem: Seq<u8>, at: int)
    ensures
        le32(x).len() == 4,
        x == le32(x)[0] + 256 * le32(x)[1] + 65536 * le32(x)[2] + 16777216 * le32(x)[3],
        le16(y).len() == 2,
        y == le16(y)[0] + 256 * le16(y)[1],
        u32_at(mem, at) == mem[at] + 256 * mem[at + 1] + 65536 * mem[at + 2] + 16777216 * mem[at
            + 3],
        u16_at(mem, at) == mem[at] + 256 * mem[at + 1],
{
}

/// Four bytes keep a number modulo 2^32.
pub proof fn four_bytes_keep_the_low_bits(x: nat)
    ensures
        low32(x) == x % 4294967296,
{
    reveal(low32);
}

} // verus!
