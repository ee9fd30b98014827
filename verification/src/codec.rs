//! Packing of fixed-width integers into bytes, least significant byte first,
//! and the inverse reading used when stating what emitted bytes mean.
//!
//! The arithmetic of these definitions is kept out of sight of proofs that
//! only place and read whole fields: the definitions are opaque, and the
//! lemmas below say what such proofs need of them.

use vstd::prelude::*;

verus! {

/// The low 32 bits of `x`: what a 32-bit field keeps of an offset or a size.
#[verifier::opaque]
pub open spec fn low32(x: int) -> u32 {
    (x % 0x1_0000_0000) as u32
}

/// The low 64 bits of `x`.
#[verifier::opaque]
pub open spec fn low64(x: int) -> u64 {
    (x % 0x1_0000_0000_0000_0000) as u64
}

/// `n` zero bytes.
pub open spec fn zeros(n: int) -> Seq<u8> {
    Seq::new(
        if n < 0 {
            0
        } else {
            n as nat
        },
        |i: int| 0u8,
    )
}

/// The two bytes of `x`, least significant first.
#[verifier::opaque]
pub open spec fn u16_le(x: u16) -> Seq<u8> {
    seq![(x % 256) as u8, (x / 256) as u8]
}

/// The four bytes of `x`, least significant first.
#[verifier::opaque]
pub open spec fn u32_le(x: u32) -> Seq<u8> {
    seq![
        (x % 256) as u8,
        (x / 0x100 % 256) as u8,
        (x / 0x1_0000 % 256) as u8,
        (x / 0x100_0000) as u8,
    ]
}

/// The eight bytes of `x`, least significant first.
#[verifier::opaque]
pub open spec fn u64_le(x: u64) -> Seq<u8> {
    u32_le((x % 0x1_0000_0000) as u32) + u32_le((x / 0x1_0000_0000) as u32)
}

/// The value that the two bytes of `b` starting at `at` spell, least
/// significant byte first.
#[verifier::opaque]
pub open spec fn read_u16(b: Seq<u8>, at: int) -> int {
    b[at] + 0x100 * b[at + 1]
}

/// The value that the four bytes of `b` starting at `at` spell.
#[verifier::opaque]
pub open spec fn read_u32(b: Seq<u8>, at: int) -> int {
    b[at] + 0x100 * b[at + 1] + 0x1_0000 * b[at + 2] + 0x100_0000 * b[at + 3]
}

/// The value that the eight bytes of `b` starting at `at` spell.
#[verifier::opaque]
pub open spec fn read_u64(b: Seq<u8>, at: int) -> int {
    read_u32(b, at) + 0x1_0000_0000 * read_u32(b, at + 4)
}

/// An offset or size below 2^32 is kept whole by a 32-bit field.
pub proof fn lemma_low32_exact(x: int)
    requires
        0 <= x < 0x1_0000_0000,
    ensures
        low32(x) == x,
{
    reveal(low32);
}

/// An offset or size below 2^64 is kept whole by a 64-bit field.
pub proof fn lemma_low64_exact(x: int)
    requires
        0 <= x < 0x1_0000_0000_0000_0000,
    ensures
        low64(x) == x,
{
    reveal(low64);
}

/// A packed 16-bit value takes two bytes and reads back as the value.
pub proof fn lemma_read_u16(x: u16)
    ensures
        u16_le(x).len() == 2,
        read_u16(u16_le(x), 0) == x,
{
    reveal(u16_le);
    reveal(read_u16);
}

/// A packed 32-bit value takes four bytes and reads back as the value.
pub proof fn lemma_read_u32(x: u32)
    ensures
        u32_le(x).len() == 4,
        read_u32(u32_le(x), 0) == x,
{
    reveal(u32_le);
    reveal(read_u32);
}

/// A packed 64-bit value takes eight bytes and reads back as the value.
pub proof fn lemma_read_u64(x: u64)
    ensures
        u64_le(x).len() == 8,
        read_u64(u64_le(x), 0) == x,
{
    reveal(u64_le);
    reveal(read_u64);
    let lo: u32 = (x % 0x1_0000_0000) as u32;
    let hi: u32 = (x / 0x1_0000_0000) as u32;
    lemma_read_u32(lo);
    lemma_read_u32(hi);
    lemma_read_u32_shifted(u64_le(x), 0, u32_le(lo), 0);
    lemma_read_u32_shifted(u64_le(x), 4, u32_le(hi), 0);
}

/// Reading depends only on the four bytes read.
pub proof fn lemma_read_u32_shifted(a: Seq<u8>, i: int, b: Seq<u8>, j: int)
    requires
        0 <= i,
        i + 4 <= a.len(),
        0 <= j,
        j + 4 <= b.len(),
        a[i] == b[j],
        a[i + 1] == b[j + 1],
        a[i + 2] == b[j + 2],
        a[i + 3] == b[j + 3],
    ensures
        read_u32(a, i) == read_u32(b, j),
{
    reveal(read_u32);
}

/// Keeps the low 32 bits of an offset or size computed without overflow.
pub fn truncate32(x: u128) -> (r: u32)
    ensures
        r == low32(x as int),
{
    proof {
        reveal(low32);
    }
    (x % 0x1_0000_0000) as u32
}

/// Keeps the low 64 bits of an offset or size computed without overflow.
pub fn truncate64(x: u128) -> (r: u64)
    ensures
        r == low64(x as int),
{
    proof {
        reveal(low64);
    }
    (x % 0x1_0000_0000_0000_0000) as u64
}

/// Appends the two bytes of `x`.
pub fn put_u16(out: &mut Vec<u8>, x: u16)
    ensures
        final(out)@ == old(out)@ + u16_le(x),
{
    out.push((x % 256) as u8);
    out.push((x / 256) as u8);
    proof {
        reveal(u16_le);
        assert(out@ =~= old(out)@ + u16_le(x));
    }
}

/// Appends the four bytes of `x`.
pub fn put_u32(out: &mut Vec<u8>, x: u32)
    ensures
        final(out)@ == old(out)@ + u32_le(x),
{
    out.push((x % 256) as u8);
    out.push((x / 0x100 % 256) as u8);
    out.push((x / 0x1_0000 % 256) as u8);
    out.push((x / 0x100_0000) as u8);
    proof {
        reveal(u32_le);
        assert(out@ =~= old(out)@ + u32_le(x));
    }
}

/// Appends the eight bytes of `x`.
pub fn put_u64(out: &mut Vec<u8>, x: u64)
    ensures
        final(out)@ == old(out)@ + u64_le(x),
{
    let ghost before = out@;
    put_u32(out, (x % 0x1_0000_0000) as u32);
    put_u32(out, (x / 0x1_0000_0000) as u32);
    proof {
        reveal(u64_le);
        assert(out@ =~= before + u64_le(x));
    }
}

/// Appends `n` zero bytes.
pub fn put_zeros(out: &mut Vec<u8>, n: usize)
    ensures
        final(out)@ == old(out)@ + zeros(n as int),
{
    let mut i: usize = 0;
    while i < n
        invariant
            i <= n,
            out@ == old(out)@ + zeros(i as int),
        decreases n - i,
    {
        out.push(0u8);
        i += 1;
        assert(out@ =~= old(out)@ + zeros(i as int));
    }
}

/// Appends the bytes of `src` unchanged.
pub fn put_bytes(out: &mut Vec<u8>, src: &[u8])
    ensures
        final(out)@ == old(out)@ + src@,
{
    out.extend_from_slice(src);
    assert(out@ =~= old(out)@ + src@);
}

} // verus!
