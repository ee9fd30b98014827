//! Where a part lies in a whole: the relation in which offsets embedded in a
//! file are stated, and how it carries over from a piece of a concatenation
//! to the concatenation.

use crate::codec::{
    lemma_read_u16, lemma_read_u32, lemma_read_u32_shifted, lemma_read_u64, read_u16, read_u32,
    read_u64, u16_le, u32_le, u64_le,
};
use vstd::prelude::*;

verus! {

/// Whether the bytes of `whole` from offset `at` on are those of `part`.
pub open spec fn lies_at(whole: Seq<u8>, at: int, part: Seq<u8>) -> bool {
    &&& 0 <= at
    &&& at + part.len() <= whole.len()
    &&& whole.subrange(at, at + part.len()) == part
}

/// A sequence lies in itself at offset zero.
pub proof fn lemma_lies_in_itself(part: Seq<u8>)
    ensures
        lies_at(part, 0, part),
{
    assert(part.subrange(0, part.len() as int) =~= part);
}

/// What lies in `a` lies at the same offset in `a + b`.
pub proof fn lemma_lies_in_left(a: Seq<u8>, b: Seq<u8>, at: int, part: Seq<u8>)
    requires
        lies_at(a, at, part),
    ensures
        lies_at(a + b, at, part),
{
    assert((a + b).subrange(at, at + part.len()) =~= a.subrange(at, at + part.len()));
}

/// What lies in `b` lies in `a + b` further on by the length of `a`.
pub proof fn lemma_lies_in_right(a: Seq<u8>, b: Seq<u8>, at: int, part: Seq<u8>)
    requires
        lies_at(b, at, part),
    ensures
        lies_at(a + b, a.len() + at, part),
{
    assert((a + b).subrange(a.len() + at, a.len() + at + part.len()) =~= b.subrange(
        at,
        at + part.len(),
    ));
}

/// What lies in a part of `whole` lies in `whole`.
pub proof fn lemma_lies_within(whole: Seq<u8>, at: int, mid: Seq<u8>, inner: int, part: Seq<u8>)
    requires
        lies_at(whole, at, mid),
        lies_at(mid, inner, part),
    ensures
        lies_at(whole, at + inner, part),
{
    assert(whole.subrange(at + inner, at + inner + part.len()) =~= whole.subrange(
        at,
        at + mid.len(),
    ).subrange(inner, inner + part.len()));
}

/// A 16-bit field of a part reads in the whole as it reads in the part.
pub proof fn lemma_read_u16_within(whole: Seq<u8>, at: int, part: Seq<u8>, field: int)
    requires
        lies_at(whole, at, part),
        0 <= field,
        field + 2 <= part.len(),
    ensures
        read_u16(whole, at + field) == read_u16(part, field),
{
    reveal(read_u16);
    let w = whole.subrange(at, at + part.len());
    assert(w[field] == whole[at + field]);
    assert(w[field + 1] == whole[at + field + 1]);
}

/// A 32-bit field of a part reads in the whole as it reads in the part.
pub proof fn lemma_read_u32_within(whole: Seq<u8>, at: int, part: Seq<u8>, field: int)
    requires
        lies_at(whole, at, part),
        0 <= field,
        field + 4 <= part.len(),
    ensures
        read_u32(whole, at + field) == read_u32(part, field),
{
    let w = whole.subrange(at, at + part.len());
    assert(w[field] == whole[at + field]);
    assert(w[field + 1] == whole[at + field + 1]);
    assert(w[field + 2] == whole[at + field + 2]);
    assert(w[field + 3] == whole[at + field + 3]);
    lemma_read_u32_shifted(whole, at + field, part, field);
}

/// A 64-bit field of a part reads in the whole as it reads in the part.
pub proof fn lemma_read_u64_within(whole: Seq<u8>, at: int, part: Seq<u8>, field: int)
    requires
        lies_at(whole, at, part),
        0 <= field,
        field + 8 <= part.len(),
    ensures
        read_u64(whole, at + field) == read_u64(part, field),
{
    reveal(read_u64);
    lemma_read_u32_within(whole, at, part, field);
    lemma_read_u32_within(whole, at, part, field + 4);
}

/// What stands between two others lies right after the first.
pub proof fn lemma_lies_between(before: Seq<u8>, part: Seq<u8>, after: Seq<u8>)
    ensures
        lies_at(before + part + after, before.len() as int, part),
{
    lemma_lies_in_itself(part);
    lemma_lies_in_right(before, part, 0, part);
    lemma_lies_in_left(before + part, after, before.len() as int, part);
}

/// A packed 16-bit value embedded in a longer sequence reads as the value.
pub proof fn lemma_read_u16_at(before: Seq<u8>, x: u16, after: Seq<u8>)
    ensures
        read_u16(before + u16_le(x) + after, before.len() as int) == x,
{
    lemma_read_u16(x);
    lemma_lies_between(before, u16_le(x), after);
    lemma_read_u16_within(before + u16_le(x) + after, before.len() as int, u16_le(x), 0);
}

/// A packed 32-bit value embedded in a longer sequence reads as the value.
pub proof fn lemma_read_u32_at(before: Seq<u8>, x: u32, after: Seq<u8>)
    ensures
        read_u32(before + u32_le(x) + after, before.len() as int) == x,
{
    lemma_read_u32(x);
    lemma_lies_between(before, u32_le(x), after);
    lemma_read_u32_within(before + u32_le(x) + after, before.len() as int, u32_le(x), 0);
}

/// A packed 64-bit value embedded in a longer sequence reads as the value.
pub proof fn lemma_read_u64_at(before: Seq<u8>, x: u64, after: Seq<u8>)
    ensures
        read_u64(before + u64_le(x) + after, before.len() as int) == x,
{
    lemma_read_u64(x);
    lemma_lies_between(before, u64_le(x), after);
    lemma_read_u64_within(before + u64_le(x) + after, before.len() as int, u64_le(x), 0);
}

} // verus!
