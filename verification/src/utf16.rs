//! UTF-16 text as the container stores it: a 32-bit byte length, the code
//! units, and a zero code unit that the length does not count.

use crate::codec::{
    lemma_low32_exact, lemma_read_u16, lemma_read_u32, low32, put_bytes, put_u16, put_u32,
    read_u16, read_u32, truncate32, u16_le, u32_le,
};
use crate::window::{lemma_read_u16_at, lemma_read_u32_at, lies_at};
use vstd::prelude::*;

verus! {

/// The code units of one scalar value: one unit within the basic plane, a
/// surrogate pair beyond it.
pub open spec fn char_units(c: char) -> Seq<u16> {
    let v = c as u32;
    if v < 0x1_0000 {
        seq![v as u16]
    } else {
        seq![(0xD800 + (v - 0x1_0000) / 0x400) as u16, (0xDC00 + (v - 0x1_0000) % 0x400) as u16]
    }
}

/// The UTF-16 encoding of a text.
pub open spec fn utf16(s: Seq<char>) -> Seq<u16>
    decreases s.len(),
{
    if s.len() == 0 {
        Seq::empty()
    } else {
        utf16(s.drop_last()) + char_units(s.last())
    }
}

/// The bytes of a sequence of code units, each unit least significant byte
/// first.
#[verifier::opaque]
pub open spec fn units_le(u: Seq<u16>) -> Seq<u8> {
    Seq::new(
        2 * u.len(),
        |i: int|
            if i % 2 == 0 {
                (u[i / 2] % 256) as u8
            } else {
                (u[i / 2] / 256) as u8
            },
    )
}

/// A text as stored: the byte length of its code units in 32 bits, the code
/// units, and a terminating zero unit.
#[verifier::opaque]
pub open spec fn text_blob(s: Seq<char>) -> Seq<u8> {
    u32_le(low32(2 * utf16(s).len() as int)) + units_le(utf16(s)) + u16_le(0)
}

/// Appends the bytes of the code units of `c`.
pub fn put_char(out: &mut Vec<u8>, c: char)
    ensures
        final(out)@ == old(out)@ + units_le(char_units(c)),
{
    let v: u32 = c as u32;
    if v < 0x1_0000 {
        put_u16(out, v as u16);
    } else {
        let w: u32 = v - 0x1_0000;
        put_u16(out, (0xD800 + w / 0x400) as u16);
        put_u16(out, (0xDC00 + w % 0x400) as u16);
    }
    proof {
        reveal(u16_le);
        reveal(units_le);
        assert(out@ =~= old(out)@ + units_le(char_units(c)));
    }
}

/// Code-unit bytes of a text followed by those of one more scalar value.
pub proof fn lemma_units_push(s: Seq<char>, c: char)
    ensures
        units_le(utf16(s.push(c))) == units_le(utf16(s)) + units_le(char_units(c)),
{
    reveal(units_le);
    assert(s.push(c).drop_last() =~= s);
    assert(units_le(utf16(s) + char_units(c)) =~= units_le(utf16(s)) + units_le(char_units(c)));
}

/// The bytes of the UTF-16 code units of `s`.
pub fn encode_utf16(s: &str) -> (bytes: Vec<u8>)
    ensures
        bytes@ == units_le(utf16(s@)),
{
    let mut bytes: Vec<u8> = Vec::new();
    proof {
        reveal(units_le);
        assert(bytes@ =~= units_le(utf16(s@.take(0))));
    }
    for c in it: s.chars()
        invariant
            it.seq() == s@,
            bytes@ == units_le(utf16(s@.take(it.index()))),
    {
        proof {
            lemma_units_push(s@.take(it.index()), c);
            assert(s@.take(it.index() + 1) =~= s@.take(it.index()).push(c));
        }
        put_char(&mut bytes, c);
    }
    assert(s@.take(s@.len() as int) =~= s@);
    bytes
}

/// Appends `s` as stored text.
pub fn put_text(out: &mut Vec<u8>, s: &str)
    ensures
        final(out)@ == old(out)@ + text_blob(s@),
{
    let units: Vec<u8> = encode_utf16(s);
    put_u32(out, truncate32(units.len() as u128));
    put_bytes(out, units.as_slice());
    put_u16(out, 0u16);
    proof {
        reveal(text_blob);
        lemma_units_len(utf16(s@));
        assert(out@ =~= old(out)@ + text_blob(s@));
    }
}

/// Whether `u` alone stands for a scalar value.
pub open spec fn is_scalar_unit(u: u16) -> bool {
    u < 0xD800 || 0xDFFF < u
}

/// Whether `u` opens a surrogate pair.
pub open spec fn is_high_surrogate(u: u16) -> bool {
    0xD800 <= u <= 0xDBFF
}

/// Whether `u` closes a surrogate pair.
pub open spec fn is_low_surrogate(u: u16) -> bool {
    0xDC00 <= u <= 0xDFFF
}

/// The text that a sequence of code units spells, read from the front, or
/// `None` where a surrogate stands unpaired.
pub open spec fn utf16_decode(u: Seq<u16>) -> Option<Seq<char>>
    decreases u.len(),
{
    if u.len() == 0 {
        Some(Seq::empty())
    } else if is_scalar_unit(u[0]) {
        match utf16_decode(u.subrange(1, u.len() as int)) {
            Some(rest) => Some(seq![u[0] as char] + rest),
            None => None,
        }
    } else if u.len() >= 2 && is_high_surrogate(u[0]) && is_low_surrogate(u[1]) {
        match utf16_decode(u.subrange(2, u.len() as int)) {
            Some(rest) => Some(
                seq![(0x1_0000 + (u[0] - 0xD800) * 0x400 + (u[1] - 0xDC00)) as char] + rest,
            ),
            None => None,
        }
    } else {
        None
    }
}

/// The code units that `count` byte pairs of `b` spell, starting at `at`.
pub open spec fn read_units(b: Seq<u8>, at: int, count: int) -> Seq<u16> {
    Seq::new(
        if count < 0 {
            0
        } else {
            count as nat
        },
        |i: int| read_u16(b, at + 2 * i) as u16,
    )
}

/// The text stored at offset `at` of `b`: a 32-bit byte length, that many
/// bytes of well-formed UTF-16, and a zero code unit. `None` where `b` holds
/// no such text there.
#[verifier::opaque]
pub open spec fn read_text(b: Seq<u8>, at: int) -> Option<Seq<char>> {
    let len = read_u32(b, at);
    if 0 <= at && at + 4 + len + 2 <= b.len() && len % 2 == 0 && read_u16(b, at + 4 + len) == 0 {
        utf16_decode(read_units(b, at + 4, len / 2))
    } else {
        None
    }
}

/// The encoding of a text is the code units of its first scalar value
/// followed by the encoding of the rest.
pub proof fn lemma_utf16_front(s: Seq<char>)
    requires
        s.len() > 0,
    ensures
        utf16(s) == char_units(s[0]) + utf16(s.drop_first()),
    decreases s.len(),
{
    if s.len() == 1 {
        assert(s.drop_last() =~= Seq::<char>::empty());
        assert(s.drop_first() =~= Seq::<char>::empty());
        assert(utf16(s) =~= char_units(s[0]) + utf16(s.drop_first()));
    } else {
        lemma_utf16_front(s.drop_last());
        assert(s.drop_last().drop_first() =~= s.drop_first().drop_last());
        assert(s.drop_first().last() == s.last());
        assert(s.drop_last()[0] == s[0]);
        assert(utf16(s) =~= char_units(s[0]) + utf16(s.drop_first()));
    }
}

/// Every text is recovered from its UTF-16 encoding.
pub proof fn lemma_utf16_round_trip(s: Seq<char>)
    ensures
        utf16_decode(utf16(s)) == Some(s),
    decreases s.len(),
{
    if s.len() > 0 {
        let c = s[0];
        let rest = s.drop_first();
        lemma_utf16_front(s);
        lemma_utf16_round_trip(rest);
        let u = utf16(s);
        let v = c as u32;
        vstd::utf8::char_is_scalar(c);
        vstd::utf8::char_u32_cast(c, v);
        if v < 0x1_0000 {
            assert(u.subrange(1, u.len() as int) =~= utf16(rest));
            assert(u[0] == v as u16);
            assert(u[0] as char == c);
        } else {
            assert(u.subrange(2, u.len() as int) =~= utf16(rest));
            assert(u[0] == (0xD800 + (v - 0x1_0000) / 0x400) as u16);
            assert(u[1] == (0xDC00 + (v - 0x1_0000) % 0x400) as u16);
            assert((0x1_0000 + (u[0] - 0xD800) * 0x400 + (u[1] - 0xDC00)) as char == c);
        }
        assert(seq![c] + rest =~= s);
    }
}

/// A stored text is six bytes longer than its code units.
pub proof fn lemma_text_blob_len(s: Seq<char>)
    ensures
        text_blob(s).len() == 6 + 2 * utf16(s).len(),
{
    reveal(text_blob);
    lemma_units_len(utf16(s));
    lemma_read_u32(low32(2 * utf16(s).len() as int));
    lemma_read_u16(0);
}

/// Code units take two bytes each.
pub proof fn lemma_units_len(u: Seq<u16>)
    ensures
        units_le(u).len() == 2 * u.len(),
{
    reveal(units_le);
}

/// A stored text whose code units take fewer than 2^32 bytes reads back as
/// the text, wherever it is embedded.
pub proof fn lemma_read_text(before: Seq<u8>, s: Seq<char>, after: Seq<u8>)
    requires
        2 * utf16(s).len() < 0x1_0000_0000,
    ensures
        read_text(before + text_blob(s) + after, before.len() as int) == Some(s),
{
    reveal(text_blob);
    reveal(read_text);
    let u = utf16(s);
    let len = 2 * u.len() as int;
    let at = before.len() as int;
    let b = before + text_blob(s) + after;
    let prefix = u32_le(low32(len));
    let units = units_le(u);
    lemma_units_len(u);
    lemma_read_u32(low32(len));
    lemma_read_u16(0);
    lemma_low32_exact(len);
    assert(read_u32(b, at) == len) by {
        assert(b =~= before + prefix + (units + u16_le(0) + after));
        lemma_read_u32_at(before, low32(len), units + u16_le(0) + after);
    }
    assert(read_u16(b, at + 4 + len) == 0) by {
        assert(b =~= (before + prefix + units) + u16_le(0) + after);
        lemma_read_u16_at(before + prefix + units, 0, after);
    }
    assert forall|i: int| 0 <= i < u.len() implies read_units(b, at + 4, len / 2)[i] == u[i] by {
        reveal(units_le);
        reveal(read_u16);
        assert(b[at + 4 + 2 * i] == units[2 * i]);
        assert(b[at + 4 + 2 * i + 1] == units[2 * i + 1]);
    }
    assert(read_units(b, at + 4, len / 2) =~= u);
    lemma_utf16_round_trip(s);
}

/// A stored text whose code units take fewer than 2^32 bytes reads back as
/// the text at the offset at which it lies.
pub proof fn lemma_read_text_within(whole: Seq<u8>, at: int, s: Seq<char>)
    requires
        lies_at(whole, at, text_blob(s)),
        2 * utf16(s).len() < 0x1_0000_0000,
    ensures
        read_text(whole, at) == Some(s),
{
    let end = at + text_blob(s).len();
    let before = whole.subrange(0, at);
    let after = whole.subrange(end, whole.len() as int);
    assert(whole =~= before + whole.subrange(at, end) + after);
    lemma_read_text(before, s, after);
}

} // verus!
