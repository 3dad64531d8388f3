//! Fixed-width integers as byte sequences, in network (big-endian) and
//! little-endian order.
//!
//! The spec functions are written with division and remainder so that the
//! round-trip facts are plain integer arithmetic.

use vstd::arithmetic::div_mod::{lemma_div_denominator, lemma_fundamental_div_mod_converse};
use vstd::prelude::*;

verus! {

/// The base-256 digits of a four-digit number are the digits it was built from.
proof fn lemma_four_digits(a: int, b: int, c: int, d: int)
    requires
        0 <= a < 0x100,
        0 <= b < 0x100,
        0 <= c < 0x100,
        0 <= d < 0x100,
    ensures
        ({
            let v = a + b * 0x100 + c * 0x1_0000 + d * 0x100_0000;
            &&& 0 <= v < 0x1_0000_0000
            &&& v % 0x100 == a
            &&& (v / 0x100) % 0x100 == b
            &&& (v / 0x1_0000) % 0x100 == c
            &&& v / 0x100_0000 == d
        }),
{
    let v = a + b * 0x100 + c * 0x1_0000 + d * 0x100_0000;
    let v1 = b + c * 0x100 + d * 0x1_0000;
    let v2 = c + d * 0x100;
    lemma_fundamental_div_mod_converse(v, 0x100, v1, a);
    lemma_fundamental_div_mod_converse(v1, 0x100, v2, b);
    lemma_fundamental_div_mod_converse(v, 0x1_0000, v2, a + b * 0x100);
    lemma_fundamental_div_mod_converse(v2, 0x100, d, c);
    lemma_fundamental_div_mod_converse(v, 0x100_0000, d, a + b * 0x100 + c * 0x1_0000);
}

/// A number below 2^32 is the sum of its four base-256 digits.
proof fn lemma_digits_of(x: int)
    requires
        0 <= x < 0x1_0000_0000,
    ensures
        x == x % 0x100 + ((x / 0x100) % 0x100) * 0x100 + ((x / 0x1_0000) % 0x100) * 0x1_0000 + (x
            / 0x100_0000) * 0x100_0000,
        0 <= x / 0x100_0000 < 0x100,
{
    let q1 = x / 0x100;
    let q2 = q1 / 0x100;
    let q3 = q2 / 0x100;
    lemma_div_denominator(x, 0x100, 0x100);
    lemma_div_denominator(q1, 0x100, 0x100);
    lemma_div_denominator(x, 0x100, 0x1_0000);
    assert(q2 == x / 0x1_0000);
    assert(q3 == x / 0x100_0000);
    assert(x == 0x100 * q1 + x % 0x100);
    assert(q1 == 0x100 * q2 + q1 % 0x100);
    assert(q2 == 0x100 * q3 + q2 % 0x100);
}

/// The two bytes of `x`, most significant first.
#[verifier::opaque]
pub open spec fn u16_be(x: u16) -> Seq<u8> {
    seq![(x / 0x100) as u8, (x % 0x100) as u8]
}

/// The number whose big-endian bytes are the first two bytes of `s`.
#[verifier::opaque]
pub open spec fn u16_from_be(s: Seq<u8>) -> u16
    recommends
        s.len() >= 2,
{
    (s[0] as int * 0x100 + s[1] as int) as u16
}

/// The four bytes of `x`, most significant first.
#[verifier::opaque]
pub open spec fn u32_be(x: u32) -> Seq<u8> {
    seq![
        (x / 0x100_0000) as u8,
        ((x / 0x1_0000) % 0x100) as u8,
        ((x / 0x100) % 0x100) as u8,
        (x % 0x100) as u8,
    ]
}

/// The number whose big-endian bytes are the first four bytes of `s`.
#[verifier::opaque]
pub open spec fn u32_from_be(s: Seq<u8>) -> u32
    recommends
        s.len() >= 4,
{
    (s[0] as int * 0x100_0000 + s[1] as int * 0x1_0000 + s[2] as int * 0x100 + s[3] as int) as u32
}

/// The four bytes of `x`, least significant first.
#[verifier::opaque]
pub open spec fn u32_le(x: u32) -> Seq<u8> {
    seq![
        (x % 0x100) as u8,
        ((x / 0x100) % 0x100) as u8,
        ((x / 0x1_0000) % 0x100) as u8,
        (x / 0x100_0000) as u8,
    ]
}

/// The number whose little-endian bytes are the first four bytes of `s`.
#[verifier::opaque]
pub open spec fn u32_from_le(s: Seq<u8>) -> u32
    recommends
        s.len() >= 4,
{
    (s[0] as int + s[1] as int * 0x100 + s[2] as int * 0x1_0000 + s[3] as int * 0x100_0000) as u32
}

/// The eight bytes of `x`, least significant first.
#[verifier::opaque]
pub open spec fn u64_le(x: u64) -> Seq<u8> {
    u32_le((x % 0x1_0000_0000) as u32) + u32_le((x / 0x1_0000_0000) as u32)
}

/// The number whose little-endian bytes are the first eight bytes of `s`.
#[verifier::opaque]
pub open spec fn u64_from_le(s: Seq<u8>) -> u64
    recommends
        s.len() >= 8,
{
    (u32_from_le(s.subrange(0, 4)) as int + u32_from_le(s.subrange(4, 8)) as int * 0x1_0000_0000) as u64
}

/// Decoding the big-endian bytes of a 16-bit number gives the number back,
/// whatever follows the two bytes.
pub proof fn lemma_u16_be_round_trip(x: u16, rest: Seq<u8>)
    ensures
        u16_be(x).len() == 2,
        u16_from_be(u16_be(x) + rest) == x,
{
    reveal(u16_be);
    reveal(u16_from_be);
}

/// Two bytes are the big-endian encoding of the number they decode to.
pub proof fn lemma_u16_from_be_inverse(s: Seq<u8>)
    requires
        s.len() >= 2,
    ensures
        u16_be(u16_from_be(s)) == s.subrange(0, 2),
{
    reveal(u16_be);
    reveal(u16_from_be);
    assert(u16_be(u16_from_be(s)) =~= s.subrange(0, 2));
}

/// Decoding the big-endian bytes of a 32-bit number gives the number back,
/// whatever follows the four bytes.
pub proof fn lemma_u32_be_round_trip(x: u32, rest: Seq<u8>)
    ensures
        u32_be(x).len() == 4,
        u32_from_be(u32_be(x) + rest) == x,
{
    reveal(u32_be);
    reveal(u32_from_be);
    lemma_digits_of(x as int);
}

/// Four bytes are the big-endian encoding of the number they decode to.
pub proof fn lemma_u32_from_be_inverse(s: Seq<u8>)
    requires
        s.len() >= 4,
    ensures
        u32_be(u32_from_be(s)) == s.subrange(0, 4),
{
    reveal(u32_be);
    reveal(u32_from_be);
    lemma_four_digits(s[3] as int, s[2] as int, s[1] as int, s[0] as int);
    assert(u32_be(u32_from_be(s)) =~= s.subrange(0, 4));
}

/// Decoding the little-endian bytes of a 32-bit number gives the number back,
/// whatever follows the four bytes.
pub proof fn lemma_u32_le_round_trip(x: u32, rest: Seq<u8>)
    ensures
        u32_le(x).len() == 4,
        u32_from_le(u32_le(x) + rest) == x,
{
    reveal(u32_le);
    reveal(u32_from_le);
    lemma_digits_of(x as int);
}

/// Four bytes are the little-endian encoding of the number they decode to.
pub proof fn lemma_u32_from_le_inverse(s: Seq<u8>)
    requires
        s.len() >= 4,
    ensures
        u32_le(u32_from_le(s)) == s.subrange(0, 4),
{
    reveal(u32_le);
    reveal(u32_from_le);
    lemma_four_digits(s[0] as int, s[1] as int, s[2] as int, s[3] as int);
    assert(u32_le(u32_from_le(s)) =~= s.subrange(0, 4));
}

/// Decoding the little-endian bytes of a 64-bit number gives the number back,
/// whatever follows the eight bytes.
pub proof fn lemma_u64_le_round_trip(x: u64, rest: Seq<u8>)
    ensures
        u64_le(x).len() == 8,
        u64_from_le(u64_le(x) + rest) == x,
{
    reveal(u64_le);
    reveal(u64_from_le);
    let lo = (x % 0x1_0000_0000) as u32;
    let hi = (x / 0x1_0000_0000) as u32;
    let s = u64_le(x) + rest;
    lemma_u32_le_round_trip(lo, Seq::<u8>::empty());
    lemma_u32_le_round_trip(hi, Seq::<u8>::empty());
    assert(s.subrange(0, 4) =~= u32_le(lo) + Seq::<u8>::empty());
    assert(s.subrange(4, 8) =~= u32_le(hi) + Seq::<u8>::empty());
}

/// Eight bytes are the little-endian encoding of the number they decode to.
pub proof fn lemma_u64_from_le_inverse(s: Seq<u8>)
    requires
        s.len() >= 8,
    ensures
        u64_le(u64_from_le(s)) == s.subrange(0, 8),
{
    reveal(u64_le);
    reveal(u64_from_le);
    let lo = u32_from_le(s.subrange(0, 4));
    let hi = u32_from_le(s.subrange(4, 8));
    lemma_u32_from_le_inverse(s.subrange(0, 4));
    lemma_u32_from_le_inverse(s.subrange(4, 8));
    assert(u64_from_le(s) % 0x1_0000_0000 == lo);
    assert(u64_from_le(s) / 0x1_0000_0000 == hi);
    assert(u64_le(u64_from_le(s)) =~= s.subrange(0, 8));
}

/// The 32-bit little-endian number at the front of a sequence depends on its
/// first four bytes only.
pub proof fn lemma_u32_from_le_prefix(s: Seq<u8>, t: Seq<u8>)
    requires
        s.len() >= 4,
        t.len() >= 4,
        s.subrange(0, 4) == t.subrange(0, 4),
    ensures
        u32_from_le(s) == u32_from_le(t),
{
    reveal(u32_from_le);
    assert forall|i: int| 0 <= i < 4 implies s[i] == t[i] by {
        assert(s[i] == s.subrange(0, 4)[i]);
        assert(t[i] == t.subrange(0, 4)[i]);
    }
}

/// The 64-bit little-endian number at the front of a sequence depends on its
/// first eight bytes only.
pub proof fn lemma_u64_from_le_prefix(s: Seq<u8>, t: Seq<u8>)
    requires
        s.len() >= 8,
        t.len() >= 8,
        s.subrange(0, 8) == t.subrange(0, 8),
    ensures
        u64_from_le(s) == u64_from_le(t),
{
    reveal(u64_from_le);
    assert(s.subrange(0, 4) =~= s.subrange(0, 8).subrange(0, 4));
    assert(t.subrange(0, 4) =~= t.subrange(0, 8).subrange(0, 4));
    assert(s.subrange(4, 8) =~= s.subrange(0, 8).subrange(4, 8));
    assert(t.subrange(4, 8) =~= t.subrange(0, 8).subrange(4, 8));
}

/// The 32-bit big-endian number at the front of a sequence depends on its
/// first four bytes only.
pub proof fn lemma_u32_from_be_prefix(s: Seq<u8>, t: Seq<u8>)
    requires
        s.len() >= 4,
        t.len() >= 4,
        s.subrange(0, 4) == t.subrange(0, 4),
    ensures
        u32_from_be(s) == u32_from_be(t),
{
    reveal(u32_from_be);
    assert forall|i: int| 0 <= i < 4 implies s[i] == t[i] by {
        assert(s[i] == s.subrange(0, 4)[i]);
        assert(t[i] == t.subrange(0, 4)[i]);
    }
}

/// Appends the big-endian bytes of `x` to `out`.
pub fn push_u16_be(out: &mut Vec<u8>, x: u16)
    ensures
        final(out)@ == old(out)@ + u16_be(x),
{
    proof {
        reveal(u16_be);
    }
    out.push((x / 0x100) as u8);
    out.push((x % 0x100) as u8);
    assert(out@ =~= old(out)@ + u16_be(x));
}

/// Appends the big-endian bytes of `x` to `out`.
pub fn push_u32_be(out: &mut Vec<u8>, x: u32)
    ensures
        final(out)@ == old(out)@ + u32_be(x),
{
    proof {
        reveal(u32_be);
    }
    out.push((x / 0x100_0000) as u8);
    out.push(((x / 0x1_0000) % 0x100) as u8);
    out.push(((x / 0x100) % 0x100) as u8);
    out.push((x % 0x100) as u8);
    assert(out@ =~= old(out)@ + u32_be(x));
}

/// Appends the little-endian bytes of `x` to `out`.
pub fn push_u32_le(out: &mut Vec<u8>, x: u32)
    ensures
        final(out)@ == old(out)@ + u32_le(x),
{
    proof {
        reveal(u32_le);
    }
    out.push((x % 0x100) as u8);
    out.push(((x / 0x100) % 0x100) as u8);
    out.push(((x / 0x1_0000) % 0x100) as u8);
    out.push((x / 0x100_0000) as u8);
    assert(out@ =~= old(out)@ + u32_le(x));
}

/// Appends the little-endian bytes of `x` to `out`.
pub fn push_u64_le(out: &mut Vec<u8>, x: u64)
    ensures
        final(out)@ == old(out)@ + u64_le(x),
{
    proof {
        reveal(u64_le);
    }
    push_u32_le(out, (x % 0x1_0000_0000) as u32);
    push_u32_le(out, (x / 0x1_0000_0000) as u32);
    assert(out@ =~= old(out)@ + u64_le(x));
}

/// Reads the 16-bit big-endian number at `at`.
pub fn read_u16_be(data: &[u8], at: usize) -> (x: u16)
    requires
        at + 2 <= data@.len(),
    ensures
        x == u16_from_be(data@.subrange(at as int, at + 2)),
{
    proof {
        reveal(u16_from_be);
    }
    (data[at] as u16) * 0x100 + (data[at + 1] as u16)
}

/// Reads the 32-bit big-endian number at `at`.
pub fn read_u32_be(data: &[u8], at: usize) -> (x: u32)
    requires
        at + 4 <= data@.len(),
    ensures
        x == u32_from_be(data@.subrange(at as int, at + 4)),
{
    proof {
        reveal(u32_from_be);
    }
    (data[at] as u32) * 0x100_0000 + (data[at + 1] as u32) * 0x1_0000 + (data[at + 2] as u32)
        * 0x100 + (data[at + 3] as u32)
}

/// Reads the 32-bit little-endian number at `at`.
pub fn read_u32_le(data: &[u8], at: usize) -> (x: u32)
    requires
        at + 4 <= data@.len(),
    ensures
        x == u32_from_le(data@.subrange(at as int, at + 4)),
{
    proof {
        reveal(u32_from_le);
    }
    (data[at] as u32) + (data[at + 1] as u32) * 0x100 + (data[at + 2] as u32) * 0x1_0000 + (data[at
        + 3] as u32) * 0x100_0000
}

/// Reads the 64-bit little-endian number at `at`.
pub fn read_u64_le(data: &[u8], at: usize) -> (x: u64)
    requires
        at + 8 <= data@.len(),
    ensures
        x == u64_from_le(data@.subrange(at as int, at + 8)),
{
    proof {
        reveal(u64_from_le);
    }
    let len = data.len();
    let lo = read_u32_le(data, at);
    let hi = read_u32_le(data, at + 4);
    proof {
        let s = data@.subrange(at as int, at + 8);
        assert(s.subrange(0, 4) =~= data@.subrange(at as int, at + 4));
        assert(s.subrange(4, 8) =~= data@.subrange(at + 4, at + 8));
    }
    (lo as u64) + (hi as u64) * 0x1_0000_0000
}

} // verus!
