//! Finding a byte in a byte string.

use vstd::prelude::*;

verus! {

/// Where the first `byte` of `bytes` stands; the length of `bytes` where it
/// has none.
pub open spec fn first_byte(bytes: Seq<u8>, byte: u8) -> int
    decreases bytes.len(),
{
    if bytes.len() == 0 {
        0
    } else if bytes[0] == byte {
        0
    } else {
        1 + first_byte(bytes.drop_first(), byte)
    }
}

/// The first `byte` stands where one is that none precedes.
pub proof fn lemma_first_byte(bytes: Seq<u8>, byte: u8, at: int)
    requires
        0 <= at <= bytes.len(),
        forall|k: int| 0 <= k < at ==> bytes[k] != byte,
        at < bytes.len() ==> bytes[at] == byte,
    ensures
        first_byte(bytes, byte) == at,
    decreases bytes.len(),
{
    if bytes.len() > 0 && at > 0 {
        let tail = bytes.drop_first();
        assert forall|k: int| 0 <= k < at - 1 implies tail[k] != byte by {
            assert(tail[k] == bytes[k + 1]);
        }
        lemma_first_byte(tail, byte, at - 1);
    }
}

/// The first `byte` stands within the string or at its end, and nothing
/// before it is that byte.
pub proof fn lemma_first_byte_bounds(bytes: Seq<u8>, byte: u8)
    ensures
        0 <= first_byte(bytes, byte) <= bytes.len(),
        forall|k: int| 0 <= k < first_byte(bytes, byte) ==> bytes[k] != byte,
        first_byte(bytes, byte) < bytes.len() ==> bytes[first_byte(bytes, byte)] == byte,
    decreases bytes.len(),
{
    if bytes.len() > 0 && bytes[0] != byte {
        let tail = bytes.drop_first();
        lemma_first_byte_bounds(tail, byte);
        assert forall|k: int| 0 <= k < first_byte(bytes, byte) implies bytes[k] != byte by {
            if k > 0 {
                assert(tail[k - 1] == bytes[k]);
            }
        }
    }
}

/// The place of the first `byte` of `bytes` at or after `from`; the length
/// of `bytes` where none follows.
pub fn find_byte(bytes: &[u8], from: usize, byte: u8) -> (at: usize)
    requires
        from <= bytes@.len(),
    ensures
        from <= at <= bytes@.len(),
        at - from == first_byte(bytes@.skip(from as int), byte),
{
    let mut at: usize = from;
    while at < bytes.len() && bytes[at] != byte
        invariant
            from <= at <= bytes@.len(),
            forall|k: int| from <= k < at ==> bytes@[k] != byte,
        decreases bytes.len() - at,
    {
        at += 1;
    }
    proof {
        lemma_first_byte(bytes@.skip(from as int), byte, at - from);
    }
    at
}

/// Whether two byte strings are the same.
pub fn same_bytes(a: &[u8], b: &[u8]) -> (same: bool)
    ensures
        same == (a@ == b@),
{
    if a.len() != b.len() {
        return false;
    }
    let mut i: usize = 0;
    while i < a.len()
        invariant
            a@.len() == b@.len(),
            i <= a@.len(),
            forall|k: int| 0 <= k < i ==> a@[k] == b@[k],
        decreases a.len() - i,
    {
        if a[i] != b[i] {
            return false;
        }
        i += 1;
    }
    assert(a@ =~= b@);
    true
}

} // verus!
