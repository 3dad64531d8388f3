//! The twelve-byte header of a DNS message.

use crate::endian::{
    lemma_u16_be_round_trip, lemma_u16_from_be_inverse, push_u16_be, read_u16_be, u16_be,
    u16_from_be,
};
use vstd::prelude::*;

verus! {

/// The flags of a query: recursion desired.
pub const QUERY_FLAGS: u16 = 0x0100;

/// The flags of a response: response, recursion desired and available.
pub const RESPONSE_FLAGS: u16 = 0x8180;

/// The header of a DNS message: an identifier, flags, and the numbers of
/// questions, answers, authority records and additional records.
#[derive(Debug, Clone, Copy, PartialEq, Eq, Structural)]
pub struct DnsHeader {
    pub id: u16,
    pub flags: u16,
    pub qdcount: u16,
    pub ancount: u16,
    pub nscount: u16,
    pub arcount: u16,
}

/// The header on the wire: its six numbers, each in two big-endian bytes.
pub open spec fn header_bytes(h: DnsHeader) -> Seq<u8> {
    u16_be(h.id) + u16_be(h.flags) + u16_be(h.qdcount) + u16_be(h.ancount) + u16_be(h.nscount)
        + u16_be(h.arcount)
}

/// The header that the first twelve bytes of `data` hold; none where `data`
/// is shorter.
pub open spec fn parse_header(data: Seq<u8>) -> Option<DnsHeader> {
    if data.len() < 12 {
        None
    } else {
        Some(
            DnsHeader {
                id: u16_from_be(data.subrange(0, 2)),
                flags: u16_from_be(data.subrange(2, 4)),
                qdcount: u16_from_be(data.subrange(4, 6)),
                ancount: u16_from_be(data.subrange(6, 8)),
                nscount: u16_from_be(data.subrange(8, 10)),
                arcount: u16_from_be(data.subrange(10, 12)),
            },
        )
    }
}

/// A header is twelve bytes long, and is read back from them, whatever
/// follows.
pub proof fn header_round_trip(h: DnsHeader, rest: Seq<u8>)
    ensures
        header_bytes(h).len() == 12,
        parse_header(header_bytes(h) + rest) == Some(h),
{
    let empty = Seq::<u8>::empty();
    lemma_u16_be_round_trip(h.id, empty);
    lemma_u16_be_round_trip(h.flags, empty);
    lemma_u16_be_round_trip(h.qdcount, empty);
    lemma_u16_be_round_trip(h.ancount, empty);
    lemma_u16_be_round_trip(h.nscount, empty);
    lemma_u16_be_round_trip(h.arcount, empty);
    let data = header_bytes(h) + rest;
    assert(data.subrange(0, 2) =~= u16_be(h.id) + empty);
    assert(data.subrange(2, 4) =~= u16_be(h.flags) + empty);
    assert(data.subrange(4, 6) =~= u16_be(h.qdcount) + empty);
    assert(data.subrange(6, 8) =~= u16_be(h.ancount) + empty);
    assert(data.subrange(8, 10) =~= u16_be(h.nscount) + empty);
    assert(data.subrange(10, 12) =~= u16_be(h.arcount) + empty);
}

/// The first twelve bytes of data from which a header is read are that
/// header written.
pub proof fn header_is_canonical(data: Seq<u8>)
    requires
        parse_header(data) is Some,
    ensures
        parse_header(data) matches Some(h) && data.subrange(0, 12) == header_bytes(h),
{
    let h = parse_header(data)->0;
    lemma_u16_from_be_inverse(data.subrange(0, 2));
    lemma_u16_from_be_inverse(data.subrange(2, 4));
    lemma_u16_from_be_inverse(data.subrange(4, 6));
    lemma_u16_from_be_inverse(data.subrange(6, 8));
    lemma_u16_from_be_inverse(data.subrange(8, 10));
    lemma_u16_from_be_inverse(data.subrange(10, 12));
    assert(data.subrange(0, 2).subrange(0, 2) =~= data.subrange(0, 2));
    assert(data.subrange(2, 4).subrange(0, 2) =~= data.subrange(2, 4));
    assert(data.subrange(4, 6).subrange(0, 2) =~= data.subrange(4, 6));
    assert(data.subrange(6, 8).subrange(0, 2) =~= data.subrange(6, 8));
    assert(data.subrange(8, 10).subrange(0, 2) =~= data.subrange(8, 10));
    assert(data.subrange(10, 12).subrange(0, 2) =~= data.subrange(10, 12));
    assert(data.subrange(0, 12) =~= header_bytes(h));
}

impl DnsHeader {
    /// The header of a query with one question.
    pub fn new_query(id: u16) -> (h: Self)
        ensures
            h == (DnsHeader {
                id,
                flags: QUERY_FLAGS,
                qdcount: 1,
                ancount: 0,
                nscount: 0,
                arcount: 0,
            }),
    {
        DnsHeader { id, flags: QUERY_FLAGS, qdcount: 1, ancount: 0, nscount: 0, arcount: 0 }
    }

    /// The header of a response with that many questions and answers.
    pub fn new_response(id: u16, questions: u16, answers: u16) -> (h: Self)
        ensures
            h == (DnsHeader {
                id,
                flags: RESPONSE_FLAGS,
                qdcount: questions,
                ancount: answers,
                nscount: 0,
                arcount: 0,
            }),
    {
        DnsHeader {
            id,
            flags: RESPONSE_FLAGS,
            qdcount: questions,
            ancount: answers,
            nscount: 0,
            arcount: 0,
        }
    }

    /// The twelve bytes of the header.
    pub fn to_bytes(&self) -> (bytes: Vec<u8>)
        ensures
            bytes@ == header_bytes(*self),
            bytes@.len() == 12,
            parse_header(bytes@) == Some(*self),
    {
        let mut bytes: Vec<u8> = Vec::with_capacity(12);
        push_u16_be(&mut bytes, self.id);
        push_u16_be(&mut bytes, self.flags);
        push_u16_be(&mut bytes, self.qdcount);
        push_u16_be(&mut bytes, self.ancount);
        push_u16_be(&mut bytes, self.nscount);
        push_u16_be(&mut bytes, self.arcount);
        proof {
            assert(bytes@ =~= header_bytes(*self));
            header_round_trip(*self, Seq::<u8>::empty());
            assert(header_bytes(*self) + Seq::<u8>::empty() =~= header_bytes(*self));
        }
        bytes
    }

    /// The header at the start of `data`; `None` where `data` has fewer
    /// than twelve bytes.
    pub fn from_bytes(data: &[u8]) -> (h: Option<Self>)
        ensures
            h == parse_header(data@),
    {
        if data.len() < 12 {
            return None;
        }
        Some(
            DnsHeader {
                id: read_u16_be(data, 0),
                flags: read_u16_be(data, 2),
                qdcount: read_u16_be(data, 4),
                ancount: read_u16_be(data, 6),
                nscount: read_u16_be(data, 8),
                arcount: read_u16_be(data, 10),
            },
        )
    }
}

} // verus!
