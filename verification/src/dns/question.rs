//! The question of a DNS message: a name, a type and a class.

use crate::dns::name::{decode_domain_name, name_bytes, parse_name, push_name};
use crate::endian::{push_u16_be, read_u16_be, u16_be, u16_from_be};
use vstd::prelude::*;
use vstd::utf8::encode_utf8;

verus! {

/// The type of an address record.
pub const TYPE_A: u16 = 1;

/// The Internet class.
pub const CLASS_IN: u16 = 1;

/// A question: the name asked about, the type of record asked for, and the
/// class.
#[derive(Debug)]
pub struct DnsQuestion {
    pub qname: String,
    pub qtype: u16,
    pub qclass: u16,
}

/// What a [`DnsQuestion`] says.
pub struct QuestionView {
    pub qname: Seq<char>,
    pub qtype: u16,
    pub qclass: u16,
}

impl View for DnsQuestion {
    type V = QuestionView;

    open spec fn view(&self) -> QuestionView {
        QuestionView { qname: self.qname@, qtype: self.qtype, qclass: self.qclass }
    }
}

impl Clone for DnsQuestion {
    fn clone(&self) -> (copy: Self)
        ensures
            copy@ == self@,
    {
        DnsQuestion { qname: self.qname.clone(), qtype: self.qtype, qclass: self.qclass }
    }
}

/// A question on the wire: the name, then type and class in two big-endian
/// bytes each.
pub open spec fn question_bytes(q: QuestionView) -> Seq<u8> {
    name_bytes(encode_utf8(q.qname)) + u16_be(q.qtype) + u16_be(q.qclass)
}

/// The question that starts at `pos` and where it ends; none where the name
/// is none or fewer than four bytes follow it.
pub open spec fn parse_question(data: Seq<u8>, pos: int) -> Option<(QuestionView, int)> {
    match parse_name(data, pos) {
        Some((qname, end)) => if end + 4 > data.len() {
            None
        } else {
            Some(
                (
                    QuestionView {
                        qname,
                        qtype: u16_from_be(data.subrange(end, end + 2)),
                        qclass: u16_from_be(data.subrange(end + 2, end + 4)),
                    },
                    end + 4,
                ),
            )
        },
        None => None,
    }
}

/// Appends the wire form of `question` to `out`.
pub fn push_question(out: &mut Vec<u8>, question: &DnsQuestion)
    ensures
        final(out)@ == old(out)@ + question_bytes(question@),
{
    push_name(out, &question.qname);
    push_u16_be(out, question.qtype);
    push_u16_be(out, question.qclass);
    assert(out@ =~= old(out)@ + question_bytes(question@));
}

impl DnsQuestion {
    /// A question of the Internet class.
    pub fn new(qname: String, qtype: u16) -> (q: Self)
        ensures
            q@ == (QuestionView { qname: qname@, qtype, qclass: CLASS_IN }),
    {
        DnsQuestion { qname, qtype, qclass: CLASS_IN }
    }

    /// The question on the wire.
    pub fn to_bytes(&self) -> (bytes: Vec<u8>)
        ensures
            bytes@ == question_bytes(self@),
    {
        let mut bytes: Vec<u8> = Vec::new();
        push_question(&mut bytes, self);
        assert(bytes@ =~= question_bytes(self@));
        bytes
    }

    /// Reads the question at `offset` and moves `offset` behind it. Gives
    /// nothing, and leaves `offset`, where there is no question.
    pub fn from_bytes(data: &[u8], offset: &mut usize) -> (q: Option<Self>)
        ensures
            match parse_question(data@, *old(offset) as int) {
                Some((question, end)) => q matches Some(found) && found@ == question
                    && *final(offset) == end && end <= data@.len(),
                None => q is None && *final(offset) == *old(offset),
            },
    {
        let mut at: usize = *offset;
        let qname = match decode_domain_name(data, &mut at) {
            Some(qname) => qname,
            None => { return None; },
        };
        if data.len() - at < 4 {
            return None;
        }
        let qtype = read_u16_be(data, at);
        let qclass = read_u16_be(data, at + 2);
        *offset = at + 4;
        Some(DnsQuestion { qname, qtype, qclass })
    }
}

} // verus!
