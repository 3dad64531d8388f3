//! What a resolver and a name server decide: the identifier of a query, the
//! address that a response gives, and the response to a query.

use crate::dns::header::{DnsHeader, RESPONSE_FLAGS};
use crate::dns::message::{questions_view, records_view, DnsMessage, DnsMessageView};
use crate::dns::question::{DnsQuestion, CLASS_IN, TYPE_A};
use crate::dns::record::{DnsResourceRecord, RecordView};
use vstd::prelude::*;

verus! {

/// The time to live of an answer, in seconds.
pub const ANSWER_TTL: u32 = 300;

/// An identifier for a query, made from a counter and the time: the low
/// sixteen bits of 31 times the counter plus the time.
pub fn random_u16(val: u32, time: u32) -> (id: u16)
    ensures
        id == (val * 31 + time) % 0x1_0000,
{
    let sum: u64 = (val as u64) * 31 + (time as u64);
    (sum % 0x1_0000) as u16
}

/// Whether a record is an address record with an address of four bytes.
pub open spec fn is_address(record: RecordView) -> bool {
    record.rtype == TYPE_A && record.rdata.len() == 4
}

/// The first address record among `answers`, from `from` on, if there is one.
pub open spec fn first_address_from(answers: Seq<RecordView>, from: int) -> Option<Seq<u8>>
    decreases answers.len() - from,
{
    if from < 0 || from >= answers.len() {
        None
    } else if is_address(answers[from]) {
        Some(answers[from].rdata)
    } else {
        first_address_from(answers, from + 1)
    }
}

/// The address that `response` gives to the query numbered `query_id`: that
/// of its first address record. None where the response bears another number
/// or holds no address record.
pub open spec fn address_in(response: DnsMessageView, query_id: u16) -> Option<Seq<u8>> {
    if response.header.id == query_id {
        first_address_from(response.answers, 0)
    } else {
        None
    }
}

/// The address that `response` gives to the query numbered `query_id`.
pub fn first_address(response: &DnsMessage, query_id: u16) -> (address: Option<[u8; 4]>)
    ensures
        match address_in(response@, query_id) {
            Some(bytes) => address matches Some(ip) && ip@ == bytes,
            None => address is None,
        },
{
    if response.header.id != query_id {
        return None;
    }
    let ghost answers = records_view(response.answers@);
    let mut i: usize = 0;
    while i < response.answers.len()
        invariant
            i <= response.answers.len(),
            response.header.id == query_id,
            answers == records_view(response.answers@),
            first_address_from(answers, 0) == first_address_from(answers, i as int),
        decreases response.answers.len() - i,
    {
        let answer = &response.answers[i];
        assert(answers[i as int] == answer@);
        if answer.rtype == TYPE_A && answer.rdata.len() == 4 {
            let ip: [u8; 4] = [answer.rdata[0], answer.rdata[1], answer.rdata[2], answer.rdata[3]];
            assert(ip@ =~= answer.rdata@);
            return Some(ip);
        }
        i += 1;
    }
    None
}

/// The name whose address `query` asks for: that of its first question, if
/// the question asks for an address.
pub open spec fn name_asked(query: DnsMessageView) -> Option<Seq<char>> {
    if query.questions.len() > 0 && query.questions[0].qtype == TYPE_A {
        Some(query.questions[0].qname)
    } else {
        None
    }
}

/// The name whose address `query` asks for.
pub fn queried_name(query: &DnsMessage) -> (name: Option<String>)
    ensures
        match name_asked(query@) {
            Some(asked) => name matches Some(s) && s@ == asked,
            None => name is None,
        },
{
    if query.questions.len() > 0 && query.questions[0].qtype == TYPE_A {
        assert(query@.questions[0] == query.questions[0]@);
        Some(query.questions[0].qname.clone())
    } else {
        None
    }
}

/// The response to `query`, given the address that is on record for the name
/// it asks for: the query's number and questions, and one answer with that
/// address where a name was asked for and has one.
pub open spec fn response_to(query: DnsMessageView, address: Option<Seq<u8>>) -> DnsMessageView {
    let answered = name_asked(query) is Some && address is Some;
    DnsMessageView {
        header: DnsHeader {
            id: query.header.id,
            flags: RESPONSE_FLAGS,
            qdcount: 1,
            ancount: if answered {
                1
            } else {
                0
            },
            nscount: 0,
            arcount: 0,
        },
        questions: query.questions,
        answers: if answered {
            seq![
                RecordView {
                    name: name_asked(query)->0,
                    rtype: TYPE_A,
                    rclass: CLASS_IN,
                    ttl: ANSWER_TTL,
                    rdlength: 4,
                    rdata: address->0,
                },
            ]
        } else {
            Seq::<RecordView>::empty()
        },
        authority: Seq::<RecordView>::empty(),
        additional: Seq::<RecordView>::empty(),
    }
}

/// The response to `query`. `address` is the address on record for the name
/// that the query asks for, if there is one.
pub fn handle_query(query: &DnsMessage, address: Option<[u8; 4]>) -> (response: DnsMessage)
    ensures
        response@ == response_to(
            query@,
            match address {
                Some(ip) => Some(ip@),
                None => None,
            },
        ),
{
    let mut questions: Vec<DnsQuestion> = Vec::new();
    let mut i: usize = 0;
    while i < query.questions.len()
        invariant
            i <= query.questions.len(),
            questions.len() == i,
            forall|k: int| 0 <= k < i ==> questions[k]@ == query.questions[k]@,
        decreases query.questions.len() - i,
    {
        questions.push(query.questions[i].clone());
        i += 1;
    }
    assert(questions_view(questions@) =~= questions_view(query.questions@));
    let mut response = DnsMessage {
        header: DnsHeader::new_response(query.header.id, 1, 0),
        questions,
        answers: Vec::new(),
        authority: Vec::new(),
        additional: Vec::new(),
    };
    match (queried_name(query), address) {
        (Some(name), Some(ip)) => {
            response.answers.push(DnsResourceRecord::new_a_record(name, ip, ANSWER_TTL));
            response.header.ancount = 1;
        },
        _ => {},
    }
    proof {
        let expected = response_to(
            query@,
            match address {
                Some(ip) => Some(ip@),
                None => None,
            },
        );
        assert(response@.answers =~= expected.answers);
        assert(response@.authority =~= expected.authority);
        assert(response@.additional =~= expected.additional);
    }
    response
}

} // verus!
