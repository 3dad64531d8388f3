//! Questions and records that are read back as they were written.

use crate::dns::header::{header_bytes, header_round_trip};
use crate::dns::message::{
    message_bytes, parse_message, parse_questions, parse_records, questions_bytes, records_bytes,
    DnsMessageView,
};
use crate::dns::name::name_bytes;
use crate::dns::name_laws::{dotted, name_round_trip, plain_labels};
use crate::dns::question::{parse_question, question_bytes, QuestionView};
use crate::dns::record::{parse_record, record_bytes, RecordView};
use crate::endian::{lemma_u16_be_round_trip, lemma_u32_be_round_trip, u16_be, u32_be};
use vstd::prelude::*;
use vstd::utf8::encode_utf8;

verus! {

/// The name of the question or record is made of the plain labels `labels`.
pub open spec fn named_by(name: Seq<char>, labels: Seq<Seq<u8>>) -> bool {
    plain_labels(labels) && encode_utf8(name) == dotted(labels)
}

/// A question whose name is made of plain labels is read back as it was
/// written, wherever it stands, and reading ends behind it.
pub proof fn question_round_trip(q: QuestionView, labels: Seq<Seq<u8>>, pre: Seq<u8>, rest: Seq<u8>)
    requires
        named_by(q.qname, labels),
    ensures
        parse_question(pre + question_bytes(q) + rest, pre.len() as int) == Some(
            (q, pre.len() as int + question_bytes(q).len()),
        ),
{
    let empty = Seq::<u8>::empty();
    let name = name_bytes(encode_utf8(q.qname));
    let after = u16_be(q.qtype) + u16_be(q.qclass) + rest;
    let data = pre + question_bytes(q) + rest;
    name_round_trip(q.qname, labels, pre, after);
    lemma_u16_be_round_trip(q.qtype, empty);
    lemma_u16_be_round_trip(q.qclass, empty);
    assert(data =~= pre + name + after);
    let end = pre.len() as int + name.len();
    assert(data.subrange(end, end + 2) =~= u16_be(q.qtype) + empty);
    assert(data.subrange(end + 2, end + 4) =~= u16_be(q.qclass) + empty);
}

/// A record whose name is made of plain labels and whose written length is
/// that of its data is read back as it was written, wherever it stands, and
/// reading ends behind it.
pub proof fn record_round_trip(r: RecordView, labels: Seq<Seq<u8>>, pre: Seq<u8>, rest: Seq<u8>)
    requires
        named_by(r.name, labels),
        r.rdlength == r.rdata.len(),
    ensures
        parse_record(pre + record_bytes(r) + rest, pre.len() as int) == Some(
            (r, pre.len() as int + record_bytes(r).len()),
        ),
{
    let empty = Seq::<u8>::empty();
    let name = name_bytes(encode_utf8(r.name));
    let after = u16_be(r.rtype) + u16_be(r.rclass) + u32_be(r.ttl) + u16_be(r.rdlength) + r.rdata
        + rest;
    let data = pre + record_bytes(r) + rest;
    name_round_trip(r.name, labels, pre, after);
    lemma_u16_be_round_trip(r.rtype, empty);
    lemma_u16_be_round_trip(r.rclass, empty);
    lemma_u32_be_round_trip(r.ttl, empty);
    lemma_u16_be_round_trip(r.rdlength, empty);
    assert(data =~= pre + name + after);
    let end = pre.len() as int + name.len();
    assert(data.subrange(end, end + 2) =~= u16_be(r.rtype) + empty);
    assert(data.subrange(end + 2, end + 4) =~= u16_be(r.rclass) + empty);
    assert(data.subrange(end + 4, end + 8) =~= u32_be(r.ttl) + empty);
    assert(data.subrange(end + 8, end + 10) =~= u16_be(r.rdlength) + empty);
    assert(data.subrange(end + 10, end + 10 + r.rdlength) =~= r.rdata);
}

/// The question's name is made of plain labels.
pub open spec fn plain_question(q: QuestionView) -> bool {
    exists|labels: Seq<Seq<u8>>| named_by(q.qname, labels)
}

/// The record's name is made of plain labels, and its written length is
/// that of its data.
pub open spec fn plain_record(r: RecordView) -> bool {
    &&& exists|labels: Seq<Seq<u8>>| named_by(r.name, labels)
    &&& r.rdlength == r.rdata.len()
}

/// Questions written one after the other: the first, then the others.
proof fn lemma_questions_front(first: QuestionView, others: Seq<QuestionView>)
    ensures
        questions_bytes(seq![first] + others) == question_bytes(first) + questions_bytes(others),
    decreases others.len(),
{
    let all = seq![first] + others;
    if others.len() == 0 {
        reveal_with_fuel(questions_bytes, 2);
        assert(all.drop_last() =~= Seq::<QuestionView>::empty());
        assert(all.last() == first);
        assert(questions_bytes(all) =~= question_bytes(first) + questions_bytes(others));
    } else {
        lemma_questions_front(first, others.drop_last());
        assert(all.drop_last() =~= seq![first] + others.drop_last());
        assert(all.last() == others.last());
        assert(questions_bytes(all) =~= question_bytes(first) + questions_bytes(others));
    }
}

/// Records written one after the other: the first, then the others.
proof fn lemma_records_front(first: RecordView, others: Seq<RecordView>)
    ensures
        records_bytes(seq![first] + others) == record_bytes(first) + records_bytes(others),
    decreases others.len(),
{
    let all = seq![first] + others;
    if others.len() == 0 {
        reveal_with_fuel(records_bytes, 2);
        assert(all.drop_last() =~= Seq::<RecordView>::empty());
        assert(all.last() == first);
        assert(records_bytes(all) =~= record_bytes(first) + records_bytes(others));
    } else {
        lemma_records_front(first, others.drop_last());
        assert(all.drop_last() =~= seq![first] + others.drop_last());
        assert(all.last() == others.last());
        assert(records_bytes(all) =~= record_bytes(first) + records_bytes(others));
    }
}

/// Plain questions are read back as they were written, wherever they stand.
pub proof fn questions_round_trip(list: Seq<QuestionView>, pre: Seq<u8>, rest: Seq<u8>)
    requires
        forall|i: int| 0 <= i < list.len() ==> plain_question(#[trigger] list[i]),
    ensures
        parse_questions(pre + questions_bytes(list) + rest, pre.len() as int, list.len()) == Some(
            (list, pre.len() as int + questions_bytes(list).len()),
        ),
    decreases list.len(),
{
    let data = pre + questions_bytes(list) + rest;
    if list.len() == 0 {
    } else {
        let first = list[0];
        let others = list.drop_first();
        assert(list =~= seq![first] + others);
        lemma_questions_front(first, others);
        assert(plain_question(first));
        let labels = choose|labels: Seq<Seq<u8>>| named_by(first.qname, labels);
        let after = questions_bytes(others) + rest;
        question_round_trip(first, labels, pre, after);
        assert(data =~= pre + question_bytes(first) + after);
        let longer = pre + question_bytes(first);
        assert forall|i: int| 0 <= i < others.len() implies plain_question(#[trigger] others[i]) by {
            assert(others[i] == list[i + 1]);
        }
        questions_round_trip(others, longer, rest);
        assert(data =~= longer + questions_bytes(others) + rest);
    }
}

/// Plain records are read back as they were written, wherever they stand.
pub proof fn records_round_trip(list: Seq<RecordView>, pre: Seq<u8>, rest: Seq<u8>)
    requires
        forall|i: int| 0 <= i < list.len() ==> plain_record(#[trigger] list[i]),
    ensures
        parse_records(pre + records_bytes(list) + rest, pre.len() as int, list.len()) == Some(
            (list, pre.len() as int + records_bytes(list).len()),
        ),
    decreases list.len(),
{
    let data = pre + records_bytes(list) + rest;
    if list.len() == 0 {
    } else {
        let first = list[0];
        let others = list.drop_first();
        assert(list =~= seq![first] + others);
        lemma_records_front(first, others);
        assert(plain_record(first));
        let labels = choose|labels: Seq<Seq<u8>>| named_by(first.name, labels);
        let after = records_bytes(others) + rest;
        record_round_trip(first, labels, pre, after);
        assert(data =~= pre + record_bytes(first) + after);
        let longer = pre + record_bytes(first);
        assert forall|i: int| 0 <= i < others.len() implies plain_record(#[trigger] others[i]) by {
            assert(others[i] == list[i + 1]);
        }
        records_round_trip(others, longer, rest);
        assert(data =~= longer + records_bytes(others) + rest);
    }
}

/// A message whose header counts its questions and answers, and whose names
/// are made of plain labels, is read back as it was written, whatever
/// follows it. The authority and additional sections are not written, and
/// are read back empty.
pub proof fn message_round_trip(m: DnsMessageView, rest: Seq<u8>)
    requires
        m.header.qdcount == m.questions.len(),
        m.header.ancount == m.answers.len(),
        forall|i: int| 0 <= i < m.questions.len() ==> plain_question(#[trigger] m.questions[i]),
        forall|i: int| 0 <= i < m.answers.len() ==> plain_record(#[trigger] m.answers[i]),
    ensures
        parse_message(message_bytes(m) + rest) == Some(
            DnsMessageView {
                header: m.header,
                questions: m.questions,
                answers: m.answers,
                authority: Seq::<RecordView>::empty(),
                additional: Seq::<RecordView>::empty(),
            },
        ),
{
    let data = message_bytes(m) + rest;
    let head = header_bytes(m.header);
    let body = questions_bytes(m.questions);
    let tail = records_bytes(m.answers) + rest;
    header_round_trip(m.header, body + tail);
    assert(data =~= head + (body + tail));
    questions_round_trip(m.questions, head, tail);
    assert(data =~= head + body + tail);
    records_round_trip(m.answers, head + body, rest);
    assert(data =~= (head + body) + records_bytes(m.answers) + rest);
}

} // verus!
