//! A whole DNS message: the header, the questions and the answers.

use crate::dns::header::{header_bytes, parse_header, DnsHeader, QUERY_FLAGS};
use crate::dns::question::{
    parse_question, push_question, question_bytes, DnsQuestion, QuestionView, CLASS_IN, TYPE_A,
};
use crate::dns::record::{parse_record, push_record, record_bytes, DnsResourceRecord, RecordView};
use vstd::prelude::*;
use vstd::string::StringExecFns;

verus! {

/// A DNS message. Only the questions and the answers are written and read;
/// the authority and additional sections are carried in memory only.
#[derive(Debug)]
pub struct DnsMessage {
    pub header: DnsHeader,
    pub questions: Vec<DnsQuestion>,
    pub answers: Vec<DnsResourceRecord>,
    pub authority: Vec<DnsResourceRecord>,
    pub additional: Vec<DnsResourceRecord>,
}

/// What a [`DnsMessage`] says.
pub struct DnsMessageView {
    pub header: DnsHeader,
    pub questions: Seq<QuestionView>,
    pub answers: Seq<RecordView>,
    pub authority: Seq<RecordView>,
    pub additional: Seq<RecordView>,
}

/// What a list of questions says.
pub open spec fn questions_view(list: Seq<DnsQuestion>) -> Seq<QuestionView> {
    Seq::new(list.len(), |i: int| list[i]@)
}

/// What a list of records says.
pub open spec fn records_view(list: Seq<DnsResourceRecord>) -> Seq<RecordView> {
    Seq::new(list.len(), |i: int| list[i]@)
}

impl View for DnsMessage {
    type V = DnsMessageView;

    open spec fn view(&self) -> DnsMessageView {
        DnsMessageView {
            header: self.header,
            questions: questions_view(self.questions@),
            answers: records_view(self.answers@),
            authority: records_view(self.authority@),
            additional: records_view(self.additional@),
        }
    }
}

/// The questions on the wire, one after the other.
pub open spec fn questions_bytes(list: Seq<QuestionView>) -> Seq<u8>
    decreases list.len(),
{
    if list.len() == 0 {
        Seq::<u8>::empty()
    } else {
        questions_bytes(list.drop_last()) + question_bytes(list.last())
    }
}

/// The records on the wire, one after the other.
pub open spec fn records_bytes(list: Seq<RecordView>) -> Seq<u8>
    decreases list.len(),
{
    if list.len() == 0 {
        Seq::<u8>::empty()
    } else {
        records_bytes(list.drop_last()) + record_bytes(list.last())
    }
}

/// A message on the wire: the header, the questions, the answers.
pub open spec fn message_bytes(m: DnsMessageView) -> Seq<u8> {
    header_bytes(m.header) + questions_bytes(m.questions) + records_bytes(m.answers)
}

/// `count` questions from `pos` on, and where they end.
pub open spec fn parse_questions(data: Seq<u8>, pos: int, count: nat) -> Option<
    (Seq<QuestionView>, int),
>
    decreases count,
{
    if count == 0 {
        Some((Seq::<QuestionView>::empty(), pos))
    } else {
        match parse_question(data, pos) {
            Some((first, next)) => match parse_questions(data, next, (count - 1) as nat) {
                Some((others, end)) => Some((seq![first] + others, end)),
                None => None,
            },
            None => None,
        }
    }
}

/// `count` records from `pos` on, and where they end.
pub open spec fn parse_records(data: Seq<u8>, pos: int, count: nat) -> Option<(Seq<RecordView>, int)>
    decreases count,
{
    if count == 0 {
        Some((Seq::<RecordView>::empty(), pos))
    } else {
        match parse_record(data, pos) {
            Some((first, next)) => match parse_records(data, next, (count - 1) as nat) {
                Some((others, end)) => Some((seq![first] + others, end)),
                None => None,
            },
            None => None,
        }
    }
}

/// The message that `data` holds: the header, as many questions as the
/// header counts, and as many answers. What follows the answers is not read.
pub open spec fn parse_message(data: Seq<u8>) -> Option<DnsMessageView> {
    match parse_header(data) {
        Some(header) => match parse_questions(data, 12, header.qdcount as nat) {
            Some((questions, next)) => match parse_records(data, next, header.ancount as nat) {
                Some((answers, end)) => Some(
                    DnsMessageView {
                        header,
                        questions,
                        answers,
                        authority: Seq::<RecordView>::empty(),
                        additional: Seq::<RecordView>::empty(),
                    },
                ),
                None => None,
            },
            None => None,
        },
        None => None,
    }
}

/// Reads `count` questions at `offset`.
fn read_questions(data: &[u8], offset: &mut usize, count: u16) -> (list: Option<Vec<DnsQuestion>>)
    ensures
        match parse_questions(data@, *old(offset) as int, count as nat) {
            Some((questions, end)) => list matches Some(found) && questions_view(found@)
                == questions && *final(offset) == end,
            None => list is None,
        },
{
    let mut list: Vec<DnsQuestion> = Vec::new();
    let mut done: u16 = 0;
    let ghost whole = parse_questions(data@, *old(offset) as int, count as nat);
    proof {
        match parse_questions(data@, *offset as int, (count - done) as nat) {
            Some((others, end)) => {
                assert(questions_view(list@) + others =~= others);
            },
            None => {},
        }
    }
    while done < count
        invariant
            done <= count,
            whole == parse_questions(data@, *old(offset) as int, count as nat),
            whole == match parse_questions(data@, *offset as int, (count - done) as nat) {
                Some((others, end)) => Some((questions_view(list@) + others, end)),
                None => None,
            },
        decreases count - done,
    {
        let ghost before = questions_view(list@);
        match DnsQuestion::from_bytes(data, offset) {
            Some(question) => {
                list.push(question);
                proof {
                    assert(questions_view(list@) =~= before.push(question@));
                    match parse_questions(data@, *offset as int, (count - done - 1) as nat) {
                        Some((others, end)) => {
                            assert(before + (seq![question@] + others) =~= questions_view(list@)
                                + others);
                        },
                        None => {},
                    }
                }
                done += 1;
            },
            None => {
                return None;
            },
        }
    }
    assert(questions_view(list@) + Seq::<QuestionView>::empty() =~= questions_view(list@));
    Some(list)
}

/// Reads `count` records at `offset`.
fn read_records(data: &[u8], offset: &mut usize, count: u16) -> (list: Option<Vec<DnsResourceRecord>>)
    ensures
        match parse_records(data@, *old(offset) as int, count as nat) {
            Some((records, end)) => list matches Some(found) && records_view(found@) == records
                && *final(offset) == end,
            None => list is None,
        },
{
    let mut list: Vec<DnsResourceRecord> = Vec::new();
    let mut done: u16 = 0;
    let ghost whole = parse_records(data@, *old(offset) as int, count as nat);
    proof {
        match parse_records(data@, *offset as int, (count - done) as nat) {
            Some((others, end)) => {
                assert(records_view(list@) + others =~= others);
            },
            None => {},
        }
    }
    while done < count
        invariant
            done <= count,
            whole == parse_records(data@, *old(offset) as int, count as nat),
            whole == match parse_records(data@, *offset as int, (count - done) as nat) {
                Some((others, end)) => Some((records_view(list@) + others, end)),
                None => None,
            },
        decreases count - done,
    {
        let ghost before = records_view(list@);
        match DnsResourceRecord::from_bytes(data, offset) {
            Some(record) => {
                list.push(record);
                proof {
                    assert(records_view(list@) =~= before.push(record@));
                    match parse_records(data@, *offset as int, (count - done - 1) as nat) {
                        Some((others, end)) => {
                            assert(before + (seq![record@] + others) =~= records_view(list@)
                                + others);
                        },
                        None => {},
                    }
                }
                done += 1;
            },
            None => {
                return None;
            },
        }
    }
    assert(records_view(list@) + Seq::<RecordView>::empty() =~= records_view(list@));
    Some(list)
}

impl DnsMessage {
    /// A query for the address of `domain`: one question, no records.
    pub fn new_query(id: u16, domain: &str) -> (m: Self)
        ensures
            m@ == (DnsMessageView {
                header: DnsHeader {
                    id,
                    flags: QUERY_FLAGS,
                    qdcount: 1,
                    ancount: 0,
                    nscount: 0,
                    arcount: 0,
                },
                questions: seq![QuestionView { qname: domain@, qtype: TYPE_A, qclass: CLASS_IN }],
                answers: Seq::<RecordView>::empty(),
                authority: Seq::<RecordView>::empty(),
                additional: Seq::<RecordView>::empty(),
            }),
    {
        let mut questions: Vec<DnsQuestion> = Vec::new();
        questions.push(DnsQuestion::new(String::from_str(domain), TYPE_A));
        let m = DnsMessage {
            header: DnsHeader::new_query(id),
            questions,
            answers: Vec::new(),
            authority: Vec::new(),
            additional: Vec::new(),
        };
        proof {
            assert(m@.questions =~= seq![
                QuestionView { qname: domain@, qtype: TYPE_A, qclass: CLASS_IN },
            ]);
            assert(m@.answers =~= Seq::<RecordView>::empty());
            assert(m@.authority =~= Seq::<RecordView>::empty());
            assert(m@.additional =~= Seq::<RecordView>::empty());
        }
        m
    }

    /// The message on the wire: the header, every question and every answer.
    pub fn to_bytes(&self) -> (bytes: Vec<u8>)
        ensures
            bytes@ == message_bytes(self@),
    {
        let mut bytes = self.header.to_bytes();
        let ghost questions = questions_view(self.questions@);
        let ghost answers = records_view(self.answers@);
        let mut i: usize = 0;
        assert(questions.take(0) =~= Seq::<QuestionView>::empty());
        assert(bytes@ =~= header_bytes(self.header) + questions_bytes(questions.take(0)));
        while i < self.questions.len()
            invariant
                i <= self.questions.len(),
                questions == questions_view(self.questions@),
                bytes@ == header_bytes(self.header) + questions_bytes(questions.take(i as int)),
            decreases self.questions.len() - i,
        {
            push_question(&mut bytes, &self.questions[i]);
            proof {
                let upto = questions.take(i + 1);
                assert(upto.drop_last() =~= questions.take(i as int));
                assert(upto.last() == self.questions[i as int]@);
                assert(bytes@ =~= header_bytes(self.header) + questions_bytes(upto));
            }
            i += 1;
        }
        assert(questions.take(self.questions.len() as int) =~= questions);
        let ghost front = bytes@;
        let mut k: usize = 0;
        assert(answers.take(0) =~= Seq::<RecordView>::empty());
        assert(bytes@ =~= front + records_bytes(answers.take(0)));
        while k < self.answers.len()
            invariant
                k <= self.answers.len(),
                answers == records_view(self.answers@),
                bytes@ == front + records_bytes(answers.take(k as int)),
            decreases self.answers.len() - k,
        {
            push_record(&mut bytes, &self.answers[k]);
            proof {
                let upto = answers.take(k + 1);
                assert(upto.drop_last() =~= answers.take(k as int));
                assert(upto.last() == self.answers[k as int]@);
                assert(bytes@ =~= front + records_bytes(upto));
            }
            k += 1;
        }
        assert(answers.take(self.answers.len() as int) =~= answers);
        bytes
    }

    /// The message that `data` holds; `None` where the header, a question
    /// or an answer is cut short or has no name.
    pub fn from_bytes(data: &[u8]) -> (m: Option<Self>)
        ensures
            match parse_message(data@) {
                Some(message) => m matches Some(found) && found@ == message,
                None => m is None,
            },
    {
        let header = match DnsHeader::from_bytes(data) {
            Some(header) => header,
            None => { return None; },
        };
        let mut offset: usize = 12;
        let questions = match read_questions(data, &mut offset, header.qdcount) {
            Some(questions) => questions,
            None => { return None; },
        };
        let answers = match read_records(data, &mut offset, header.ancount) {
            Some(answers) => answers,
            None => { return None; },
        };
        let m = DnsMessage {
            header,
            questions,
            answers,
            authority: Vec::new(),
            additional: Vec::new(),
        };
        proof {
            assert(m@.authority =~= Seq::<RecordView>::empty());
            assert(m@.additional =~= Seq::<RecordView>::empty());
        }
        Some(m)
    }
}

} // verus!
