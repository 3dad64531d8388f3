//! Names that are read back as they were written: those made of labels that
//! are not empty, hold no dot and are short enough for their length byte not
//! to read as a pointer.

use crate::dns::name::{joined, label_bytes, labels_bytes, name_bytes, name_end, parse_labels, parse_name};
use crate::scan::lemma_first_byte;
use vstd::prelude::*;
use vstd::utf8::{
    decode_utf8, decode_utf8_split, encode_utf8, encode_utf8_decode_utf8, encode_utf8_valid_utf8,
    is_ascii_chars, is_ascii_chars_encode_utf8, is_char_boundary_iff_not_is_continuation_byte,
    valid_utf8, valid_utf8_concat,
};

verus! {

/// A label that survives the wire: not empty, without a dot, valid UTF-8,
/// and shorter than the first length byte that reads as a pointer.
pub open spec fn plain_label(label: Seq<u8>) -> bool {
    &&& 0 < label.len() < 0xC0
    &&& forall|i: int| 0 <= i < label.len() ==> label[i] != 0x2E
    &&& valid_utf8(label)
}

/// Every label is plain.
pub open spec fn plain_labels(labels: Seq<Seq<u8>>) -> bool {
    forall|i: int| 0 <= i < labels.len() ==> plain_label(#[trigger] labels[i])
}

/// The labels with a dot between each two, in UTF-8.
pub open spec fn dotted(labels: Seq<Seq<u8>>) -> Seq<u8>
    decreases labels.len(),
{
    if labels.len() == 0 {
        Seq::<u8>::empty()
    } else if labels.len() == 1 {
        labels[0]
    } else {
        labels[0] + seq![0x2Eu8] + dotted(labels.drop_first())
    }
}

/// The labels on the wire: each its length and its bytes.
pub open spec fn wire(labels: Seq<Seq<u8>>) -> Seq<u8>
    decreases labels.len(),
{
    if labels.len() == 0 {
        Seq::<u8>::empty()
    } else {
        seq![labels[0].len() as u8] + labels[0] + wire(labels.drop_first())
    }
}

/// The labels as text.
pub open spec fn texts(labels: Seq<Seq<u8>>) -> Seq<Seq<char>> {
    Seq::new(labels.len(), |i: int| decode_utf8(labels[i]))
}

/// A dot is one byte in UTF-8.
pub proof fn lemma_dot()
    ensures
        valid_utf8(seq![0x2Eu8]),
        decode_utf8(seq![0x2Eu8]) == seq!['.'],
{
    let dot = seq!['.'];
    assert(is_ascii_chars(dot));
    is_ascii_chars_encode_utf8(dot);
    assert(encode_utf8(dot) =~= seq![0x2Eu8]);
    encode_utf8_valid_utf8(dot);
    encode_utf8_decode_utf8(dot);
}

/// The tail of plain labels is plain.
proof fn lemma_plain_tail(labels: Seq<Seq<u8>>)
    requires
        plain_labels(labels),
        labels.len() > 0,
    ensures
        plain_labels(labels.drop_first()),
{
    let tail = labels.drop_first();
    assert forall|i: int| 0 <= i < tail.len() implies plain_label(#[trigger] tail[i]) by {
        assert(tail[i] == labels[i + 1]);
    }
}

/// Dotted plain labels start with the first byte of the first label.
proof fn lemma_dotted_first(labels: Seq<Seq<u8>>)
    requires
        plain_labels(labels),
        labels.len() > 0,
    ensures
        dotted(labels).len() > 0,
        dotted(labels)[0] == labels[0][0],
{
    assert(plain_label(labels[0]));
}

/// The name made of plain labels is written label by label.
pub proof fn lemma_labels_written(labels: Seq<Seq<u8>>)
    requires
        plain_labels(labels),
    ensures
        labels_bytes(dotted(labels)) == wire(labels),
    decreases labels.len(),
{
    let name = dotted(labels);
    if labels.len() == 0 {
    } else {
        let first = labels[0];
        let tail = labels.drop_first();
        assert(plain_label(first));
        lemma_plain_tail(labels);
        if labels.len() == 1 {
            lemma_first_byte(name, 0x2E, name.len() as int);
            assert(tail.len() == 0);
            assert(wire(labels) =~= label_bytes(first));
        } else {
            lemma_first_byte(name, 0x2E, first.len() as int);
            lemma_labels_written(tail);
            assert(name.take(first.len() as int) =~= first);
            assert(name.skip(first.len() as int + 1) =~= dotted(tail));
            assert(wire(labels) =~= label_bytes(first) + wire(tail));
        }
    }
}

/// Plain labels on the wire, ended by a zero byte, are read back as their
/// texts wherever they stand, and end behind the zero byte.
pub proof fn lemma_labels_read_back(pre: Seq<u8>, labels: Seq<Seq<u8>>, rest: Seq<u8>, jumps: nat)
    requires
        plain_labels(labels),
    ensures
        parse_labels(pre + wire(labels) + seq![0u8] + rest, pre.len() as int, jumps) == Some(
            texts(labels),
        ),
        name_end(pre + wire(labels) + seq![0u8] + rest, pre.len() as int) == pre.len() + wire(
            labels,
        ).len() + 1,
    decreases labels.len(),
{
    let data = pre + wire(labels) + seq![0u8] + rest;
    let pos = pre.len() as int;
    if labels.len() == 0 {
        assert(data[pos] == 0);
        assert(texts(labels) =~= Seq::<Seq<char>>::empty());
    } else {
        let first = labels[0];
        let tail = labels.drop_first();
        let n = first.len() as int;
        assert(plain_label(first));
        lemma_plain_tail(labels);
        let longer = pre + seq![n as u8] + first;
        assert(data =~= longer + wire(tail) + seq![0u8] + rest);
        assert(data[pos] == n as u8);
        assert(data.subrange(pos + 1, pos + 1 + n) =~= first);
        lemma_labels_read_back(longer, tail, rest, jumps);
        assert(texts(labels) =~= seq![decode_utf8(first)] + texts(tail));
    }
}

/// Joining from the front: the first text, a dot, and the others joined.
pub proof fn lemma_joined_front(first: Seq<char>, others: Seq<Seq<char>>)
    ensures
        joined(seq![first] + others) == if others.len() == 0 {
            first
        } else {
            first + seq!['.'] + joined(others)
        },
    decreases others.len(),
{
    let all = seq![first] + others;
    if others.len() == 0 {
        assert(all.len() == 1);
    } else {
        let earlier = others.drop_last();
        lemma_joined_front(first, earlier);
        assert(all.drop_last() =~= seq![first] + earlier);
        assert(all.last() == others.last());
        if others.len() == 1 {
            assert(joined(others) == others[0]);
            assert(joined(all) =~= first + seq!['.'] + joined(others));
        } else {
            assert(joined(all) =~= first + seq!['.'] + joined(others));
        }
    }
}

/// Plain labels with dots between them are valid UTF-8, and their text is
/// the labels' texts joined by dots.
pub proof fn lemma_dotted_text(labels: Seq<Seq<u8>>)
    requires
        plain_labels(labels),
    ensures
        valid_utf8(dotted(labels)),
        decode_utf8(dotted(labels)) == joined(texts(labels)),
    decreases labels.len(),
{
    let bytes = dotted(labels);
    if labels.len() == 0 {
        assert(texts(labels) =~= Seq::<Seq<char>>::empty());
    } else {
        let first = labels[0];
        let tail = labels.drop_first();
        assert(plain_label(first));
        lemma_plain_tail(labels);
        assert(texts(labels) =~= seq![decode_utf8(first)] + texts(tail));
        lemma_joined_front(decode_utf8(first), texts(tail));
        if labels.len() > 1 {
            lemma_dotted_text(tail);
            lemma_dot();
            lemma_dotted_first(tail);
            let dot = seq![0x2Eu8];
            let back = dot + dotted(tail);
            valid_utf8_concat(dot, dotted(tail));
            valid_utf8_concat(first, back);
            assert(bytes =~= first + back);
            let cut = first.len() as int;
            assert(bytes[cut] == 0x2E);
            is_char_boundary_iff_not_is_continuation_byte(bytes, cut);
            decode_utf8_split(bytes, cut);
            assert(bytes.subrange(0, cut) =~= first);
            assert(bytes.subrange(cut, bytes.len() as int) =~= back);
            assert(plain_label(tail[0]));
            assert(back[1] == tail[0][0]);
            is_char_boundary_iff_not_is_continuation_byte(back, 1);
            decode_utf8_split(back, 1);
            assert(back.subrange(0, 1) =~= dot);
            assert(back.subrange(1, back.len() as int) =~= dotted(tail));
            assert(decode_utf8(bytes) =~= decode_utf8(first) + seq!['.'] + joined(texts(tail)));
        }
    }
}

/// A name made of plain labels is read back as it was written, wherever it
/// stands in a message, and reading ends behind its zero byte.
pub proof fn name_round_trip(name: Seq<char>, labels: Seq<Seq<u8>>, pre: Seq<u8>, rest: Seq<u8>)
    requires
        plain_labels(labels),
        encode_utf8(name) == dotted(labels),
    ensures
        parse_name(pre + name_bytes(encode_utf8(name)) + rest, pre.len() as int) == Some(
            (name, pre.len() as int + name_bytes(encode_utf8(name)).len()),
        ),
{
    let data = pre + name_bytes(encode_utf8(name)) + rest;
    lemma_labels_written(labels);
    lemma_labels_read_back(pre, labels, rest, data.len());
    lemma_dotted_text(labels);
    encode_utf8_decode_utf8(name);
    assert(data =~= pre + wire(labels) + seq![0u8] + rest);
}

} // verus!
