//! Domain names on the wire: a run of labels, each a length byte and that
//! many bytes, ended by a zero byte or by a pointer to the rest of the name
//! elsewhere in the message.

use crate::scan::{find_byte, first_byte};
use crate::text::string_from_utf8;
use vstd::prelude::*;
use vstd::slice::{slice_subrange, slice_to_vec};
use vstd::string::StringExecFns;
use vstd::utf8::{decode_utf8, encode_utf8, encode_utf8_decode_utf8, valid_utf8};

verus! {

/// One label on the wire: its length, reduced to one byte, and its bytes.
/// An empty label is not written.
pub open spec fn label_bytes(label: Seq<u8>) -> Seq<u8> {
    if label.len() == 0 {
        Seq::<u8>::empty()
    } else {
        seq![(label.len() % 256) as u8] + label
    }
}

/// The labels of `name`, the parts between its dots, one after the other.
pub open spec fn labels_bytes(name: Seq<u8>) -> Seq<u8>
    decreases name.len(),
{
    if name.len() == 0 {
        Seq::<u8>::empty()
    } else {
        let cut = first_byte(name, 0x2E);
        if 0 <= cut < name.len() {
            label_bytes(name.take(cut)) + labels_bytes(name.skip(cut + 1))
        } else {
            label_bytes(name)
        }
    }
}

/// A name on the wire: its labels and the zero byte that ends them.
pub open spec fn name_bytes(name: Seq<u8>) -> Seq<u8> {
    labels_bytes(name) + seq![0u8]
}

/// Appends the wire form of `name` to `out`.
pub fn push_name(out: &mut Vec<u8>, name: &String)
    ensures
        final(out)@ == old(out)@ + name_bytes(encode_utf8(name@)),
{
    let bytes = name.as_str().as_bytes();
    let ghost all = bytes@;
    let mut start: usize = 0;
    assert(all.skip(0) =~= all);
    assert(out@ + labels_bytes(all.skip(0)) =~= old(out)@ + labels_bytes(all));
    while start < bytes.len()
        invariant
            all == bytes@,
            start <= bytes.len(),
            out@ + labels_bytes(all.skip(start as int)) == old(out)@ + labels_bytes(all),
        decreases bytes.len() - start,
    {
        let ghost before = out@;
        let ghost here = all.skip(start as int);
        let cut = find_byte(bytes, start, 0x2E);
        if cut > start {
            out.push(((cut - start) % 256) as u8);
            out.extend_from_slice(slice_subrange(bytes, start, cut));
        }
        proof {
            let label = all.subrange(start as int, cut as int);
            assert(here.take(cut - start) =~= label);
            assert(out@ =~= before + label_bytes(label));
            if cut < bytes.len() {
                assert(here.skip(cut - start + 1) =~= all.skip(cut + 1));
                assert(before + labels_bytes(here) =~= out@ + labels_bytes(all.skip(cut + 1)));
            } else {
                assert(here =~= label);
                assert(all.skip(all.len() as int) =~= Seq::<u8>::empty());
                assert(before + labels_bytes(here) =~= out@ + labels_bytes(
                    all.skip(all.len() as int),
                ));
            }
        }
        start = if cut < bytes.len() {
            cut + 1
        } else {
            cut
        };
    }
    out.push(0);
    proof {
        assert(all.skip(start as int) =~= Seq::<u8>::empty());
        assert(out@ =~= old(out)@ + name_bytes(all));
    }
}

/// Where a pointer with first byte `high` and second byte `low` points.
pub open spec fn pointer_target(high: u8, low: u8) -> int {
    (high - 0xC0) * 256 + low
}

/// The labels of the name that starts at `pos`, following at most `jumps`
/// pointers. None where the name runs past the end of `data`, where a label
/// is not valid UTF-8, or where more pointers follow one another than that.
pub open spec fn parse_labels(data: Seq<u8>, pos: int, jumps: nat) -> Option<Seq<Seq<char>>>
    decreases jumps, data.len() - pos,
{
    if pos < 0 || pos >= data.len() {
        None
    } else {
        let len = data[pos];
        if len == 0 {
            Some(Seq::<Seq<char>>::empty())
        } else if len >= 0xC0 {
            if pos + 1 >= data.len() || jumps == 0 {
                None
            } else {
                parse_labels(data, pointer_target(len, data[pos + 1]), (jumps - 1) as nat)
            }
        } else if pos + 1 + len > data.len() {
            None
        } else {
            let label = data.subrange(pos + 1, pos + 1 + len);
            if !valid_utf8(label) {
                None
            } else {
                match parse_labels(data, pos + 1 + len, jumps) {
                    Some(rest) => Some(seq![decode_utf8(label)] + rest),
                    None => None,
                }
            }
        }
    }
}

/// Where the bytes of the name that starts at `pos` end: behind its zero
/// byte, or behind its first pointer.
pub open spec fn name_end(data: Seq<u8>, pos: int) -> int
    decreases data.len() - pos,
{
    if pos < 0 || pos >= data.len() {
        pos
    } else {
        let len = data[pos];
        if len == 0 {
            pos + 1
        } else if len >= 0xC0 {
            pos + 2
        } else if pos + 1 + len > data.len() {
            pos
        } else {
            name_end(data, pos + 1 + len)
        }
    }
}

/// The labels with a dot between each two.
pub open spec fn joined(labels: Seq<Seq<char>>) -> Seq<char>
    decreases labels.len(),
{
    if labels.len() == 0 {
        Seq::<char>::empty()
    } else if labels.len() == 1 {
        labels[0]
    } else {
        joined(labels.drop_last()) + seq!['.'] + labels.last()
    }
}

/// The name that starts at `pos` and where its bytes end. A chain of
/// pointers longer than `data` has bytes goes in a circle and gives no name.
pub open spec fn parse_name(data: Seq<u8>, pos: int) -> Option<(Seq<char>, int)> {
    match parse_labels(data, pos, data.len()) {
        Some(labels) => Some((joined(labels), name_end(data, pos))),
        None => None,
    }
}

/// Reads the name at `offset`, following compression pointers, and moves
/// `offset` behind the name's bytes. Gives nothing, and leaves `offset`,
/// where there is no name.
pub fn decode_domain_name(data: &[u8], offset: &mut usize) -> (name: Option<String>)
    ensures
        match parse_name(data@, *old(offset) as int) {
            Some((text, end)) => name matches Some(s) && s@ == text && *final(offset) == end && end
                <= data@.len(),
            None => name is None && *final(offset) == *old(offset),
        },
{
    let start: usize = *offset;
    let mut pos: usize = start;
    let mut jumps: usize = data.len();
    let mut end: Option<usize> = None;
    let mut text = String::new();
    let mut empty: bool = true;
    let ghost whole = parse_labels(data@, start as int, data@.len());
    let ghost mut labels: Seq<Seq<char>> = Seq::empty();
    proof {
        match parse_labels(data@, pos as int, jumps as nat) {
            Some(rest) => {
                assert(labels + rest =~= rest);
            },
            None => {},
        }
    }
    loop
        invariant
            whole == parse_labels(data@, start as int, data@.len()),
            start == *old(offset),
            *offset == start,
            jumps <= data@.len(),
            whole == match parse_labels(data@, pos as int, jumps as nat) {
                Some(rest) => Some(labels + rest),
                None => None,
            },
            text@ == joined(labels),
            empty == (labels.len() == 0),
            name_end(data@, start as int) == match end {
                Some(e) => e as int,
                None => name_end(data@, pos as int),
            },
            end matches Some(e) ==> e <= data@.len(),
        decreases jumps, data@.len() - pos,
    {
        if pos >= data.len() {
            return None;
        }
        let len = data[pos];
        if len == 0 {
            *offset = match end {
                Some(e) => e,
                None => pos + 1,
            };
            proof {
                assert(labels + Seq::<Seq<char>>::empty() =~= labels);
            }
            return Some(text);
        }
        if len >= 0xC0 {
            if data.len() - pos <= 1 || jumps == 0 {
                return None;
            }
            if end.is_none() {
                end = Some(pos + 2);
            }
            pos = ((len - 0xC0) as usize) * 256 + data[pos + 1] as usize;
            jumps = jumps - 1;
        } else {
            let size = len as usize;
            if data.len() - pos - 1 < size {
                return None;
            }
            let from = pos + 1;
            let label = match string_from_utf8(slice_to_vec(slice_subrange(data, from, from + size))) {
                Some(label) => label,
                None => { return None; },
            };
            let ghost before = labels;
            if !empty {
                text.append(".");
            }
            text.append(label.as_str());
            proof {
                reveal_strlit(".");
                assert("."@ =~= seq!['.']);
                encode_utf8_decode_utf8(label@);
                labels = before.push(label@);
                assert(labels.drop_last() =~= before);
                assert(text@ =~= joined(labels));
                match parse_labels(data@, from + size, jumps as nat) {
                    Some(rest) => {
                        assert(before + (seq![label@] + rest) =~= labels + rest);
                    },
                    None => {},
                }
            }
            empty = false;
            pos = from + size;
        }
    }
}

} // verus!
