//! A resource record of a DNS message: a name, a type, a class, a time to
//! live, and data.

use crate::dns::name::{decode_domain_name, name_bytes, parse_name, push_name};
use crate::dns::question::{CLASS_IN, TYPE_A};
use crate::endian::{
    push_u16_be, push_u32_be, read_u16_be, read_u32_be, u16_be, u16_from_be, u32_be, u32_from_be,
};
use vstd::prelude::*;
use vstd::slice::{slice_subrange, slice_to_vec};
use vstd::utf8::encode_utf8;

verus! {

/// A resource record. `rdlength` is the length that is written before the
/// data; it need not be the data's own.
#[derive(Debug)]
pub struct DnsResourceRecord {
    pub name: String,
    pub rtype: u16,
    pub rclass: u16,
    pub ttl: u32,
    pub rdlength: u16,
    pub rdata: Vec<u8>,
}

/// What a [`DnsResourceRecord`] says.
pub struct RecordView {
    pub name: Seq<char>,
    pub rtype: u16,
    pub rclass: u16,
    pub ttl: u32,
    pub rdlength: u16,
    pub rdata: Seq<u8>,
}

impl View for DnsResourceRecord {
    type V = RecordView;

    open spec fn view(&self) -> RecordView {
        RecordView {
            name: self.name@,
            rtype: self.rtype,
            rclass: self.rclass,
            ttl: self.ttl,
            rdlength: self.rdlength,
            rdata: self.rdata@,
        }
    }
}

impl Clone for DnsResourceRecord {
    fn clone(&self) -> (copy: Self)
        ensures
            copy@ == self@,
    {
        DnsResourceRecord {
            name: self.name.clone(),
            rtype: self.rtype,
            rclass: self.rclass,
            ttl: self.ttl,
            rdlength: self.rdlength,
            rdata: slice_to_vec(self.rdata.as_slice()),
        }
    }
}

/// A record on the wire: the name, then type and class in two bytes each,
/// the time to live in four, the data's length in two, all big-endian, and
/// the data.
pub open spec fn record_bytes(r: RecordView) -> Seq<u8> {
    name_bytes(encode_utf8(r.name)) + u16_be(r.rtype) + u16_be(r.rclass) + u32_be(r.ttl) + u16_be(
        r.rdlength,
    ) + r.rdata
}

/// The record that starts at `pos` and where it ends; none where the name is
/// none, fewer than ten bytes follow it, or the data is cut short.
pub open spec fn parse_record(data: Seq<u8>, pos: int) -> Option<(RecordView, int)> {
    match parse_name(data, pos) {
        Some((name, end)) => if end + 10 > data.len() {
            None
        } else {
            let rdlength = u16_from_be(data.subrange(end + 8, end + 10));
            if end + 10 + rdlength > data.len() {
                None
            } else {
                Some(
                    (
                        RecordView {
                            name,
                            rtype: u16_from_be(data.subrange(end, end + 2)),
                            rclass: u16_from_be(data.subrange(end + 2, end + 4)),
                            ttl: u32_from_be(data.subrange(end + 4, end + 8)),
                            rdlength,
                            rdata: data.subrange(end + 10, end + 10 + rdlength),
                        },
                        end + 10 + rdlength,
                    ),
                )
            }
        },
        None => None,
    }
}

/// Appends the wire form of `record` to `out`.
pub fn push_record(out: &mut Vec<u8>, record: &DnsResourceRecord)
    ensures
        final(out)@ == old(out)@ + record_bytes(record@),
{
    push_name(out, &record.name);
    push_u16_be(out, record.rtype);
    push_u16_be(out, record.rclass);
    push_u32_be(out, record.ttl);
    push_u16_be(out, record.rdlength);
    out.extend_from_slice(record.rdata.as_slice());
    assert(out@ =~= old(out)@ + record_bytes(record@));
}

impl DnsResourceRecord {
    /// An address record of the Internet class for `name`: the four bytes of
    /// the address are its data.
    pub fn new_a_record(name: String, ip: [u8; 4], ttl: u32) -> (r: Self)
        ensures
            r@ == (RecordView {
                name: name@,
                rtype: TYPE_A,
                rclass: CLASS_IN,
                ttl,
                rdlength: 4,
                rdata: ip@,
            }),
    {
        let mut rdata: Vec<u8> = Vec::new();
        rdata.push(ip[0]);
        rdata.push(ip[1]);
        rdata.push(ip[2]);
        rdata.push(ip[3]);
        assert(rdata@ =~= ip@);
        DnsResourceRecord { name, rtype: TYPE_A, rclass: CLASS_IN, ttl, rdlength: 4, rdata }
    }

    /// The record on the wire.
    pub fn to_bytes(&self) -> (bytes: Vec<u8>)
        ensures
            bytes@ == record_bytes(self@),
    {
        let mut bytes: Vec<u8> = Vec::new();
        push_record(&mut bytes, self);
        assert(bytes@ =~= record_bytes(self@));
        bytes
    }

    /// Reads the record at `offset` and moves `offset` behind it. Gives
    /// nothing, and leaves `offset`, where there is no record.
    pub fn from_bytes(data: &[u8], offset: &mut usize) -> (r: Option<Self>)
        ensures
            match parse_record(data@, *old(offset) as int) {
                Some((record, end)) => r matches Some(found) && found@ == record
                    && *final(offset) == end && end <= data@.len(),
                None => r is None && *final(offset) == *old(offset),
            },
    {
        let mut at: usize = *offset;
        let name = match decode_domain_name(data, &mut at) {
            Some(name) => name,
            None => { return None; },
        };
        if data.len() - at < 10 {
            return None;
        }
        let rtype = read_u16_be(data, at);
        let rclass = read_u16_be(data, at + 2);
        let ttl = read_u32_be(data, at + 4);
        let rdlength = read_u16_be(data, at + 8);
        let from = at + 10;
        if data.len() - from < rdlength as usize {
            return None;
        }
        let rdata = slice_to_vec(slice_subrange(data, from, from + rdlength as usize));
        *offset = from + rdlength as usize;
        Some(DnsResourceRecord { name, rtype, rclass, ttl, rdlength, rdata })
    }
}

} // verus!
