//! Where the records of a datagram begin and end.

use vstd::prelude::*;

use super::message::record::DTLSRecord;
use crate::types::ContentType;
use crate::wire;

verus! {

/// How a datagram goes on at its first byte.
#[derive(Debug, Clone, Copy, PartialEq, Eq, Structural)]
pub enum Frame {
    /// A record of this many bytes.
    Record(usize),
    /// A record of this many bytes that is passed over.
    Skip(usize),
    /// Nothing further can be framed; what is left is dropped without an error.
    Discard,
    /// A record that the datagram does not hold in full.
    Incomplete,
}

/// The code of a content type that may start a record.
pub open spec fn plausible_type(x: u8) -> bool {
    x == 20 || x == 21 || x == 22 || x == 23 || x == 25
}

/// The frame of a `tls12_cid` record on an association without a negotiated
/// inbound Connection ID.
///
/// How many bytes of Connection ID the record carries is not known. It is passed
/// over as if there were none, and only where a plausible record header follows: a
/// known content type and, but for another `tls12_cid` record, a length that fits
/// into the datagram.
pub open spec fn stray_frame(p: Seq<u8>) -> Frame {
    let end = 13 + wire::u16_at(p, 11);
    let next_end = end + 13 + wire::u16_at(p, end + 11);
    if p.len() < 13 || p.len() < end + 13 || !plausible_type(p[end]) || (p[end] != 25 && next_end
        > p.len()) {
        Frame::Discard
    } else {
        Frame::Skip(end as usize)
    }
}

/// The frame at the start of `p`, where records of type `tls12_cid` carry `cid_len`
/// bytes of Connection ID, or are not expected at all.
///
/// A malformed `tls12_cid` record is dropped with all that follows it. Any other
/// record that is cut short makes the datagram incomplete.
pub open spec fn frame_of(p: Seq<u8>, cid_len: Option<nat>) -> Frame {
    let is_cid = p[0] == 25;
    if is_cid && cid_len is None {
        stray_frame(p)
    } else {
        let header_len = if is_cid {
            13 + cid_len->0
        } else {
            13
        };
        let end = header_len + wire::u16_at(p, header_len - 2);
        if p.len() < header_len || p.len() < end {
            if is_cid {
                Frame::Discard
            } else {
                Frame::Incomplete
            }
        } else {
            Frame::Record(end as usize)
        }
    }
}

/// Finds the frame of an unsolicited `tls12_cid` record; see [`stray_frame`].
///
/// A crafted record can waste the rest of its datagram, but bytes that were framed
/// at the wrong place are never taken for a record of the association.
fn frame_stray(packet: &[u8]) -> (f: Frame)
    ensures
        f == stray_frame(packet@),
{
    if packet.len() < DTLSRecord::HEADER_LEN {
        return Frame::Discard;
    }
    let stray_length: usize = wire::read_u16(packet, 11) as usize;
    let stray_end: usize = DTLSRecord::HEADER_LEN + stray_length;
    if stray_end > packet.len() {
        return Frame::Discard;
    }
    if packet.len() - stray_end < DTLSRecord::HEADER_LEN {
        return Frame::Discard;
    }
    let next_ct: u8 = packet[stray_end];
    if !matches!(next_ct, 20 | 21 | 22 | 23 | 25) {
        return Frame::Discard;
    }
    let next_length: usize = wire::read_u16(packet, stray_end + 11) as usize;
    if next_ct != 25 && next_length > packet.len() - stray_end - DTLSRecord::HEADER_LEN {
        return Frame::Discard;
    }
    Frame::Skip(stray_end)
}

/// Finds the first frame of a datagram.
///
/// A `tls12_cid` record carries the Connection ID between the sequence number and
/// the length, so its header has 13 bytes and those of the Connection ID.
pub fn next_frame(packet: &[u8], cid_len: Option<usize>) -> (f: Frame)
    requires
        packet@.len() > 0,
    ensures
        f == frame_of(
            packet@,
            match cid_len {
                Some(n) => Some(n as nat),
                None => None,
            },
        ),
        f matches Frame::Record(n) ==> 13 <= n <= packet@.len(),
        f matches Frame::Skip(n) ==> 13 <= n <= packet@.len(),
{
    let is_cid_record: bool = packet[0] == ContentType::Tls12Cid.as_u8();
    let extra: usize = if is_cid_record {
        match cid_len {
            Some(n) => n,
            None => return frame_stray(packet),
        }
    } else {
        0
    };
    if packet.len() < DTLSRecord::HEADER_LEN || packet.len() - DTLSRecord::HEADER_LEN < extra {
        return if is_cid_record {
            Frame::Discard
        } else {
            Frame::Incomplete
        };
    }
    let header_len: usize = DTLSRecord::HEADER_LEN + extra;
    // The length is the last field of the header.
    let length: usize = wire::read_u16(packet, header_len - 2) as usize;
    if packet.len() - header_len < length {
        return if is_cid_record {
            Frame::Discard
        } else {
            Frame::Incomplete
        };
    }
    Frame::Record(header_len + length)
}

/// The length of a Connection ID; 0 where there is none.
pub open spec fn cid_len(cid: Option<Seq<u8>>) -> nat {
    match cid {
        Some(c) => c.len(),
        None => 0,
    }
}

/// How many bytes of Connection ID a `tls12_cid` record carries in a datagram that is
/// framed by `cid_len`, where `cid` is expected at this point of it.
pub open spec fn framed_cid(cid: Option<Seq<u8>>, cid_len: nat) -> Option<nat> {
    if cid is None {
        None
    } else {
        Some(cid_len)
    }
}

/// A datagram is framed by the number of bytes of the Connection ID, or of none, and only
/// where one is expected.
pub proof fn law_cid_len_counts_the_cid(cid: Option<Seq<u8>>, n: nat)
    ensures
        cid matches Some(c) ==> cid_len(cid) == c.len() && framed_cid(cid, n) == Some(n),
        cid is None ==> cid_len(cid) == 0 && framed_cid(cid, n) is None,
{
}

} // verus!
