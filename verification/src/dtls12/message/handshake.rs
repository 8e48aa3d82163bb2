//! Handshake message fragments.

use std::ops::Range;
use vstd::prelude::*;

use crate::error::{FailAt, ParseResult};
use crate::wire;

verus! {

/// A fragment of a handshake message, with the place of its body in the buffer that
/// it was read from.
#[derive(Debug, PartialEq, Eq)]
pub struct Handshake {
    pub msg_type: u8,
    pub length: u32,
    pub message_seq: u16,
    pub fragment_offset: u32,
    pub fragment_length: u32,
    pub body_range: Range<usize>,
    pub handled: bool,
}

/// The fragment at the start of `s`, where `s` itself starts at `base` of a larger
/// buffer.
pub open spec fn handshake_in(s: Seq<u8>, base: nat) -> Result<Handshake, FailAt> {
    let fragment_length = wire::u24_at(s, 9);
    if s.len() < 12 {
        Err(crate::error::eof_at(0))
    } else if s.len() < 12 + fragment_length {
        Err(crate::error::eof_at(12))
    } else {
        Ok(
            Handshake {
                msg_type: s[0],
                length: wire::u24_at(s, 1),
                message_seq: wire::u16_at(s, 4),
                fragment_offset: wire::u24_at(s, 6),
                fragment_length,
                body_range: Range {
                    start: (base + 12) as usize,
                    end: (base + 12 + fragment_length) as usize,
                },
                handled: false,
            },
        )
    }
}

impl Handshake {
    /// Message type (1), length (3), message sequence (2), fragment offset (3),
    /// fragment length (3).
    pub const HEADER_LEN: usize = 12;

    /// Reads one fragment; its body is left in place.
    pub fn parse_fragment(input: &[u8], base_offset: usize) -> (r: ParseResult<'_, Handshake>)
        requires
            base_offset + input@.len() <= usize::MAX,
        ensures
            match handshake_in(input@, base_offset as nat) {
                Ok(h) => r matches Ok((rest, parsed)) && parsed == h && rest@ == input@.skip(
                    12 + h.fragment_length,
                ),
                Err(f) => crate::error::fails_as(r, input@, f),
            },
    {
        assert(input@.skip(0) =~= input@);
        let (rest, header) = match wire::take(input, 12) {
            Ok(v) => v,
            Err(e) => return Err(e),
        };
        let fragment_length: u32 = wire::read_u24(header, 9);
        let (rest, _) = match wire::take(rest, fragment_length as usize) {
            Ok(v) => v,
            Err(e) => return Err(e),
        };
        assert(rest@ =~= input@.skip(12 + fragment_length));
        let start: usize = base_offset + 12;
        let end: usize = start + fragment_length as usize;
        Ok(
            (
                rest,
                Handshake {
                    msg_type: header[0],
                    length: wire::read_u24(header, 1),
                    message_seq: wire::read_u16(header, 4),
                    fragment_offset: wire::read_u24(header, 6),
                    fragment_length,
                    body_range: start..end,
                    handled: false,
                },
            ),
        )
    }

    pub fn is_handled(&self) -> (b: bool)
        ensures
            b == self.handled,
    {
        self.handled
    }

    /// Marks the fragment as taken over by the reassembly of its message.
    pub fn set_handled(&mut self)
        ensures
            *final(self) == (Handshake { handled: true, ..*old(self) }),
    {
        self.handled = true;
    }
}

/// A fragment that is read has the header that stands on the wire: message type, message
/// length, message number, fragment offset and fragment length, one behind the other, each
/// most significant byte first. Its body is what follows, as long as the header says.
pub proof fn law_handshake_header_is_the_one_on_the_wire(s: Seq<u8>, base: nat)
    requires
        base + s.len() <= usize::MAX,
    ensures
        handshake_in(s, base) matches Ok(h) ==> {
            &&& s.len() >= 12 + h.fragment_length
            &&& s[0] == h.msg_type
            &&& s[1] * 65536 + s[2] * 256 + s[3] == h.length
            &&& s[4] * 256 + s[5] == h.message_seq
            &&& s[6] * 65536 + s[7] * 256 + s[8] == h.fragment_offset
            &&& s[9] * 65536 + s[10] * 256 + s[11] == h.fragment_length
            &&& h.body_range.start == base + 12
            &&& h.body_range.end == base + 12 + h.fragment_length
            &&& !h.handled
        },
{
}

/// A fragment is read exactly where its header and its body are there in full; otherwise
/// it is incomplete.
pub proof fn law_whole_fragment_is_read(s: Seq<u8>, base: nat)
    ensures
        handshake_in(s, base) is Ok <==> s.len() >= 12 && s.len() >= 12 + s[9] * 65536 + s[10] * 256
            + s[11],
        handshake_in(s, base) matches Err(f) ==> f.code == crate::error::ErrorKind::Eof
            && f.severity == crate::error::Severity::Error && f.at == (if s.len() < 12 {
            0nat
        } else {
            12nat
        }),
{
}

} // verus!
