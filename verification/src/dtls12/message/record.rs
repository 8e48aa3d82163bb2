//! The record header of DTLS 1.2.

use std::ops::Range;
use vstd::prelude::*;

use super::version::ProtocolVersion;
use crate::error::{ErrorKind, FailAt, ParseFailure, ParseResult, Severity};
use crate::types::{ContentType, Sequence};
use crate::wire;

verus! {

/// A record header, with the place of the fragment in the bytes it was read from.
#[derive(Debug, PartialEq, Eq)]
pub struct DTLSRecord {
    pub content_type: ContentType,
    pub version: ProtocolVersion,
    pub sequence: Sequence,
    pub length: u16,
    pub fragment_range: Range<usize>,
}

/// Content types that are accepted in plaintext, before encryption is enabled.
pub open spec fn plaintext_type(t: ContentType) -> bool {
    t is ChangeCipherSpec || t is Alert || t is Handshake
}

/// The record at the start of `s`, where `s` itself starts at `base` of a larger
/// buffer and `skip` bytes stand between the header and the fragment.
pub open spec fn record_in(s: Seq<u8>, base: nat, skip: nat) -> Result<DTLSRecord, FailAt> {
    let content_type = ContentType::of_code(s[0]);
    let sequence = Sequence {
        epoch: wire::u16_at(s, 3),
        sequence_number: wire::u48_at(s, 5),
    };
    let length = wire::u16_at(s, 11);
    if s.len() < 1 {
        Err(crate::error::eof_at(0))
    } else if s.len() < 3 {
        Err(crate::error::eof_at(1))
    } else if s.len() < 5 {
        Err(crate::error::eof_at(3))
    } else if s.len() < 11 {
        Err(crate::error::eof_at(5))
    } else if sequence.epoch == 0 && !plaintext_type(content_type) {
        Err(FailAt { severity: Severity::Failure, at: 11, code: ErrorKind::Verify })
    } else if s.len() < 13 {
        Err(crate::error::eof_at(11))
    } else if s.len() < 13 + skip {
        Err(crate::error::eof_at(13))
    } else if s.len() < 13 + skip + length {
        Err(crate::error::eof_at(13 + skip))
    } else {
        Ok(
            DTLSRecord {
                content_type,
                version: ProtocolVersion::of_code(wire::u16_at(s, 1)),
                sequence,
                length,
                fragment_range: Range {
                    start: (base + 13 + skip) as usize,
                    end: (base + 13 + skip + length) as usize,
                },
            },
        )
    }
}

impl DTLSRecord {
    /// Content type (1), version (2), epoch (2), sequence number (6), length (2).
    pub const HEADER_LEN: usize = 13;

    /// Reads a record header. Epoch 0 is unencrypted: only `ChangeCipherSpec`,
    /// `Alert` and `Handshake` records are accepted there.
    pub fn parse(input: &[u8], base_offset: usize, skip_offset: usize) -> (r: ParseResult<
        '_,
        DTLSRecord,
    >)
        requires
            base_offset + input@.len() <= usize::MAX,
        ensures
            match record_in(input@, base_offset as nat, skip_offset as nat) {
                Ok(record) => r matches Ok((rest, parsed)) && parsed == record && rest@
                    == input@.skip(13 + skip_offset + record.length),
                Err(f) => crate::error::fails_as(r, input@, f),
            },
    {
        assert(input@.skip(0) =~= input@);
        let (rest, content_type) = match wire::be_u8(input) {
            Ok((rest, x)) => (rest, ContentType::from_u8(x)),
            Err(e) => return Err(e),
        };
        let (rest, version) = match ProtocolVersion::parse(rest) {
            Ok(v) => v,
            Err(e) => return Err(e),
        };
        assert(rest@ =~= input@.skip(3));
        let (rest, epoch) = match wire::be_u16(rest) {
            Ok(v) => v,
            Err(e) => return Err(e),
        };
        assert(rest@ =~= input@.skip(5));
        let (rest, number) = match wire::take(rest, 6) {
            Ok((rest, b)) => (rest, wire::read_u48(b, 0)),
            Err(e) => return Err(e),
        };
        assert(rest@ =~= input@.skip(11));
        let sequence = Sequence { epoch, sequence_number: number };
        if epoch == 0 {
            match content_type {
                ContentType::ChangeCipherSpec | ContentType::Alert | ContentType::Handshake => {},
                _ => {
                    return Err(
                        ParseFailure {
                            severity: Severity::Failure,
                            input: rest,
                            code: ErrorKind::Verify,
                        },
                    );
                },
            }
        }
        let (rest, length) = match wire::be_u16(rest) {
            Ok(v) => v,
            Err(e) => return Err(e),
        };
        assert(rest@ =~= input@.skip(13));
        let (rest, _) = match wire::take(rest, skip_offset) {
            Ok(v) => v,
            Err(e) => return Err(e),
        };
        assert(rest@ =~= input@.skip(13 + skip_offset));
        let (rest, _) = match wire::take(rest, length as usize) {
            Ok(v) => v,
            Err(e) => return Err(e),
        };
        assert(rest@ =~= input@.skip(13 + skip_offset + length));
        let start: usize = base_offset + 13 + skip_offset;
        let end: usize = start + length as usize;
        Ok((rest, DTLSRecord { content_type, version, sequence, length, fragment_range: start..end }))
    }

    /// The fragment of this record in the buffer that it was read from.
    pub fn fragment<'a>(&self, buf: &'a [u8]) -> (s: &'a [u8])
        requires
            self.fragment_range.start <= self.fragment_range.end <= buf@.len(),
        ensures
            s@ == buf@.subrange(
                self.fragment_range.start as int,
                self.fragment_range.end as int,
            ),
    {
        &buf[self.fragment_range.start..self.fragment_range.end]
    }
}

/// A record that is read has the header that stands on the wire: content type, version,
/// epoch, 48-bit number and length, one behind the other, each most significant byte
/// first. Its fragment starts behind the header and the bytes that are skipped, and has
/// the length that the header says.
pub proof fn law_header_is_the_one_on_the_wire(s: Seq<u8>, base: nat, skip: nat)
    requires
        base + s.len() <= usize::MAX,
    ensures
        record_in(s, base, skip) matches Ok(r) ==> {
            &&& s.len() >= 13 + skip + r.length
            &&& s[0] == r.content_type.code()
            &&& s[1] * 256 + s[2] == r.version.code()
            &&& s[3] * 256 + s[4] == r.sequence.epoch
            &&& s[5] * 1099511627776 + s[6] * 4294967296 + s[7] * 16777216 + s[8] * 65536 + s[9]
                * 256 + s[10] == r.sequence.sequence_number
            &&& s[11] * 256 + s[12] == r.length
            &&& r.fragment_range.start == base + 13 + skip
            &&& r.fragment_range.end == base + 13 + skip + s[11] * 256 + s[12]
        },
{
}

/// A record is read under the name of its type and of its version: 20 is a
/// `ChangeCipherSpec`, 21 an `Alert`, 22 a `Handshake`, 23 `ApplicationData`, 25 a record
/// with a Connection ID and 26 an `Ack`; FE FF is DTLS 1.0, FE FD is DTLS 1.2 and FE FC is
/// DTLS 1.3.
pub proof fn law_header_names_type_and_version(s: Seq<u8>, base: nat, skip: nat)
    ensures
        record_in(s, base, skip) matches Ok(r) ==> {
            &&& r.content_type is ChangeCipherSpec <==> s[0] == 20
            &&& r.content_type is Alert <==> s[0] == 21
            &&& r.content_type is Handshake <==> s[0] == 22
            &&& r.content_type is ApplicationData <==> s[0] == 23
            &&& r.content_type is Tls12Cid <==> s[0] == 25
            &&& r.content_type is Ack <==> s[0] == 26
            &&& r.version is DTLS1_0 <==> s[1] == 0xFE && s[2] == 0xFF
            &&& r.version is DTLS1_2 <==> s[1] == 0xFE && s[2] == 0xFD
            &&& r.version is DTLS1_3 <==> s[1] == 0xFE && s[2] == 0xFC
        },
{
}

/// A record is read exactly where its header, the bytes that are skipped and its fragment
/// are there in full and, in epoch 0, its type is one that may come in plaintext. The
/// wrong type is reported as such where it is seen before the end of the input.
pub proof fn law_whole_record_is_read(s: Seq<u8>, base: nat, skip: nat)
    ensures
        record_in(s, base, skip) is Ok <==> {
            &&& s.len() >= 13
            &&& s.len() >= 13 + skip + s[11] * 256 + s[12]
            &&& s[3] == 0 && s[4] == 0 ==> s[0] == 20 || s[0] == 21 || s[0] == 22
        },
        s.len() >= 11 && s[3] == 0 && s[4] == 0 && s[0] != 20 && s[0] != 21 && s[0] != 22 ==> (
        record_in(s, base, skip) matches Err(f) && f.code == ErrorKind::Verify && f.severity
            == Severity::Failure && f.at == 11),
        record_in(s, base, skip) matches Err(f) ==> f.code == ErrorKind::Verify || f.code
            == ErrorKind::Eof,
        s.len() < 11 ==> (record_in(s, base, skip) matches Err(f) && f.code == ErrorKind::Eof
            && f.severity == Severity::Error),
        s.len() >= 11 && !(s[3] == 0 && s[4] == 0) ==> (record_in(s, base, skip) matches Err(f)
            ==> f.code == ErrorKind::Eof && f.severity == Severity::Error),
{
}

/// Writing the fields of a record that was read, most significant byte first, gives the
/// first 13 bytes of the input back.
pub proof fn law_header_is_written_back(s: Seq<u8>, base: nat, skip: nat)
    requires
        base + s.len() <= usize::MAX,
    ensures
        record_in(s, base, skip) matches Ok(r) ==> {
            let number = r.sequence.sequence_number as int;
            s.take(13) == seq![
                r.content_type.code(),
                (r.version.code() as int / 256) as u8,
                (r.version.code() as int % 256) as u8,
                (r.sequence.epoch as int / 256) as u8,
                (r.sequence.epoch as int % 256) as u8,
                (number / 1099511627776) as u8,
                (number / 4294967296 % 256) as u8,
                (number / 16777216 % 256) as u8,
                (number / 65536 % 256) as u8,
                (number / 256 % 256) as u8,
                (number % 256) as u8,
                (r.length as int / 256) as u8,
                (r.length as int % 256) as u8,
            ]
        },
{
    if let Ok(r) = record_in(s, base, skip) {
        law_header_is_the_one_on_the_wire(s, base, skip);
        let number = r.sequence.sequence_number as int;
        assert(number / 256 == s[5] * 4294967296 + s[6] * 16777216 + s[7] * 65536 + s[8] * 256
            + s[9]);
        assert(number / 65536 == s[5] * 16777216 + s[6] * 65536 + s[7] * 256 + s[8]);
        assert(number / 16777216 == s[5] * 65536 + s[6] * 256 + s[7]);
        assert(number / 4294967296 == s[5] * 256 + s[6]);
        assert(number / 1099511627776 == s[5]);
        assert(s.take(13) =~= seq![
            r.content_type.code(),
            (r.version.code() as int / 256) as u8,
            (r.version.code() as int % 256) as u8,
            (r.sequence.epoch as int / 256) as u8,
            (r.sequence.epoch as int % 256) as u8,
            (number / 1099511627776) as u8,
            (number / 4294967296 % 256) as u8,
            (number / 16777216 % 256) as u8,
            (number / 65536 % 256) as u8,
            (number / 256 % 256) as u8,
            (number % 256) as u8,
            (r.length as int / 256) as u8,
            (r.length as int % 256) as u8,
        ]);
    }
}

/// Two records have the same epoch and number only where these stand in the same bytes.
pub proof fn law_sequence_tells_records_apart(s: Seq<u8>, t: Seq<u8>, base: nat, skip: nat)
    requires
        base + s.len() <= usize::MAX,
        base + t.len() <= usize::MAX,
        record_in(s, base, skip) matches Ok(a) && record_in(t, base, skip) matches Ok(b)
            && a.sequence == b.sequence,
    ensures
        s.subrange(3, 11) == t.subrange(3, 11),
{
    law_header_is_written_back(s, base, skip);
    law_header_is_written_back(t, base, skip);
    assert forall|i: int| 3 <= i < 11 implies s[i] == t[i] by {
        assert(s[i] == s.take(13)[i]);
        assert(t[i] == t.take(13)[i]);
    }
    assert(s.subrange(3, 11) =~= t.subrange(3, 11));
}

} // verus!
