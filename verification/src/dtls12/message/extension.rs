//! Hello extensions.

use arrayvec::ArrayVec;
use std::ops::Range;
use vstd::prelude::*;

use crate::buffer::Buf;
use crate::error::{FailAt, ParseResult};
use crate::wire;

verus! {

/// Type of a Hello extension.
#[derive(Debug, Clone, Copy, PartialEq, Eq, Structural)]
pub enum ExtensionType {
    SupportedGroups,
    EcPointFormats,
    SignatureAlgorithms,
    UseSrtp,
    ClientCertificateType,
    ServerCertificateType,
    ExtendedMasterSecret,
    ConnectionId,
    RenegotiationInfo,
    Unknown(u16),
}

impl ExtensionType {
    pub open spec fn code(self) -> u16 {
        match self {
            ExtensionType::SupportedGroups => 0x000A,
            ExtensionType::EcPointFormats => 0x000B,
            ExtensionType::SignatureAlgorithms => 0x000D,
            ExtensionType::UseSrtp => 0x000E,
            ExtensionType::ClientCertificateType => 0x0013,
            ExtensionType::ServerCertificateType => 0x0014,
            ExtensionType::ExtendedMasterSecret => 0x0017,
            ExtensionType::ConnectionId => 0x0036,
            ExtensionType::RenegotiationInfo => 0xFF01,
            ExtensionType::Unknown(x) => x,
        }
    }

    pub open spec fn of_code(x: u16) -> ExtensionType {
        if x == 0x000A {
            ExtensionType::SupportedGroups
        } else if x == 0x000B {
            ExtensionType::EcPointFormats
        } else if x == 0x000D {
            ExtensionType::SignatureAlgorithms
        } else if x == 0x000E {
            ExtensionType::UseSrtp
        } else if x == 0x0013 {
            ExtensionType::ClientCertificateType
        } else if x == 0x0014 {
            ExtensionType::ServerCertificateType
        } else if x == 0x0017 {
            ExtensionType::ExtendedMasterSecret
        } else if x == 0x0036 {
            ExtensionType::ConnectionId
        } else if x == 0xFF01 {
            ExtensionType::RenegotiationInfo
        } else {
            ExtensionType::Unknown(x)
        }
    }

    /// The types whose extensions are kept when a Hello is read.
    pub open spec fn supported(self) -> bool {
        match self {
            ExtensionType::SupportedGroups => true,
            ExtensionType::EcPointFormats => true,
            ExtensionType::SignatureAlgorithms => true,
            ExtensionType::UseSrtp => true,
            ExtensionType::ExtendedMasterSecret => true,
            ExtensionType::ConnectionId => true,
            ExtensionType::RenegotiationInfo => true,
            _ => false,
        }
    }

    pub fn as_u16(&self) -> (x: u16)
        ensures
            x == self.code(),
    {
        match *self {
            ExtensionType::SupportedGroups => 0x000A,
            ExtensionType::EcPointFormats => 0x000B,
            ExtensionType::SignatureAlgorithms => 0x000D,
            ExtensionType::UseSrtp => 0x000E,
            ExtensionType::ClientCertificateType => 0x0013,
            ExtensionType::ServerCertificateType => 0x0014,
            ExtensionType::ExtendedMasterSecret => 0x0017,
            ExtensionType::ConnectionId => 0x0036,
            ExtensionType::RenegotiationInfo => 0xFF01,
            ExtensionType::Unknown(x) => x,
        }
    }

    pub fn from_u16(x: u16) -> (t: ExtensionType)
        ensures
            t == ExtensionType::of_code(x),
    {
        match x {
            0x000A => ExtensionType::SupportedGroups,
            0x000B => ExtensionType::EcPointFormats,
            0x000D => ExtensionType::SignatureAlgorithms,
            0x000E => ExtensionType::UseSrtp,
            0x0013 => ExtensionType::ClientCertificateType,
            0x0014 => ExtensionType::ServerCertificateType,
            0x0017 => ExtensionType::ExtendedMasterSecret,
            0x0036 => ExtensionType::ConnectionId,
            0xFF01 => ExtensionType::RenegotiationInfo,
            _ => ExtensionType::Unknown(x),
        }
    }

    pub fn is_supported(&self) -> (b: bool)
        ensures
            b == self.supported(),
    {
        match *self {
            ExtensionType::SupportedGroups => true,
            ExtensionType::EcPointFormats => true,
            ExtensionType::SignatureAlgorithms => true,
            ExtensionType::UseSrtp => true,
            ExtensionType::ExtendedMasterSecret => true,
            ExtensionType::ConnectionId => true,
            ExtensionType::RenegotiationInfo => true,
            _ => false,
        }
    }
}

/// A Hello extension, with the place of its data in the buffer that holds it.
#[derive(Debug, PartialEq, Eq)]
pub struct Extension {
    pub extension_type: ExtensionType,
    pub extension_data_range: Range<usize>,
}

/// The extensions of a Hello: as many as there are supported types.
pub type ExtensionVec = ArrayVec<Extension, 7>;

/// The low 16 bits of a length.
pub open spec fn low16(n: nat) -> u16 {
    (n % 0x1_0000) as u16
}

/// The extension at `pos` of `s`, where `s` itself starts at `base` of a larger
/// buffer.
pub open spec fn extension_at(s: Seq<u8>, pos: nat, base: nat) -> Result<Extension, FailAt> {
    let len = wire::u16_at(s, pos as int + 2);
    if s.len() < pos + 2 {
        Err(crate::error::eof_at(pos))
    } else if s.len() < pos + 4 {
        Err(crate::error::eof_at(pos + 2))
    } else if s.len() < pos + 4 + len {
        Err(crate::error::eof_at(pos + 4))
    } else {
        Ok(
            Extension {
                extension_type: ExtensionType::of_code(wire::u16_at(s, pos as int)),
                extension_data_range: Range {
                    start: (base + pos + 4) as usize,
                    end: (base + pos + 4 + len) as usize,
                },
            },
        )
    }
}

impl Extension {
    /// The data of the extension lies within `source`.
    pub open spec fn lies_in(&self, source: Seq<u8>) -> bool {
        self.extension_data_range.start <= self.extension_data_range.end <= source.len()
    }

    /// The data of the extension in `source`.
    pub open spec fn data(&self, source: Seq<u8>) -> Seq<u8> {
        source.subrange(
            self.extension_data_range.start as int,
            self.extension_data_range.end as int,
        )
    }

    /// The extension as it is written: type, length and data.
    pub open spec fn bytes(&self, source: Seq<u8>) -> Seq<u8> {
        wire::u16_bytes(self.extension_type.code()) + wire::u16_bytes(
            low16(self.data(source).len()),
        ) + self.data(source)
    }

    pub fn parse(input: &[u8], base_offset: usize) -> (r: ParseResult<'_, Extension>)
        requires
            base_offset + input@.len() <= usize::MAX,
        ensures
            match extension_at(input@, 0, base_offset as nat) {
                Ok(e) => r matches Ok((rest, v)) && v == e && rest@ == input@.skip(
                    4 + wire::u16_at(input@, 2),
                ),
                Err(f) => crate::error::fails_as(r, input@, f),
            },
    {
        assert(input@.skip(0) =~= input@);
        let (rest, code) = match wire::be_u16(input) {
            Ok(v) => v,
            Err(e) => return Err(e),
        };
        let (rest, len) = match wire::be_u16(rest) {
            Ok(v) => v,
            Err(e) => return Err(e),
        };
        assert(rest@ =~= input@.skip(4));
        let (rest, _) = match wire::take(rest, len as usize) {
            Ok(v) => v,
            Err(e) => return Err(e),
        };
        assert(rest@ =~= input@.skip(4 + len));
        let start: usize = base_offset + 4;
        let end: usize = start + len as usize;
        Ok(
            (
                rest,
                Extension {
                    extension_type: ExtensionType::from_u16(code),
                    extension_data_range: start..end,
                },
            ),
        )
    }

    /// The data of the extension in the buffer that holds it.
    pub fn extension_data<'a>(&self, buf: &'a [u8]) -> (s: &'a [u8])
        requires
            self.lies_in(buf@),
        ensures
            s@ == self.data(buf@),
    {
        &buf[self.extension_data_range.start..self.extension_data_range.end]
    }

    pub fn serialize(&self, source_buf: &[u8], output: &mut Buf)
        requires
            self.lies_in(source_buf@),
        ensures
            final(output)@ == old(output)@ + self.bytes(source_buf@),
    {
        let data = self.extension_data(source_buf);
        wire::push_u16(output, self.extension_type.as_u16());
        wire::push_u16(output, (data.len() % 0x1_0000) as u16);
        output.extend_from_slice(data);
        assert(output@ =~= old(output)@ + self.bytes(source_buf@));
    }
}

/// The registered codes of the extension types, and which of them are kept. Any other
/// code is unknown, keeps its value, and its extension is not kept.
pub proof fn law_extension_types_have_their_codes(x: u16, t: ExtensionType)
    ensures
        ExtensionType::of_code(x) is SupportedGroups <==> x == 10,
        ExtensionType::of_code(x) is EcPointFormats <==> x == 11,
        ExtensionType::of_code(x) is SignatureAlgorithms <==> x == 13,
        ExtensionType::of_code(x) is UseSrtp <==> x == 14,
        ExtensionType::of_code(x) is ClientCertificateType <==> x == 19,
        ExtensionType::of_code(x) is ServerCertificateType <==> x == 20,
        ExtensionType::of_code(x) is ExtendedMasterSecret <==> x == 23,
        ExtensionType::of_code(x) is ConnectionId <==> x == 54,
        ExtensionType::of_code(x) is RenegotiationInfo <==> x == 0xFF01,
        ExtensionType::of_code(x) matches ExtensionType::Unknown(y) ==> y == x,
        ExtensionType::of_code(x).supported() <==> (x == 10 || x == 11 || x == 13 || x == 14 || x
            == 23 || x == 54 || x == 0xFF01),
        t is SupportedGroups ==> t.code() == 10,
        t is EcPointFormats ==> t.code() == 11,
        t is SignatureAlgorithms ==> t.code() == 13,
        t is UseSrtp ==> t.code() == 14,
        t is ClientCertificateType ==> t.code() == 19,
        t is ServerCertificateType ==> t.code() == 20,
        t is ExtendedMasterSecret ==> t.code() == 23,
        t is ConnectionId ==> t.code() == 54,
        t is RenegotiationInfo ==> t.code() == 0xFF01,
        t matches ExtensionType::Unknown(y) ==> t.code() == y,
        t is Unknown ==> !t.supported(),
{
}

/// An extension is written as its code, the number of its bytes, and those bytes as they
/// stand in the buffer.
pub proof fn law_extension_is_written_in_order(e: Extension, source: Seq<u8>)
    requires
        e.lies_in(source),
        e.extension_data_range.end - e.extension_data_range.start < 65536,
    ensures
        ({
            let out = e.bytes(source);
            let start = e.extension_data_range.start as int;
            let len = e.extension_data_range.end - start;
            &&& out.len() == 4 + len
            &&& out[0] * 256 + out[1] == e.extension_type.code()
            &&& out[2] * 256 + out[3] == len
            &&& forall|i: int| 0 <= i < len ==> #[trigger] out[4 + i] == source[start + i]
        }),
{
    let out = e.bytes(source);
    let start = e.extension_data_range.start as int;
    let len = e.extension_data_range.end - start;
    let code = e.extension_type.code();
    assert(out[0] == (code / 256) as u8 && out[1] == (code % 256) as u8);
    assert(low16(len as nat) == len);
    assert(out[2] == (low16(len as nat) / 256) as u8 && out[3] == (low16(len as nat) % 256) as u8);
    assert forall|i: int| 0 <= i < len implies #[trigger] out[4 + i] == source[start + i] by {
        assert(e.data(source)[i] == source[start + i]);
    }
}

/// The data of an extension are the bytes of the buffer in its range.
pub proof fn law_extension_data_is_its_range(e: Extension, source: Seq<u8>)
    ensures
        e.lies_in(source) <==> e.extension_data_range.start <= e.extension_data_range.end
            <= source.len(),
        e.lies_in(source) ==> e.data(source).len() == e.extension_data_range.end
            - e.extension_data_range.start && forall|i: int|
            0 <= i < e.data(source).len() ==> #[trigger] e.data(source)[i]
                == source[e.extension_data_range.start + i],
{
}

/// An extension is read exactly where its code, its length and its data are there in full:
/// it has the type of its code, and its data is what follows, as long as the length says.
/// Otherwise it is incomplete from the field on that is not there in full.
pub proof fn law_extension_by_bytes(s: Seq<u8>, pos: nat, base: nat)
    requires
        base + s.len() <= usize::MAX,
    ensures
        extension_at(s, pos, base) is Ok <==> s.len() >= pos + 4 && s.len() >= pos + 4 + s[pos as int + 2]
            * 256 + s[pos as int + 3],
        extension_at(s, pos, base) matches Ok(e) ==> {
            &&& e.extension_type.code() == s[pos as int] * 256 + s[pos as int + 1]
            &&& e.extension_type == ExtensionType::of_code(e.extension_type.code())
            &&& e.extension_data_range.start == base + pos + 4
            &&& e.extension_data_range.end == base + pos + 4 + s[pos as int + 2] * 256 + s[pos as int + 3]
        },
        extension_at(s, pos, base) matches Err(f) ==> f.code == crate::error::ErrorKind::Eof
            && f.severity == crate::error::Severity::Error && f.at == (if s.len() < pos + 2 {
            pos
        } else if s.len() < pos + 4 {
            pos + 2
        } else {
            pos + 4
        }),
{
}

} // verus!
