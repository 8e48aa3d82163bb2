//! Protocol versions.

use vstd::prelude::*;

use crate::error::ParseResult;
use crate::wire;

verus! {

/// A protocol version as it stands on the wire.
#[allow(non_camel_case_types)]
#[derive(Debug, Clone, Copy, PartialEq, Eq, Structural)]
pub enum ProtocolVersion {
    DTLS1_0,
    DTLS1_2,
    DTLS1_3,
    Unknown(u16),
}

impl ProtocolVersion {
    pub open spec fn code(self) -> u16 {
        match self {
            ProtocolVersion::DTLS1_0 => 0xFEFF,
            ProtocolVersion::DTLS1_2 => 0xFEFD,
            ProtocolVersion::DTLS1_3 => 0xFEFC,
            ProtocolVersion::Unknown(x) => x,
        }
    }

    pub open spec fn of_code(x: u16) -> ProtocolVersion {
        if x == 0xFEFF {
            ProtocolVersion::DTLS1_0
        } else if x == 0xFEFD {
            ProtocolVersion::DTLS1_2
        } else if x == 0xFEFC {
            ProtocolVersion::DTLS1_3
        } else {
            ProtocolVersion::Unknown(x)
        }
    }

    pub fn as_u16(&self) -> (x: u16)
        ensures
            x == self.code(),
    {
        match *self {
            ProtocolVersion::DTLS1_0 => 0xFEFF,
            ProtocolVersion::DTLS1_2 => 0xFEFD,
            ProtocolVersion::DTLS1_3 => 0xFEFC,
            ProtocolVersion::Unknown(x) => x,
        }
    }

    pub fn from_u16(x: u16) -> (v: ProtocolVersion)
        ensures
            v == ProtocolVersion::of_code(x),
    {
        match x {
            0xFEFF => ProtocolVersion::DTLS1_0,
            0xFEFD => ProtocolVersion::DTLS1_2,
            0xFEFC => ProtocolVersion::DTLS1_3,
            _ => ProtocolVersion::Unknown(x),
        }
    }

    pub fn parse(input: &[u8]) -> (r: ParseResult<'_, ProtocolVersion>)
        ensures
            2 <= input@.len() ==> (r matches Ok((rest, v)) && rest@ == input@.skip(2) && v
                == ProtocolVersion::of_code(wire::u16_at(input@, 0))),
            2 > input@.len() ==> crate::error::eof_in(r, input@),
    {
        match wire::be_u16(input) {
            Ok((rest, x)) => Ok((rest, ProtocolVersion::from_u16(x))),
            Err(e) => Err(e),
        }
    }
}

/// The registered codes of the versions: the one's complement of the version number, in
/// two bytes. Any other code is unknown, and keeps its value.
pub proof fn law_versions_have_their_codes(x: u16, v: ProtocolVersion)
    ensures
        ProtocolVersion::of_code(x) is DTLS1_0 <==> x == 65535 - 256,
        ProtocolVersion::of_code(x) is DTLS1_2 <==> x == 65535 - 258,
        ProtocolVersion::of_code(x) is DTLS1_3 <==> x == 65535 - 259,
        ProtocolVersion::of_code(x) matches ProtocolVersion::Unknown(y) ==> y == x,
        v is DTLS1_0 ==> v.code() == 65535 - 256,
        v is DTLS1_2 ==> v.code() == 65535 - 258,
        v is DTLS1_3 ==> v.code() == 65535 - 259,
        v matches ProtocolVersion::Unknown(y) ==> v.code() == y,
{
}

} // verus!
