//! Fields of the Hello messages.

use vstd::prelude::*;

use crate::buffer::Buf;
use crate::error::{ErrorKind, FailAt, ParseFailure, ParseResult, Severity};
use crate::wire;

verus! {

/// The random of a Hello message.
#[derive(Debug, Clone, Copy, PartialEq, Eq)]
pub struct Random {
    pub bytes: [u8; 32],
}

impl Random {
    pub fn parse(input: &[u8]) -> (r: ParseResult<'_, Random>)
        ensures
            32 <= input@.len() ==> (r matches Ok((rest, v)) && rest@ == input@.skip(32)
                && v.bytes@ == input@.take(32)),
            32 > input@.len() ==> crate::error::eof_in(r, input@),
    {
        let (rest, head) = match wire::take(input, 32) {
            Ok(v) => v,
            Err(e) => return Err(e),
        };
        let mut bytes: [u8; 32] = [0u8;32];
        let mut i: usize = 0;
        while i < 32
            invariant
                i <= 32,
                head@.len() == 32,
                forall|k: int| 0 <= k < i ==> bytes@[k] == head@[k],
            decreases 32 - i,
        {
            bytes[i] = head[i];
            i = i + 1;
        }
        assert(bytes@ =~= head@);
        Ok((rest, Random { bytes }))
    }

    pub fn serialize(&self, output: &mut Buf)
        ensures
            final(output)@ == old(output)@ + self.bytes@,
    {
        output.extend_from_slice(self.bytes.as_slice());
    }
}

/// A session identifier of at most 32 bytes.
#[derive(Debug, PartialEq, Eq)]
pub struct SessionId {
    bytes: Vec<u8>,
}

/// A session identifier at the start of `s`: its length in one byte, at most 32, and
/// its bytes.
pub open spec fn session_id_in(s: Seq<u8>) -> Result<Seq<u8>, FailAt> {
    if s.len() < 1 {
        Err(crate::error::eof_at(0))
    } else if s[0] > 32 {
        Err(FailAt { severity: Severity::Failure, at: 1, code: ErrorKind::LengthValue })
    } else if s.len() < 1 + s[0] {
        Err(crate::error::eof_at(1))
    } else {
        Ok(s.subrange(1, 1 + s[0]))
    }
}

impl View for SessionId {
    type V = Seq<u8>;

    closed spec fn view(&self) -> Seq<u8> {
        self.bytes@
    }
}

impl SessionId {
    #[verifier::type_invariant]
    spec fn fits(self) -> bool {
        self.bytes@.len() <= 32
    }

    /// `None` where there are more than 32 bytes.
    pub fn new(bytes: &[u8]) -> (r: Option<SessionId>)
        ensures
            bytes@.len() <= 32 ==> (r matches Some(id) && id@ == bytes@),
            bytes@.len() > 32 ==> r is None,
    {
        if bytes.len() > 32 {
            return None;
        }
        Some(SessionId { bytes: vstd::slice::slice_to_vec(bytes) })
    }

    pub fn parse(input: &[u8]) -> (r: ParseResult<'_, SessionId>)
        ensures
            match session_id_in(input@) {
                Ok(id) => r matches Ok((rest, v)) && v@ == id && rest@ == input@.skip(
                    1 + id.len() as int,
                ),
                Err(f) => crate::error::fails_as(r, input@, f),
            },
    {
        assert(input@.skip(0) =~= input@);
        let (rest, len) = match wire::be_u8(input) {
            Ok(v) => v,
            Err(e) => return Err(e),
        };
        if len > 32 {
            return Err(
                ParseFailure {
                    severity: Severity::Failure,
                    input: rest,
                    code: ErrorKind::LengthValue,
                },
            );
        }
        let (rest, id) = match wire::take(rest, len as usize) {
            Ok(v) => v,
            Err(e) => return Err(e),
        };
        assert(id@ =~= input@.subrange(1, 1 + len));
        assert(rest@ =~= input@.skip(1 + len));
        Ok((rest, SessionId { bytes: vstd::slice::slice_to_vec(id) }))
    }

    pub fn as_slice(&self) -> (s: &[u8])
        ensures
            s@ == self@,
            s@.len() <= 32,
    {
        proof {
            use_type_invariant(self);
        }
        self.bytes.as_slice()
    }
}

/// A compression method.
#[derive(Debug, Clone, Copy, PartialEq, Eq, Structural)]
pub enum CompressionMethod {
    Null,
    Deflate,
    Unknown(u8),
}

impl CompressionMethod {
    pub open spec fn code(self) -> u8 {
        match self {
            CompressionMethod::Null => 0,
            CompressionMethod::Deflate => 1,
            CompressionMethod::Unknown(x) => x,
        }
    }

    pub open spec fn of_code(x: u8) -> CompressionMethod {
        if x == 0 {
            CompressionMethod::Null
        } else if x == 1 {
            CompressionMethod::Deflate
        } else {
            CompressionMethod::Unknown(x)
        }
    }

    pub fn as_u8(&self) -> (x: u8)
        ensures
            x == self.code(),
    {
        match *self {
            CompressionMethod::Null => 0,
            CompressionMethod::Deflate => 1,
            CompressionMethod::Unknown(x) => x,
        }
    }

    pub fn parse(input: &[u8]) -> (r: ParseResult<'_, CompressionMethod>)
        ensures
            1 <= input@.len() ==> (r matches Ok((rest, v)) && rest@ == input@.skip(1) && v
                == CompressionMethod::of_code(input@[0])),
            1 > input@.len() ==> crate::error::eof_in(r, input@),
    {
        match wire::be_u8(input) {
            Ok((rest, 0)) => Ok((rest, CompressionMethod::Null)),
            Ok((rest, 1)) => Ok((rest, CompressionMethod::Deflate)),
            Ok((rest, x)) => Ok((rest, CompressionMethod::Unknown(x))),
            Err(e) => Err(e),
        }
    }
}

/// The registered codes of the compression methods. Any other code is unknown, and keeps
/// its value.
pub proof fn law_compression_methods_have_their_codes(x: u8, m: CompressionMethod)
    ensures
        CompressionMethod::of_code(x) is Null <==> x == 0,
        CompressionMethod::of_code(x) is Deflate <==> x == 1,
        CompressionMethod::of_code(x) matches CompressionMethod::Unknown(y) ==> y == x,
        m is Null ==> m.code() == 0,
        m is Deflate ==> m.code() == 1,
        m matches CompressionMethod::Unknown(y) ==> m.code() == y,
{
}

/// A session identifier is read exactly where its length byte counts at most 32 bytes
/// that are there, and it is these bytes. A longer one is refused as such, and one that
/// is cut short as incomplete.
pub proof fn law_session_id_is_what_its_length_counts(s: Seq<u8>)
    ensures
        session_id_in(s) is Ok <==> s.len() >= 1 && s[0] <= 32 && s.len() >= 1 + s[0],
        session_id_in(s) matches Ok(id) ==> id.len() == s[0] && forall|i: int|
            0 <= i < id.len() ==> #[trigger] id[i] == s[1 + i],
        s.len() >= 1 && s[0] > 32 ==> (session_id_in(s) matches Err(f) && f.code
            == ErrorKind::LengthValue && f.severity == Severity::Failure && f.at == 1),
        s.len() == 0 ==> (session_id_in(s) matches Err(f) && f.code == ErrorKind::Eof && f.severity
            == Severity::Error && f.at == 0),
        s.len() >= 1 && s[0] <= 32 && s.len() < 1 + s[0] ==> (session_id_in(s) matches Err(f)
            && f.code == ErrorKind::Eof && f.severity == Severity::Error && f.at == 1),
{
}

} // verus!
