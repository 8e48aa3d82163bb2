//! The `connection_id` extension (RFC 9146).

use arrayvec::ArrayVec;
use vstd::prelude::*;

use crate::arrays;
use crate::buffer::Buf;
use crate::error::{ErrorKind, FailAt, ParseFailure, ParseResult, Severity};
use crate::wire;

verus! {

/// Connection ID extension as defined in RFC 9146.
///
/// The CID value is what the sender wants the peer to include in
/// encrypted records sent back. An empty CID is valid — it means
/// "negotiate CID but don't include one in records sent to me."
#[derive(Debug, PartialEq, Eq)]
pub struct ConnectionIdExtension {
    pub cid: ArrayVec<u8, 255>,
}

impl View for ConnectionIdExtension {
    type V = Seq<u8>;

    open spec fn view(&self) -> Seq<u8> {
        arrays::cid_items(self.cid)
    }
}

impl Clone for ConnectionIdExtension {
    fn clone(&self) -> (r: ConnectionIdExtension)
        ensures
            r@ == self@,
    {
        ConnectionIdExtension::new(arrays::cid_slice(&self.cid))
    }
}

/// The body of the extension: the length of the Connection ID in one byte, and the
/// Connection ID.
pub open spec fn cid_body(cid: Seq<u8>) -> Seq<u8> {
    seq![cid.len() as u8] + cid
}

/// The Connection ID in an extension body. Nothing may follow it (RFC 9146 §3).
pub open spec fn cid_in(s: Seq<u8>) -> Result<Seq<u8>, FailAt> {
    if s.len() < 1 {
        Err(crate::error::eof_at(0))
    } else if s.len() < 1 + s[0] {
        Err(crate::error::eof_at(1))
    } else if s.len() > 1 + s[0] {
        Err(FailAt { severity: Severity::Error, at: (1 + s[0]) as nat, code: ErrorKind::Verify })
    } else {
        Ok(s.skip(1))
    }
}

/// A Connection ID of at most 255 bytes is read back from the body that was written
/// for it, and every body that is accepted is the one written for what was read.
pub proof fn law_cid_body_roundtrip(cid: Seq<u8>, body: Seq<u8>)
    ensures
        cid.len() <= 255 ==> cid_in(cid_body(cid)) == Ok::<Seq<u8>, FailAt>(cid),
        cid_in(body) matches Ok(c) ==> c.len() <= 255 && cid_body(c) == body,
{
    if cid.len() <= 255 {
        assert(cid_body(cid).skip(1) =~= cid);
    }
    if let Ok(c) = cid_in(body) {
        assert(cid_body(c) =~= body);
    }
}

impl ConnectionIdExtension {
    pub fn new(cid: &[u8]) -> (r: ConnectionIdExtension)
        requires
            cid@.len() <= 255,
        ensures
            r@ == cid@,
    {
        let mut arr = arrays::cid_new();
        let _ = arrays::cid_extend(&mut arr, cid);
        assert(arrays::cid_items(arr) =~= cid@);
        ConnectionIdExtension { cid: arr }
    }

    pub fn parse(input: &[u8]) -> (r: ParseResult<'_, ConnectionIdExtension>)
        ensures
            match cid_in(input@) {
                Ok(cid) => r matches Ok((rest, ext)) && rest@.len() == 0 && ext@ == cid,
                Err(f) => crate::error::fails_as(r, input@, f),
            },
    {
        assert(input@.skip(0) =~= input@);
        let (rest, cid_len) = match wire::be_u8(input) {
            Ok(v) => v,
            Err(e) => return Err(e),
        };
        let (rest, cid_bytes) = match wire::take(rest, cid_len as usize) {
            Ok(v) => v,
            Err(e) => return Err(e),
        };
        // RFC 9146 §3: trailing bytes are a malformed extension.
        if rest.len() > 0 {
            assert(rest@ =~= input@.skip(1 + cid_len));
            return Err(
                ParseFailure { severity: Severity::Error, input: rest, code: ErrorKind::Verify },
            );
        }
        assert(cid_bytes@ =~= input@.skip(1));
        Ok((rest, ConnectionIdExtension::new(cid_bytes)))
    }

    pub fn serialize(&self, output: &mut Buf)
        ensures
            final(output)@ == old(output)@ + cid_body(self@),
    {
        let cid: &[u8] = arrays::cid_slice(&self.cid);
        output.push(cid.len() as u8);
        output.extend_from_slice(cid);
        assert(output@ =~= old(output)@ + cid_body(self@));
    }
}

/// The body of the extension is one byte that counts the Connection ID, and the
/// Connection ID. It is read exactly where the byte counts all that follows; where it
/// counts more, the body is incomplete, and where less, it is malformed.
pub proof fn law_cid_body_counts_the_cid(cid: Seq<u8>, body: Seq<u8>)
    ensures
        cid.len() <= 255 ==> cid_body(cid).len() == 1 + cid.len() && cid_body(cid)[0] == cid.len()
            && forall|i: int| 0 <= i < cid.len() ==> #[trigger] cid_body(cid)[1 + i] == cid[i],
        cid_in(body) is Ok <==> body.len() >= 1 && body.len() == 1 + body[0],
        cid_in(body) matches Ok(c) ==> c.len() == body.len() - 1 && forall|i: int|
            0 <= i < c.len() ==> #[trigger] c[i] == body[1 + i],
        body.len() == 0 ==> (cid_in(body) matches Err(f) && f.code == ErrorKind::Eof && f.severity
            == Severity::Error && f.at == 0),
        body.len() >= 1 && body.len() < 1 + body[0] ==> (cid_in(body) matches Err(f) && f.code
            == ErrorKind::Eof && f.severity == Severity::Error && f.at == 1),
        body.len() >= 1 && body.len() > 1 + body[0] ==> (cid_in(body) matches Err(f) && f.code
            == ErrorKind::Verify && f.severity == Severity::Error && f.at == 1 + body[0]),
{
}

} // verus!
