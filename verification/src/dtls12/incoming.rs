//! Incoming datagrams: record framing, decryption and classification.

use arrayvec::ArrayVec;
use vstd::prelude::*;

use super::framing;
use super::framing::Frame;
use super::message::handshake::Handshake;
use super::message::record::DTLSRecord;
use super::message::Dtls12CipherSuite;
use crate::arrays;
use crate::buffer::{Buf, TmpBuf};
use crate::constant_time;
use crate::crypto::{Aad, Nonce};
use crate::error::{Error, ErrorKind};
use crate::types::{ContentType, Sequence};
use crate::util;

verus! {

/// The handshake fragments that follow one another in `s`, at most `room` of them.
/// What does not parse ends the list.
pub open spec fn handshakes_in(s: Seq<u8>, base: nat, room: nat) -> Seq<Handshake>
    decreases room,
{
    if room == 0 || s.len() == 0 {
        Seq::empty()
    } else {
        match super::message::handshake::handshake_in(s, base) {
            Ok(h) => {
                let used = (12 + h.fragment_length) as nat;
                seq![h] + handshakes_in(s.skip(used as int), base + used, (room - 1) as nat)
            },
            Err(_) => Seq::empty(),
        }
    }
}

/// A record header and the handshake fragments behind it, as [`ParsedRecord::parse`]
/// reads them.
pub open spec fn parsed_in(s: Seq<u8>, offset: nat) -> Result<
    (DTLSRecord, Seq<Handshake>),
    ErrorKind,
> {
    match super::message::record::record_in(s, 0, offset) {
        Ok(record) => {
            let from = record.fragment_range.start as int;
            let to = record.fragment_range.end as int;
            if record.content_type is Handshake {
                Ok((record, handshakes_in(s.subrange(from, to), from as nat, 8)))
            } else {
                Ok((record, Seq::empty()))
            }
        },
        Err(f) => Err(f.code),
    }
}

/// A parsed record header with the handshake fragments in the record.
pub struct ParsedRecord {
    pub record: DTLSRecord,
    pub handshakes: ArrayVec<Handshake, 8>,
    pub handled: bool,
}

impl ParsedRecord {
    pub fn parse(
        input: &[u8],
        cipher_suite: Option<Dtls12CipherSuite>,
        offset: usize,
    ) -> (r: Result<ParsedRecord, Error>)
        ensures
            match parsed_in(input@, offset as nat) {
                Ok((record, handshakes)) => r matches Ok(p) && p.record == record
                    && arrays::handshake_items(p.handshakes) == handshakes && !p.handled,
                Err(code) => r matches Err(e) && e == Error::ParseError(code),
            },
    {
        assert(input.len() == input@.len());
        let record = match DTLSRecord::parse(input, 0, offset) {
            Ok((_, record)) => record,
            Err(e) => return Err(e.into_error()),
        };
        let handshakes = if record.content_type == ContentType::Handshake {
            // An encrypted Finished gives none, or some that mean nothing. It is
            // parsed again once it is decrypted.
            let fragment_offset: usize = record.fragment_range.start;
            parse_handshakes(record.fragment(input), fragment_offset, cipher_suite)
        } else {
            arrays::handshake_new()
        };
        Ok(ParsedRecord { record, handshakes, handled: false })
    }
}

/// Reads handshake fragments until the input ends, one does not parse, or the list
/// is full. The cipher suite matters to whole messages only.
fn parse_handshakes(
    input: &[u8],
    base_offset: usize,
    _cipher_suite: Option<Dtls12CipherSuite>,
) -> (handshakes: ArrayVec<Handshake, 8>)
    requires
        base_offset + input@.len() <= usize::MAX,
    ensures
        arrays::handshake_items(handshakes) == handshakes_in(input@, base_offset as nat, 8),
{
    let mut handshakes = arrays::handshake_new();
    let mut rest: &[u8] = input;
    let mut offset: usize = base_offset;
    let ghost all = handshakes_in(input@, base_offset as nat, 8);
    assert(arrays::handshake_items(handshakes) + handshakes_in(rest@, offset as nat, 8) =~= all);
    while rest.len() > 0
        invariant_except_break
            offset + rest@.len() <= usize::MAX,
            arrays::handshake_items(handshakes).len() <= 8,
            arrays::handshake_items(handshakes) + handshakes_in(
                rest@,
                offset as nat,
                (8 - arrays::handshake_items(handshakes).len()) as nat,
            ) == all,
        ensures
            arrays::handshake_items(handshakes) == all,
        decreases rest@.len(),
    {
        let ghost before = arrays::handshake_items(handshakes);
        match Handshake::parse_fragment(rest, offset) {
            Ok((remaining, handshake)) => {
                let len: usize = rest.len() - remaining.len();
                offset = offset + len;
                rest = remaining;
                if !arrays::handshake_push(&mut handshakes, handshake) {
                    assert(before + Seq::<Handshake>::empty() =~= before);
                    break;
                }
                proof {
                    let tail = handshakes_in(rest@, offset as nat, (7 - before.len()) as nat);
                    assert(before + (seq![handshake] + tail) =~= before.push(handshake) + tail);
                }
            },
            Err(_) => {
                assert(before + Seq::<Handshake>::empty() =~= before);
                break;
            },
        }
    }
    handshakes
}

/// A record with the bytes that it came in. A Connection ID stays in the bytes
/// until the record is decrypted.
pub struct Record {
    pub buffer: Buf,
    pub parsed: Box<ParsedRecord>,
}

/// What a [`Record`] holds.
#[verifier::ext_equal]
pub struct RecordView {
    pub buffer: Seq<u8>,
    pub record: DTLSRecord,
    pub handshakes: Seq<Handshake>,
    pub handled: bool,
}

impl View for Record {
    type V = RecordView;

    open spec fn view(&self) -> RecordView {
        RecordView {
            buffer: self.buffer@,
            record: self.parsed.record,
            handshakes: arrays::handshake_items(self.parsed.handshakes),
            handled: self.parsed.handled,
        }
    }
}

/// Content type and content length of the decrypted inner plaintext of a
/// `tls12_cid` record. `None` where the record is invalid: no known type, or one
/// that may not stand inside a `tls12_cid` record.
pub open spec fn inner_record(text: Seq<u8>) -> Option<(u8, nat)> {
    match util::inner_content(text) {
        Some((t, n)) => if t is Tls12Cid || t is Ack {
            None
        } else {
            Some((t.code(), n))
        },
        None => None,
    }
}

/// Unwraps the decrypted inner plaintext of a `tls12_cid` record; see
/// [`inner_record`].
pub fn unwrap_inner(text: &[u8]) -> (r: Option<(u8, usize)>)
    ensures
        match inner_record(text@) {
            Some((t, n)) => r matches Some((rt, rn)) && rt == t && rn == n,
            None => r is None,
        },
{
    match util::recover_inner_content_type(text) {
        Ok((t, n)) => match t {
            ContentType::Tls12Cid | ContentType::Ack => None,
            _ => Some((t.as_u8(), n)),
        },
        Err(_) => None,
    }
}

/// The bytes of a `tls12_cid` record without the `cid_len` bytes of Connection ID
/// in its header.
pub open spec fn without_cid(s: Seq<u8>, cid_len: nat) -> Seq<u8> {
    s.take(11) + s.skip(11 + cid_len as int)
}

/// `s` with the length field of a record header set to the low 16 bits of `n`.
pub open spec fn with_length(s: Seq<u8>, n: nat) -> Seq<u8> {
    s.update(11, (n / 256 % 256) as u8).update(12, (n % 256) as u8)
}

/// The header of a decrypted record says what its plaintext is: the length of the
/// text, or the content type and length recovered from an inner plaintext.
pub open spec fn rewritten(s: Seq<u8>, text_len: nat, inner: Option<(u8, nat)>) -> Seq<u8> {
    match inner {
        Some((t, n)) => with_length(s.update(0, t), n),
        None => with_length(s, text_len),
    }
}

/// A decrypted record: `buffer` with its header rewritten, and read again.
pub open spec fn reparsed(
    buffer: Seq<u8>,
    text_len: nat,
    inner: Option<(u8, nat)>,
    nonce_len: nat,
) -> Result<RecordView, Error> {
    let bytes = rewritten(buffer, text_len, inner);
    match parsed_in(bytes, nonce_len) {
        Ok((record, handshakes)) => Ok(
            RecordView { buffer: bytes, record, handshakes, handled: false },
        ),
        Err(code) => Err(Error::ParseError(code)),
    }
}

/// What a call on records returned, with each record by its view.
pub open spec fn viewed(r: Result<Record, Error>) -> Result<RecordView, Error> {
    match r {
        Ok(record) => Ok(record@),
        Err(e) => Err(e),
    }
}

/// Rewrites the header of a decrypted record and reads the record again; see
/// [`reparsed`].
pub fn reparse(
    buffer: Buf,
    text_len: usize,
    inner: Option<(u8, usize)>,
    cs: Option<Dtls12CipherSuite>,
    explicit_nonce_len: usize,
) -> (r: Result<Record, Error>)
    requires
        buffer@.len() >= 13,
    ensures
        viewed(r) == reparsed(
            buffer@,
            text_len as nat,
            match inner {
                Some((t, n)) => Some((t, n as nat)),
                None => None,
            },
            explicit_nonce_len as nat,
        ),
{
    let mut buffer = buffer;
    let len: usize = match inner {
        Some((content_type, content_len)) => {
            buffer[0] = content_type;
            content_len
        },
        None => text_len,
    };
    buffer[11] = (len / 256 % 256) as u8;
    buffer[12] = (len % 256) as u8;
    match ParsedRecord::parse(buffer.as_slice(), cs, explicit_nonce_len) {
        Ok(parsed) => Ok(Record { buffer, parsed: Box::new(parsed) }),
        Err(e) => Err(e),
    }
}

/// What an attempt to decrypt left behind: the buffer as [`TmpBuf::text`] and
/// [`TmpBuf::tail`], and what was returned.
#[verifier::ext_equal]
pub struct Opened {
    pub text: Seq<u8>,
    pub tail: Seq<u8>,
    pub result: Result<(), Error>,
}

/// The limits within which an association works: a Connection ID whose length one
/// byte can count, and an AEAD overhead that holds the explicit nonce.
pub open spec fn within_limits(cid: Option<Seq<u8>>, nonce_len: nat, overhead: nat) -> bool {
    &&& cid matches Some(c) ==> c.len() <= 255
    &&& nonce_len <= overhead
}

/// Trait abstracting record parsing-time handling for incoming records.
///
/// This decouples the record parser from the association, allowing the parse loop
/// to decrypt records, classify control records, and queue only the records that
/// should survive into [`Incoming`].
///
/// Each method that reads has its result named by a spec function. Each method that
/// changes the association is described by a relation between the state before and
/// after the call and what it returned; the parser promises what it does whatever
/// that relation admits. By default a relation admits everything, and a name stands
/// for one value that is not known: a handler whose answer changes with its state gives
/// the name a body of its own.
///
/// The parser frames a whole datagram by the length of the Connection ID that it found
/// at its start. So the methods that it calls on the way, those that decrypt and that
/// update the replay window, keep the association within its limits and do not make
/// the Connection ID longer.
pub trait RecordHandler: Sized {
    /// Result of [`RecordHandler::is_peer_encryption_enabled`].
    open spec fn encrypted(&self) -> bool {
        arbitrary()
    }

    /// Result of [`RecordHandler::replay_check`].
    open spec fn fresh(&self, seq: Sequence) -> bool {
        arbitrary()
    }

    /// Result of [`RecordHandler::our_cid`].
    open spec fn cid(&self) -> Option<Seq<u8>> {
        arbitrary()
    }

    /// Result of [`RecordHandler::inbound_cid_active`].
    open spec fn armed_cid(&self) -> Option<Seq<u8>> {
        arbitrary()
    }

    /// Result of [`RecordHandler::explicit_nonce_len`].
    open spec fn nonce_len(&self) -> nat {
        arbitrary()
    }

    /// Result of [`RecordHandler::aead_overhead`].
    open spec fn overhead(&self) -> nat {
        arbitrary()
    }

    /// Result of [`RecordHandler::decryption_aad_and_nonce`].
    open spec fn aad_nonce(&self, dtls: DTLSRecord, buf: Seq<u8>) -> (Seq<u8>, Seq<u8>) {
        arbitrary()
    }

    /// Result of [`RecordHandler::decryption_aad_and_nonce_cid`].
    open spec fn aad_nonce_cid(
        &self,
        dtls: DTLSRecord,
        buf: Seq<u8>,
        cid: Seq<u8>,
        inner_plaintext_len: u16,
    ) -> (Seq<u8>, Seq<u8>) {
        arbitrary()
    }

    /// [`RecordHandler::classify_record`] may lead from `self` to `post` and `out`.
    open spec fn classify_step(
        &self,
        record: RecordView,
        post: Self,
        out: Result<Option<RecordView>, Error>,
    ) -> bool {
        true
    }

    /// [`RecordHandler::replay_update`] may lead from `self` to `post`.
    open spec fn replay_step(&self, seq: Sequence, post: Self) -> bool {
        true
    }

    /// [`RecordHandler::decrypt_data`] may lead from `self` to `post` and `out`.
    open spec fn decrypt_step(
        &self,
        ciphertext: Seq<u8>,
        aad: Seq<u8>,
        nonce: Seq<u8>,
        post: Self,
        out: Opened,
    ) -> bool {
        true
    }

    fn classify_record(&mut self, record: Record) -> (r: Result<Option<Record>, Error>)
        ensures
            old(self).classify_step(record@, *final(self), viewed_option(r)),
    ;

    fn is_peer_encryption_enabled(&self) -> (b: bool)
        ensures
            b == self.encrypted(),
    ;

    fn replay_check(&self, seq: Sequence) -> (b: bool)
        ensures
            b == self.fresh(seq),
    ;

    fn replay_update(&mut self, seq: Sequence)
        requires
            within_limits(old(self).cid(), old(self).nonce_len(), old(self).overhead()),
        ensures
            within_limits(final(self).cid(), final(self).nonce_len(), final(self).overhead()),
            framing::cid_len(final(self).cid()) <= framing::cid_len(old(self).cid()),
            old(self).replay_step(seq, *final(self)),
    ;

    fn decryption_aad_and_nonce(&self, dtls: &DTLSRecord, buf: &[u8]) -> (r: (Aad, Nonce))
        requires
            within_limits(self.cid(), self.nonce_len(), self.overhead()),
            buf@.len() >= 13 + self.nonce_len(),
        ensures
            r.0@ == self.aad_nonce(*dtls, buf@).0,
            r.1.0@ == self.aad_nonce(*dtls, buf@).1,
    ;

    /// Build AAD and nonce for a CID record (RFC 9146).
    fn decryption_aad_and_nonce_cid(
        &self,
        dtls: &DTLSRecord,
        buf: &[u8],
        cid: &[u8],
        inner_plaintext_len: u16,
    ) -> (r: (Aad, Nonce))
        requires
            within_limits(self.cid(), self.nonce_len(), self.overhead()),
            buf@.len() >= 13 + self.nonce_len(),
            cid@.len() <= 255,
        ensures
            r.0@ == self.aad_nonce_cid(*dtls, buf@, cid@, inner_plaintext_len).0,
            r.1.0@ == self.aad_nonce_cid(*dtls, buf@, cid@, inner_plaintext_len).1,
    ;

    fn explicit_nonce_len(&self) -> (n: usize)
        ensures
            n == self.nonce_len(),
    ;

    /// Decrypts in place; the text is cut to the plaintext, and what is cut off stays
    /// behind it. The buffer comes whole, and keeps its length.
    fn decrypt_data(&mut self, ciphertext: &mut TmpBuf, aad: Aad, nonce: Nonce) -> (r: Result<
        (),
        Error,
    >)
        requires
            within_limits(old(self).cid(), old(self).nonce_len(), old(self).overhead()),
            old(ciphertext).tail() == Seq::<u8>::empty(),
        ensures
            within_limits(final(self).cid(), final(self).nonce_len(), final(self).overhead()),
            framing::cid_len(final(self).cid()) <= framing::cid_len(old(self).cid()),
            final(ciphertext).text().len() + final(ciphertext).tail().len() == old(
                ciphertext,
            ).text().len(),
            old(self).decrypt_step(
                old(ciphertext).text(),
                aad@,
                nonce.0@,
                *final(self),
                (Opened {
                    text: final(ciphertext).text(),
                    tail: final(ciphertext).tail(),
                    result: r,
                }),
            ),
    ;

    /// Returns the CID value to expect in incoming `tls12_cid` framing, if
    /// any. Per RFC 9146 §3:
    ///
    /// - `None` — CID was not negotiated for this direction, OR the
    ///   negotiated inbound length was zero (legacy RFC 6347 framing). In
    ///   either case, `tls12_cid` records arriving here are unsolicited and
    ///   must be dropped; see [`framing::stray_frame`].
    /// - `Some(cid)` — CID was negotiated with non-zero inbound length;
    ///   incoming records use `tls12_cid` framing with `cid.len()` bytes
    ///   between the sequence-number and length fields. `cid` is the
    ///   expected value and is authenticated at the AEAD layer.
    fn our_cid(&self) -> (r: Option<&[u8]>)
        ensures
            self.cid() == match r {
                Some(s) => Some(s@),
                None => None,
            },
    ;

    /// Returns `Some(expected_cid_bytes)` once inbound CID is armed — i.e. the
    /// peer's ChangeCipherSpec has been processed and we are prepared to
    /// authenticate CID-framed records at the AEAD layer; `None` otherwise.
    ///
    /// Distinct from `our_cid()`, which reports the negotiated value
    /// regardless of activation so pre-CCS CID records can still be
    /// framed and queued for later decryption.
    fn inbound_cid_active(&self) -> (r: Option<&[u8]>)
        ensures
            self.armed_cid() == match r {
                Some(s) => Some(s@),
                None => None,
            },
    ;

    /// Returns the total AEAD overhead (explicit nonce + tag) for this cipher suite.
    fn aead_overhead(&self) -> (n: usize)
        ensures
            n == self.overhead(),
    ;
}

/// What a call on records returned, with the record by its view.
pub open spec fn viewed_option(r: Result<Option<Record>, Error>) -> Result<
    Option<RecordView>,
    Error,
> {
    match r {
        Ok(Some(record)) => Ok(Some(record@)),
        Ok(None) => Ok(None),
        Err(e) => Err(e),
    }
}

/// Length of the Connection ID in a record whose first byte is `first`.
pub open spec fn cid_len_of<H: RecordHandler>(h: H, first: u8) -> nat {
    if first == 25 {
        framing::cid_len(h.cid())
    } else {
        0
    }
}

/// What becomes of an encrypted record before it is decrypted.
#[verifier::ext_equal]
pub enum Admission {
    /// The record is dropped without an error.
    Drop,
    /// The record cannot be framed.
    Malformed,
    /// The record is decrypted: whether it carries a Connection ID, its sequence, its
    /// bytes and header without the Connection ID, the Connection ID that it carried,
    /// and the length of the plaintext.
    Decrypt {
        is_cid: bool,
        sequence: Sequence,
        buffer: Seq<u8>,
        dtls: DTLSRecord,
        wire_cid: Seq<u8>,
        inner_len: u16,
    },
}

/// The checks of an encrypted record that need no decryption, in order:
///
/// - where a Connection ID is expected, a record without one is dropped;
/// - a replayed record is dropped;
/// - a record with a Connection ID is dropped where inbound Connection IDs are not
///   active, or where its Connection ID is not the expected one;
/// - a record too short for the AEAD overhead is dropped, and so is one whose
///   plaintext would exceed 2^14 bytes.
pub open spec fn admission<H: RecordHandler>(h: H, rec: RecordView) -> Admission {
    let is_cid = rec.buffer[0] == 25;
    let cid_len = cid_len_of(h, rec.buffer[0]);
    let wire_cid = if is_cid {
        rec.buffer.subrange(11, 11 + cid_len as int)
    } else {
        Seq::empty()
    };
    let buffer = if is_cid {
        without_cid(rec.buffer, cid_len)
    } else {
        rec.buffer
    };
    if !is_cid && h.cid() is Some {
        Admission::Drop
    } else if !h.fresh(rec.record.sequence) {
        Admission::Drop
    } else if is_cid && (h.armed_cid() is None || (cid_len > 0 && Some(wire_cid)
        != h.armed_cid())) {
        Admission::Drop
    } else {
        match super::message::record::record_in(buffer, 0, 0) {
            Err(_) => Admission::Malformed,
            Ok(dtls) => if dtls.length < h.overhead() || dtls.length - h.overhead()
                > super::DTLS12_MAX_PLAINTEXT_LEN {
                Admission::Drop
            } else {
                Admission::Decrypt {
                    is_cid,
                    sequence: rec.record.sequence,
                    buffer,
                    dtls,
                    wire_cid,
                    inner_len: (dtls.length - h.overhead()) as u16,
                }
            },
        }
    }
}

/// From state `mid`, in which the attempt to decrypt left the association and `out`,
/// the record ends in `post` and `r`.
///
/// Where decryption failed, or the inner plaintext of a record with a Connection ID
/// is invalid, the record is dropped and the replay window is not told of it. An
/// error other than a failed decryption is reported.
pub open spec fn concluded<H: RecordHandler>(
    mid: H,
    is_cid: bool,
    sequence: Sequence,
    head: Seq<u8>,
    nonce_len: nat,
    out: Opened,
    post: H,
    r: Result<Option<RecordView>, Error>,
) -> bool {
    let inner = inner_record(out.text);
    match out.result {
        Err(Error::CryptoError(_)) => post == mid && r == Ok::<Option<RecordView>, Error>(None),
        Err(e) => post == mid && r == Err::<Option<RecordView>, Error>(e),
        Ok(()) => if is_cid && inner is None {
            post == mid && r == Ok::<Option<RecordView>, Error>(None)
        } else {
            &&& mid.replay_step(sequence, post)
            &&& r == match reparsed(
                head + out.text + out.tail,
                out.text.len(),
                if is_cid {
                    inner
                } else {
                    None
                },
                nonce_len,
            ) {
                Ok(v) => Ok(Some(v)),
                Err(e) => Err(e),
            }
        },
    }
}

/// Some attempt to decrypt `ciphertext` with `aad` and `nonce`, in place, leads from
/// `pre` to a state from which the record ends in `post` and `r`; see [`concluded`].
pub open spec fn attempted<H: RecordHandler>(
    pre: H,
    ciphertext: Seq<u8>,
    aad: Seq<u8>,
    nonce: Seq<u8>,
    is_cid: bool,
    sequence: Sequence,
    head: Seq<u8>,
    post: H,
    r: Result<Option<RecordView>, Error>,
) -> bool {
    exists|mid: H, out: Opened|
        {
            &&& #[trigger] pre.decrypt_step(ciphertext, aad, nonce, mid, out)
            &&& out.text.len() + out.tail.len() == ciphertext.len()
            &&& concluded(mid, is_cid, sequence, head, pre.nonce_len(), out, post, r)
        }
}

/// AAD and nonce for the decryption of an admitted record.
pub open spec fn record_aad_nonce<H: RecordHandler>(
    h: H,
    is_cid: bool,
    dtls: DTLSRecord,
    buffer: Seq<u8>,
    wire_cid: Seq<u8>,
    inner_len: u16,
) -> (Seq<u8>, Seq<u8>) {
    if is_cid {
        h.aad_nonce_cid(dtls, buffer, wire_cid, inner_len)
    } else {
        h.aad_nonce(dtls, buffer)
    }
}

/// Decrypting the record `rec` leads from `pre` to `post` and `r`.
pub open spec fn decrypt_run<H: RecordHandler>(
    pre: H,
    rec: RecordView,
    post: H,
    r: Result<Option<RecordView>, Error>,
) -> bool {
    match admission(pre, rec) {
        Admission::Drop => post == pre && r == Ok::<Option<RecordView>, Error>(None),
        Admission::Malformed => post == pre && r == Err::<Option<RecordView>, Error>(
            Error::ParseError(ErrorKind::Fail),
        ),
        Admission::Decrypt { is_cid, sequence, buffer, dtls, wire_cid, inner_len } => {
            let ciph = 13 + pre.nonce_len() as int;
            let params = record_aad_nonce(pre, is_cid, dtls, buffer, wire_cid, inner_len);
            attempted(
                pre,
                buffer.skip(ciph),
                params.0,
                params.1,
                is_cid,
                sequence,
                buffer.take(ciph),
                post,
                r,
            )
        },
    }
}

/// An encrypted record that passed the checks of [`admission`].
pub struct Admitted {
    pub is_cid_record: bool,
    pub sequence: Sequence,
    pub buffer: Buf,
    pub dtls: DTLSRecord,
    pub wire_cid: ArrayVec<u8, 255>,
    pub inner_plaintext_len: u16,
}

impl Admitted {
    /// What the admission of a record says of it.
    pub open spec fn admission(&self) -> Admission {
        Admission::Decrypt {
            is_cid: self.is_cid_record,
            sequence: self.sequence,
            buffer: self.buffer@,
            dtls: self.dtls,
            wire_cid: arrays::cid_items(self.wire_cid),
            inner_len: self.inner_plaintext_len,
        }
    }
}

impl Record {
    /// Makes the checks of an encrypted record that need no decryption; see
    /// [`admission`].
    #[verifier::rlimit(30)]
    pub fn screen<H: RecordHandler>(record: Record, decrypt: &H) -> (r: Result<
        Option<Admitted>,
        Error,
    >)
        requires
            within_limits(decrypt.cid(), decrypt.nonce_len(), decrypt.overhead()),
            record.buffer@.len() > 0,
            record.buffer@[0] == 25 ==> record.buffer@.len() >= 11 + cid_len_of(*decrypt, 25),
        ensures
            match admission(*decrypt, record@) {
                Admission::Drop => r == Ok::<Option<Admitted>, Error>(None),
                Admission::Malformed => r == Err::<Option<Admitted>, Error>(
                    Error::ParseError(ErrorKind::Fail),
                ),
                d => r matches Ok(Some(a)) && a.admission() == d,
            },
    {
        let ghost rec = record@;
        let is_cid_record: bool = record.buffer[0] == ContentType::Tls12Cid.as_u8();
        let expected_len: Option<usize> = match decrypt.our_cid() {
            Some(c) => Some(c.len()),
            None => None,
        };
        let our_cid_len: usize = match expected_len {
            Some(n) => if is_cid_record {
                n
            } else {
                0
            },
            None => 0,
        };
        // RFC 9146 §3: a record without `tls12_cid` is invalid where a Connection ID
        // is expected.
        if !is_cid_record && expected_len.is_some() {
            return Ok(None);
        }
        let sequence: Sequence = record.parsed.record.sequence;
        // Reads the replay window only.
        if !decrypt.replay_check(sequence) {
            return Ok(None);
        }
        // RFC 9146 §5.3: the Connection ID on the wire must be the negotiated one.
        let mut wire_cid = arrays::cid_new();
        if is_cid_record {
            match decrypt.inbound_cid_active() {
                Some(expected_cid) => {
                    if our_cid_len > 0 {
                        let _ = arrays::cid_extend(
                            &mut wire_cid,
                            &record.buffer.as_slice()[11..11 + our_cid_len],
                        );
                        assert(arrays::cid_items(wire_cid) =~= rec.buffer.subrange(
                            11,
                            11 + our_cid_len as int,
                        ));
                        if !constant_time::ct_eq(arrays::cid_slice(&wire_cid), expected_cid) {
                            return Ok(None);
                        }
                    }
                },
                None => return Ok(None),
            }
            assert(arrays::cid_items(wire_cid) =~= rec.buffer.subrange(11, 11 + our_cid_len as int));
        }
        // Without the Connection ID the header has the standard 13-byte layout.
        let mut buffer: Buf = record.buffer;
        if is_cid_record {
            let mut rest = buffer.split_off(11 + our_cid_len);
            buffer.truncate(11);
            buffer.append(&mut rest);
            assert(buffer@ =~= without_cid(rec.buffer, our_cid_len as nat));
        }
        assert(buffer.len() == buffer@.len());
        let dtls = match DTLSRecord::parse(buffer.as_slice(), 0, 0) {
            Ok((_, dtls)) => dtls,
            Err(_) => return Err(Error::ParseError(ErrorKind::Fail)),
        };
        let aead_overhead: usize = decrypt.aead_overhead();
        // A shorter record cannot hold a nonce and a tag.
        if (dtls.length as usize) < aead_overhead {
            return Ok(None);
        }
        let inner_len: usize = dtls.length as usize - aead_overhead;
        if inner_len > super::DTLS12_MAX_PLAINTEXT_LEN {
            return Ok(None);
        }
        Ok(
            Some(
                Admitted {
                    is_cid_record,
                    sequence,
                    buffer,
                    dtls,
                    wire_cid,
                    inner_plaintext_len: inner_len as u16,
                },
            ),
        )
    }

    /// Decrypts a record, with or without a Connection ID, and reads the plaintext.
    ///
    /// Invalid records are silently discarded (RFC 6347 §4.1.2.7). The replay window
    /// is updated only after decryption succeeded (RFC 6347 §4.1.2.6) and, for a
    /// record with a Connection ID, only where its inner content type is valid: a
    /// dropped record does not use up its sequence number.
    ///
    /// Decryption is in place: the record keeps its length, less the Connection ID.
    #[verifier::rlimit(30)]
    pub fn decrypt_record<H: RecordHandler>(
        record: Record,
        decrypt: &mut H,
        cs: Option<Dtls12CipherSuite>,
    ) -> (r: Result<Option<Record>, Error>)
        requires
            within_limits(old(decrypt).cid(), old(decrypt).nonce_len(), old(decrypt).overhead()),
            record.buffer@.len() > 0,
            record.buffer@[0] == 25 ==> record.buffer@.len() >= 11 + cid_len_of(*old(decrypt), 25),
        ensures
            within_limits(
                final(decrypt).cid(),
                final(decrypt).nonce_len(),
                final(decrypt).overhead(),
            ),
            framing::cid_len(final(decrypt).cid()) <= framing::cid_len(old(decrypt).cid()),
            decrypt_run(*old(decrypt), record@, *final(decrypt), viewed_option(r)),
            r matches Ok(Some(opened)) ==> opened@.buffer.len() == record@.buffer.len()
                - cid_len_of(*old(decrypt), record@.buffer[0]),
    {
        let ghost pre = *decrypt;
        let ghost rec = record@;
        let admitted = match Record::screen(record, decrypt) {
            Ok(Some(admitted)) => admitted,
            Ok(None) => return Ok(None),
            Err(e) => return Err(e),
        };
        let is_cid_record: bool = admitted.is_cid_record;
        let sequence: Sequence = admitted.sequence;
        let mut buffer: Buf = admitted.buffer;
        let explicit_nonce_len: usize = decrypt.explicit_nonce_len();
        let (aad, nonce) = if is_cid_record {
            decrypt.decryption_aad_and_nonce_cid(
                &admitted.dtls,
                buffer.as_slice(),
                arrays::cid_slice(&admitted.wire_cid),
                admitted.inner_plaintext_len,
            )
        } else {
            decrypt.decryption_aad_and_nonce(&admitted.dtls, buffer.as_slice())
        };
        let ciph: usize = DTLSRecord::HEADER_LEN + explicit_nonce_len;
        let ghost whole = buffer@;
        let mut ciphertext = TmpBuf::new(buffer.split_off(ciph));
        let result = decrypt.decrypt_data(&mut ciphertext, aad, nonce);
        let ghost mid = *decrypt;
        let ghost out = Opened { text: ciphertext.text(), tail: ciphertext.tail(), result };
        proof {
            assert(buffer@ =~= whole.take(ciph as int));
            assert(pre.decrypt_step(whole.skip(ciph as int), aad@, nonce.0@, mid, out));
        }
        match result {
            Ok(()) => {},
            Err(Error::CryptoError(_)) => return Ok(None),
            Err(e) => return Err(e),
        }
        let new_len: usize = ciphertext.len();
        // Checked before the replay window is updated.
        let inner: Option<(u8, usize)> = if is_cid_record {
            match unwrap_inner(ciphertext.as_slice()) {
                Some(v) => Some(v),
                None => return Ok(None),
            }
        } else {
            None
        };
        decrypt.replay_update(sequence);
        let mut backing = ciphertext.into_backing();
        buffer.append(&mut backing);
        assert(buffer@ =~= whole.take(ciph as int) + out.text + out.tail);
        match reparse(buffer, new_len, inner, cs, explicit_nonce_len) {
            Ok(record) => Ok(Some(record)),
            Err(e) => Err(e),
        }
    }
}

/// Parsing the bytes `s` of one record leads from `pre` to `post` and `r`.
///
/// What does not parse is dropped. A record of epoch 0, and any record before the
/// peer's encryption is enabled, is handed on as it is; but a record with a
/// Connection ID other than the expected one is dropped. All others are decrypted.
#[verifier::opaque]
pub open spec fn record_run<H: RecordHandler>(
    pre: H,
    s: Seq<u8>,
    post: H,
    r: Result<Option<RecordView>, Error>,
) -> bool {
    let is_cid = s[0] == 25;
    let cid_len = cid_len_of(pre, s[0]);
    match parsed_in(
        if is_cid {
            without_cid(s, cid_len)
        } else {
            s
        },
        0,
    ) {
        Err(_) => post == pre && r == Ok::<Option<RecordView>, Error>(None),
        Ok((record, handshakes)) => {
            let rec = RecordView { buffer: s, record, handshakes, handled: false };
            if record.sequence.epoch == 0 || !pre.encrypted() {
                &&& post == pre
                &&& r == Ok::<Option<RecordView>, Error>(
                    if is_cid && record.sequence.epoch != 0 && cid_len > 0 && Some(
                        s.subrange(11, 11 + cid_len as int),
                    ) != pre.cid() {
                        None
                    } else {
                        Some(rec)
                    },
                )
            } else {
                decrypt_run(pre, rec, post, r)
            }
        },
    }
}

impl Record {
    /// The first parse pass only parses the DTLSRecord header which is unencrypted.
    ///
    /// A record with a Connection ID keeps its bytes as they came, so that it can be
    /// parsed again once the peer's encryption is enabled.
    pub fn parse<H: RecordHandler>(
        record_slice: &[u8],
        decrypt: &mut H,
        cs: Option<Dtls12CipherSuite>,
    ) -> (r: Result<Option<Record>, Error>)
        requires
            within_limits(old(decrypt).cid(), old(decrypt).nonce_len(), old(decrypt).overhead()),
            record_slice@.len() > 0,
            record_slice@[0] == 25 ==> record_slice@.len() >= 11 + cid_len_of(*old(decrypt), 25),
        ensures
            within_limits(
                final(decrypt).cid(),
                final(decrypt).nonce_len(),
                final(decrypt).overhead(),
            ),
            framing::cid_len(final(decrypt).cid()) <= framing::cid_len(old(decrypt).cid()),
            record_run(*old(decrypt), record_slice@, *final(decrypt), viewed_option(r)),
    {
        proof {
            reveal(record_run);
        }
        let is_cid_record: bool = record_slice[0] == ContentType::Tls12Cid.as_u8();
        let our_cid_len: usize = if is_cid_record {
            match decrypt.our_cid() {
                Some(c) => c.len(),
                None => 0,
            }
        } else {
            0
        };
        let buffer: Buf = vstd::slice::slice_to_vec(record_slice);
        // A record with a Connection ID is parsed without it.
        let outcome = if is_cid_record {
            let mut stripped: Buf = Vec::new();
            stripped.extend_from_slice(&record_slice[0..11]);
            stripped.extend_from_slice(&record_slice[11 + our_cid_len..record_slice.len()]);
            assert(stripped@ =~= without_cid(record_slice@, our_cid_len as nat));
            ParsedRecord::parse(stripped.as_slice(), cs, 0)
        } else {
            ParsedRecord::parse(record_slice, cs, 0)
        };
        let parsed = match outcome {
            Ok(parsed) => parsed,
            // RFC 6347 §4.1.2.7: invalid records are silently discarded.
            Err(_) => return Ok(None),
        };
        let record = Record { buffer, parsed: Box::new(parsed) };
        // The epoch alone does not tell: with packet loss, records of epoch 1 can come
        // before they can be decrypted. An epoch-0 `tls12_cid` record does not get
        // here, its content type does not parse.
        let is_epoch_0: bool = record.parsed.record.sequence.epoch == 0;
        if is_epoch_0 || !decrypt.is_peer_encryption_enabled() {
            // The record waits for its decryption. A record with a Connection ID that
            // is not ours is not worth a place in that queue.
            if is_cid_record && !is_epoch_0 && our_cid_len > 0 {
                match decrypt.our_cid() {
                    Some(expected) => {
                        let wire = &record.buffer.as_slice()[11..11 + our_cid_len];
                        if !constant_time::ct_eq(wire, expected) {
                            return Ok(None);
                        }
                    },
                    None => {},
                }
            }
            return Ok(Some(record));
        }
        Record::decrypt_record(record, decrypt, cs)
    }

    pub fn record(&self) -> (r: &DTLSRecord)
        ensures
            *r == self@.record,
    {
        &self.parsed.record
    }

    pub fn handshakes(&self) -> (s: &[Handshake])
        ensures
            s@ == self@.handshakes,
    {
        arrays::handshake_slice(&self.parsed.handshakes)
    }

    pub fn first_handshake(&self) -> (r: Option<&Handshake>)
        ensures
            r == (if self@.handshakes.len() == 0 {
                None::<&Handshake>
            } else {
                Some(&self@.handshakes[0])
            }),
    {
        arrays::handshake_slice(&self.parsed.handshakes).first()
    }

    /// Whether the record needs no further work: by its own mark or, for a record with
    /// handshake fragments, by the marks of all of them.
    pub fn is_handled(&self) -> (b: bool)
        ensures
            b == handled_view(self@),
    {
        let handshakes = arrays::handshake_slice(&self.parsed.handshakes);
        if handshakes.len() == 0 {
            return self.parsed.handled;
        }
        let mut i: usize = 0;
        while i < handshakes.len()
            invariant
                i <= handshakes@.len(),
                handshakes@ == self@.handshakes,
                forall|k: int| 0 <= k < i ==> handshakes@[k].handled,
            decreases handshakes@.len() - i,
        {
            if !handshakes[i].is_handled() {
                return false;
            }
            i = i + 1;
        }
        true
    }

    /// Marks a record without handshake fragments as done. The fragments of other
    /// records are marked one by one, as they are put together.
    pub fn set_handled(&mut self)
        requires
            old(self)@.handshakes.len() == 0,
        ensures
            final(self)@ == (RecordView { handled: true, ..old(self)@ }),
    {
        self.parsed.handled = true;
    }

    /// Marks one handshake fragment as done.
    pub fn set_handshake_handled(&mut self, index: usize)
        requires
            index < old(self)@.handshakes.len(),
        ensures
            final(self)@ == (RecordView {
                handshakes: old(self)@.handshakes.update(
                    index as int,
                    (Handshake { handled: true, ..old(self)@.handshakes[index as int] }),
                ),
                ..old(self)@
            }),
    {
        let handshakes = arrays::handshake_mut_slice(&mut self.parsed.handshakes);
        handshakes[index].set_handled();
    }

    pub fn buffer(&self) -> (s: &[u8])
        ensures
            s@ == self@.buffer,
    {
        self.buffer.as_slice()
    }

    pub fn into_buffer(self) -> (b: Buf)
        ensures
            b@ == self@.buffer,
    {
        self.buffer
    }
}

/// A record is done by its own mark or, where it holds handshake fragments, by the
/// marks of all of them.
pub open spec fn handled_view(v: RecordView) -> bool {
    if v.handshakes.len() == 0 {
        v.handled
    } else {
        forall|i: int| 0 <= i < v.handshakes.len() ==> (#[trigger] v.handshakes[i]).handled
    }
}

/// Records by their views.
pub open spec fn views(s: Seq<Record>) -> Seq<RecordView> {
    s.map_values(|r: Record| r@)
}

/// Classifying the records `todo`, one after the other, when `kept` were kept before
/// them, leads from `pre` to `post` and `r`. An error ends it.
#[verifier::opaque]
pub open spec fn classify_run<H: RecordHandler>(
    pre: H,
    todo: Seq<RecordView>,
    kept: Seq<RecordView>,
    post: H,
    r: Result<Seq<RecordView>, Error>,
) -> bool
    decreases todo.len(), 0int,
{
    if todo.len() == 0 {
        post == pre && r == Ok::<Seq<RecordView>, Error>(kept)
    } else {
        exists|mid: H, out: Result<Option<RecordView>, Error>|
            {
                &&& #[trigger] pre.classify_step(todo[0], mid, out)
                &&& classify_next(mid, out, todo.skip(1), kept, post, r)
            }
    }
}

/// After the classification of a record led to `mid` and `out`, classifying the `rest`
/// leads to `post` and `r`.
#[verifier::opaque]
pub open spec fn classify_next<H: RecordHandler>(
    mid: H,
    out: Result<Option<RecordView>, Error>,
    rest: Seq<RecordView>,
    kept: Seq<RecordView>,
    post: H,
    r: Result<Seq<RecordView>, Error>,
) -> bool
    decreases rest.len(), 1int,
{
    match out {
        Ok(Some(v)) => classify_run(mid, rest, kept.push(v), post, r),
        Ok(None) => classify_run(mid, rest, kept, post, r),
        Err(e) => post == mid && r == Err::<Seq<RecordView>, Error>(e),
    }
}

/// Parsing the datagram `p`, when `found` were found before it, leads from `pre` to
/// `post` and `r`. Records with a Connection ID are framed by `cid_len`, its length when
/// the datagram came.
///
/// The records are framed and parsed one after the other, at most 8 of them, and
/// then classified. A record that is dropped does not end the datagram. A stray
/// `tls12_cid` record is passed over where the frames behind it can still be found;
/// a malformed one ends the datagram without an error.
#[verifier::opaque]
pub open spec fn parse_run<H: RecordHandler>(
    pre: H,
    cid_len: nat,
    p: Seq<u8>,
    found: Seq<RecordView>,
    post: H,
    r: Result<Seq<RecordView>, Error>,
) -> bool
    decreases p.len(), 0int,
{
    if p.len() == 0 {
        classify_run(pre, found, Seq::empty(), post, r)
    } else {
        match framing::frame_of(p, framing::framed_cid(pre.cid(), cid_len)) {
            Frame::Discard => classify_run(pre, found, Seq::empty(), post, r),
            Frame::Incomplete => post == pre && r == Err::<Seq<RecordView>, Error>(
                Error::ParseIncomplete,
            ),
            Frame::Skip(n) => 0 < n <= p.len() && parse_run(
                pre,
                cid_len,
                p.skip(n as int),
                found,
                post,
                r,
            ),
            Frame::Record(n) => 0 < n <= p.len() && exists|
                mid: H,
                out: Result<Option<RecordView>, Error>,
            |
                {
                    &&& #[trigger] record_run(pre, p.take(n as int), mid, out)
                    &&& parse_next(mid, cid_len, out, p.skip(n as int), found, post, r)
                },
        }
    }
}

/// After a record led to `mid` and `out`, parsing the `rest` of its datagram leads to
/// `post` and `r`. An error ends it, and so does a ninth record.
#[verifier::opaque]
pub open spec fn parse_next<H: RecordHandler>(
    mid: H,
    cid_len: nat,
    out: Result<Option<RecordView>, Error>,
    rest: Seq<u8>,
    found: Seq<RecordView>,
    post: H,
    r: Result<Seq<RecordView>, Error>,
) -> bool
    decreases rest.len(), 1int,
{
    match out {
        Ok(Some(v)) => if found.len() == 8 {
            post == mid && r == Err::<Seq<RecordView>, Error>(Error::TooManyRecords)
        } else {
            parse_run(mid, cid_len, rest, found.push(v), post, r)
        },
        Ok(None) => parse_run(mid, cid_len, rest, found, post, r),
        Err(e) => post == mid && r == Err::<Seq<RecordView>, Error>(e),
    }
}

/// No record is left to classify.
proof fn lemma_classify_end<H: RecordHandler>(pre: H, kept: Seq<RecordView>)
    ensures
        classify_run(pre, Seq::empty(), kept, pre, Ok(kept)),
{
    reveal(classify_run);
    reveal(classify_next);
}

/// One record is classified, and then the others.
proof fn lemma_classify_step<H: RecordHandler>(
    pre: H,
    todo: Seq<RecordView>,
    kept: Seq<RecordView>,
    mid: H,
    out: Result<Option<RecordView>, Error>,
    post: H,
    r: Result<Seq<RecordView>, Error>,
)
    requires
        todo.len() > 0,
        pre.classify_step(todo[0], mid, out),
        classify_next(mid, out, todo.skip(1), kept, post, r),
    ensures
        classify_run(pre, todo, kept, post, r),
{
    reveal(classify_run);
    reveal(classify_next);
}

/// What follows the classification of a record, by its outcome.
pub proof fn lemma_classify_next<H: RecordHandler>(
    mid: H,
    out: Result<Option<RecordView>, Error>,
    rest: Seq<RecordView>,
    kept: Seq<RecordView>,
    post: H,
    r: Result<Seq<RecordView>, Error>,
)
    ensures
        classify_next(mid, out, rest, kept, post, r) == match out {
            Ok(Some(v)) => classify_run(mid, rest, kept.push(v), post, r),
            Ok(None) => classify_run(mid, rest, kept, post, r),
            Err(e) => post == mid && r == Err::<Seq<RecordView>, Error>(e),
        },
{
    reveal(classify_run);
    reveal(classify_next);
}

/// The datagram ends, or cannot be framed any further.
pub proof fn lemma_parse_end<H: RecordHandler>(
    pre: H,
    cid_len: nat,
    p: Seq<u8>,
    found: Seq<RecordView>,
    post: H,
    r: Result<Seq<RecordView>, Error>,
)
    requires
        p.len() == 0 || framing::frame_of(p, framing::framed_cid(pre.cid(), cid_len))
            == Frame::Discard,
    ensures
        parse_run(pre, cid_len, p, found, post, r) == classify_run(
            pre,
            found,
            Seq::empty(),
            post,
            r,
        ),
{
    reveal(parse_run);
    reveal(parse_next);
}

/// The datagram is cut short.
proof fn lemma_parse_incomplete<H: RecordHandler>(
    pre: H,
    cid_len: nat,
    p: Seq<u8>,
    found: Seq<RecordView>,
)
    requires
        p.len() > 0,
        framing::frame_of(p, framing::framed_cid(pre.cid(), cid_len)) == Frame::Incomplete,
    ensures
        parse_run(pre, cid_len, p, found, pre, Err(Error::ParseIncomplete)),
{
    reveal(parse_run);
    reveal(parse_next);
}

/// A record is passed over.
pub proof fn lemma_parse_skip<H: RecordHandler>(
    pre: H,
    cid_len: nat,
    p: Seq<u8>,
    n: usize,
    found: Seq<RecordView>,
    post: H,
    r: Result<Seq<RecordView>, Error>,
)
    requires
        0 < n <= p.len(),
        framing::frame_of(p, framing::framed_cid(pre.cid(), cid_len)) == Frame::Skip(n),
    ensures
        parse_run(pre, cid_len, p, found, post, r) == parse_run(
            pre,
            cid_len,
            p.skip(n as int),
            found,
            post,
            r,
        ),
{
    reveal(parse_run);
    reveal(parse_next);
}

/// A record is parsed, and then the rest of the datagram.
pub proof fn lemma_parse_record<H: RecordHandler>(
    pre: H,
    cid_len: nat,
    p: Seq<u8>,
    n: usize,
    mid: H,
    out: Result<Option<RecordView>, Error>,
    found: Seq<RecordView>,
    post: H,
    r: Result<Seq<RecordView>, Error>,
)
    requires
        0 < n <= p.len(),
        framing::frame_of(p, framing::framed_cid(pre.cid(), cid_len)) == Frame::Record(n),
        record_run(pre, p.take(n as int), mid, out),
        parse_next(mid, cid_len, out, p.skip(n as int), found, post, r),
    ensures
        parse_run(pre, cid_len, p, found, post, r),
{
    reveal(parse_run);
    reveal(parse_next);
}

/// A datagram that starts with a record is parsed by some outcome of that record.
pub proof fn lemma_parse_by_record<H: RecordHandler>(
    pre: H,
    cid_len: nat,
    p: Seq<u8>,
    n: usize,
    found: Seq<RecordView>,
    post: H,
    r: Result<Seq<RecordView>, Error>,
)
    requires
        0 < n <= p.len(),
        framing::frame_of(p, framing::framed_cid(pre.cid(), cid_len)) == Frame::Record(n),
    ensures
        parse_run(pre, cid_len, p, found, post, r) == exists|
            mid: H,
            out: Result<Option<RecordView>, Error>,
        |
            {
                &&& #[trigger] record_run(pre, p.take(n as int), mid, out)
                &&& parse_next(mid, cid_len, out, p.skip(n as int), found, post, r)
            },
{
    reveal(parse_run);
    reveal(parse_next);
}

/// What follows a record in its datagram, by its outcome.
pub proof fn lemma_parse_next<H: RecordHandler>(
    mid: H,
    cid_len: nat,
    out: Result<Option<RecordView>, Error>,
    rest: Seq<u8>,
    found: Seq<RecordView>,
    post: H,
    r: Result<Seq<RecordView>, Error>,
)
    ensures
        parse_next(mid, cid_len, out, rest, found, post, r) == match out {
            Ok(Some(v)) => if found.len() == 8 {
                post == mid && r == Err::<Seq<RecordView>, Error>(Error::TooManyRecords)
            } else {
                parse_run(mid, cid_len, rest, found.push(v), post, r)
            },
            Ok(None) => parse_run(mid, cid_len, rest, found, post, r),
            Err(e) => post == mid && r == Err::<Seq<RecordView>, Error>(e),
        },
{
    reveal(parse_run);
    reveal(parse_next);
}

/// A number of records parsed from a single UDP packet.
pub struct Records {
    pub records: ArrayVec<Record, 8>,
}

impl View for Records {
    type V = Seq<RecordView>;

    open spec fn view(&self) -> Seq<RecordView> {
        views(arrays::record_items(self.records))
    }
}

/// What parsing a datagram returned, with the records by their views.
pub open spec fn viewed_records(r: Result<Records, Error>) -> Result<Seq<RecordView>, Error> {
    match r {
        Ok(records) => Ok(records@),
        Err(e) => Err(e),
    }
}

/// Hands the records to the association, one after the other, and keeps those that
/// it gives back; see [`classify_run`].
#[verifier::rlimit(30)]
fn classify_all<H: RecordHandler>(parsed: ArrayVec<Record, 8>, decrypt: &mut H) -> (r: Result<
    Records,
    Error,
>)
    requires
        arrays::record_items(parsed).len() <= 8,
    ensures
        classify_run(
            *old(decrypt),
            views(arrays::record_items(parsed)),
            Seq::empty(),
            *final(decrypt),
            viewed_records(r),
        ),
{
    let ghost start = *decrypt;
    let ghost all = views(arrays::record_items(parsed));
    let mut todo = parsed;
    let mut records = arrays::record_new();
    assert(views(arrays::record_items(records)) =~= Seq::empty());
    loop
        invariant_except_break
            arrays::record_items(records).len() + arrays::record_items(todo).len() <= 8,
            forall|post: H, r: Result<Seq<RecordView>, Error>| #[trigger]
                classify_run(
                    *decrypt,
                    views(arrays::record_items(todo)),
                    views(arrays::record_items(records)),
                    post,
                    r,
                ) ==> classify_run(start, all, Seq::empty(), post, r),
        invariant
            start == *old(decrypt),
            all == views(arrays::record_items(parsed)),
        ensures
            classify_run(start, all, Seq::empty(), *decrypt, Ok(views(arrays::record_items(records)))),
        decreases arrays::record_items(todo).len(),
    {
        let ghost before = *decrypt;
        let ghost rest = views(arrays::record_items(todo));
        let ghost kept = views(arrays::record_items(records));
        match arrays::record_pop_at(&mut todo, 0) {
            Some(record) => {
                assert(rest[0] == record@);
                assert(views(arrays::record_items(todo)) =~= rest.skip(1));
                let outcome = decrypt.classify_record(record);
                let ghost out = viewed_option(outcome);
                assert(before.classify_step(rest[0], *decrypt, out));
                match outcome {
                    Ok(Some(record)) => {
                        assert(kept.push(record@) =~= views(
                            arrays::record_items(records).push(record),
                        ));
                        let _ = arrays::record_push(&mut records, record);
                    },
                    Ok(None) => {},
                    Err(e) => {
                        proof {
                            let tail = rest.skip(1);
                            lemma_classify_next(*decrypt, out, tail, kept, *decrypt, Err(e));
                            lemma_classify_step(before, rest, kept, *decrypt, out, *decrypt, Err(e));
                        }
                        return Err(e);
                    },
                }
                proof {
                    let rest2 = views(arrays::record_items(todo));
                    let kept2 = views(arrays::record_items(records));
                    assert forall|post: H, r: Result<Seq<RecordView>, Error>| #[trigger]
                        classify_run(*decrypt, rest2, kept2, post, r) implies classify_run(
                        start,
                        all,
                        Seq::empty(),
                        post,
                        r,
                    ) by {
                        lemma_classify_next(*decrypt, out, rest2, kept, post, r);
                        lemma_classify_step(before, rest, kept, *decrypt, out, post, r);
                    }
                }
            },
            None => {
                proof {
                    lemma_classify_end(before, kept);
                    assert(rest =~= Seq::empty());
                }
                break;
            },
        }
    }
    Ok(Records { records })
}

impl Records {
    /// Parses the records of a datagram; see [`parse_run`].
    ///
    /// The length of the Connection ID is read once, before the first record: all
    /// records of the datagram are framed by it.
    #[verifier::rlimit(30)]
    pub fn parse<H: RecordHandler>(
        packet: &[u8],
        decrypt: &mut H,
        cs: Option<Dtls12CipherSuite>,
    ) -> (r: Result<Records, Error>)
        requires
            within_limits(old(decrypt).cid(), old(decrypt).nonce_len(), old(decrypt).overhead()),
        ensures
            parse_run(
                *old(decrypt),
                framing::cid_len(old(decrypt).cid()),
                packet@,
                Seq::empty(),
                *final(decrypt),
                viewed_records(r),
            ),
    {
        let ghost start = *decrypt;
        let our_cid_len: usize = match decrypt.our_cid() {
            Some(c) => c.len(),
            None => 0,
        };
        let ghost cid_len = our_cid_len as nat;
        let mut rest: &[u8] = packet;
        let mut parsed = arrays::record_new();
        assert(views(arrays::record_items(parsed)) =~= Seq::empty());
        loop
            invariant_except_break
                forall|post: H, r: Result<Seq<RecordView>, Error>| #[trigger]
                    parse_run(
                        *decrypt,
                        cid_len,
                        rest@,
                        views(arrays::record_items(parsed)),
                        post,
                        r,
                    ) ==> parse_run(start, cid_len, packet@, Seq::empty(), post, r),
            invariant
                start == *old(decrypt),
                cid_len == our_cid_len,
                cid_len == framing::cid_len(start.cid()),
                framing::cid_len(decrypt.cid()) <= cid_len,
                within_limits(decrypt.cid(), decrypt.nonce_len(), decrypt.overhead()),
                arrays::record_items(parsed).len() <= 8,
            ensures
                forall|post: H, r: Result<Seq<RecordView>, Error>| #[trigger]
                    classify_run(
                        *decrypt,
                        views(arrays::record_items(parsed)),
                        Seq::empty(),
                        post,
                        r,
                    ) ==> parse_run(start, cid_len, packet@, Seq::empty(), post, r),
            decreases rest@.len(),
        {
            let ghost before = *decrypt;
            let ghost p = rest@;
            let ghost found = views(arrays::record_items(parsed));
            if rest.len() == 0 {
                proof {
                    assert forall|post: H, r: Result<Seq<RecordView>, Error>| #[trigger]
                        classify_run(before, found, Seq::empty(), post, r) implies parse_run(
                        start,
                        cid_len,
                        packet@,
                        Seq::empty(),
                        post,
                        r,
                    ) by {
                        lemma_parse_end(before, cid_len, p, found, post, r);
                    }
                }
                break;
            }
            let framed: Option<usize> = match decrypt.our_cid() {
                Some(_) => Some(our_cid_len),
                None => None,
            };
            match framing::next_frame(rest, framed) {
                Frame::Discard => {
                    proof {
                        assert forall|post: H, r: Result<Seq<RecordView>, Error>| #[trigger]
                            classify_run(before, found, Seq::empty(), post, r) implies parse_run(
                            start,
                            cid_len,
                            packet@,
                            Seq::empty(),
                            post,
                            r,
                        ) by {
                            lemma_parse_end(before, cid_len, p, found, post, r);
                        }
                    }
                    break;
                },
                Frame::Incomplete => {
                    proof {
                        lemma_parse_incomplete(before, cid_len, p, found);
                    }
                    return Err(Error::ParseIncomplete);
                },
                Frame::Skip(n) => {
                    rest = &rest[n..rest.len()];
                    assert(rest@ =~= p.skip(n as int));
                    proof {
                        assert forall|post: H, r: Result<Seq<RecordView>, Error>| #[trigger]
                            parse_run(before, cid_len, rest@, found, post, r) implies parse_run(
                            start,
                            cid_len,
                            packet@,
                            Seq::empty(),
                            post,
                            r,
                        ) by {
                            lemma_parse_skip(before, cid_len, p, n, found, post, r);
                        }
                    }
                },
                Frame::Record(n) => {
                    let record_slice = &rest[0..n];
                    assert(record_slice@ =~= p.take(n as int));
                    let outcome = Record::parse(record_slice, decrypt, cs);
                    let ghost out = viewed_option(outcome);
                    let ghost tail = p.skip(n as int);
                    assert(record_run(before, p.take(n as int), *decrypt, out));
                    match outcome {
                        Ok(Some(record)) => {
                            assert(found.push(record@) =~= views(
                                arrays::record_items(parsed).push(record),
                            ));
                            if !arrays::record_push(&mut parsed, record) {
                                proof {
                                    let now = *decrypt;
                                    let e = Error::TooManyRecords;
                                    lemma_parse_next(now, cid_len, out, tail, found, now, Err(e));
                                    lemma_parse_record(
                                        before,
                                        cid_len,
                                        p,
                                        n,
                                        now,
                                        out,
                                        found,
                                        now,
                                        Err(e),
                                    );
                                }
                                return Err(Error::TooManyRecords);
                            }
                        },
                        Ok(None) => {},
                        Err(e) => {
                            proof {
                                let now = *decrypt;
                                lemma_parse_next(now, cid_len, out, tail, found, now, Err(e));
                                lemma_parse_record(
                                    before,
                                    cid_len,
                                    p,
                                    n,
                                    now,
                                    out,
                                    found,
                                    now,
                                    Err(e),
                                );
                            }
                            return Err(e);
                        },
                    }
                    rest = &rest[n..rest.len()];
                    assert(rest@ =~= p.skip(n as int));
                    proof {
                        let now = *decrypt;
                        let found2 = views(arrays::record_items(parsed));
                        assert forall|post: H, r: Result<Seq<RecordView>, Error>| #[trigger]
                            parse_run(now, cid_len, rest@, found2, post, r) implies parse_run(
                            start,
                            cid_len,
                            packet@,
                            Seq::empty(),
                            post,
                            r,
                        ) by {
                            lemma_parse_next(now, cid_len, out, tail, found, post, r);
                            lemma_parse_record(before, cid_len, p, n, now, out, found, post, r);
                        }
                    }
                },
            }
        }
        classify_all(parsed, decrypt)
    }
}

impl std::ops::Deref for Records {
    type Target = [Record];

    fn deref(&self) -> (s: &[Record])
        ensures
            views(s@) == self@,
            s@ == arrays::record_items(self.records),
    {
        arrays::record_slice(&self.records)
    }
}

/// Holds the parsed result of a UDP packet: one record at least.
pub struct Incoming {
    records: Box<Records>,
}

impl View for Incoming {
    type V = Seq<RecordView>;

    closed spec fn view(&self) -> Seq<RecordView> {
        self.records@
    }
}

/// What parsing a packet returned, with the records by their views; a packet of which
/// no record is left counts as no records.
pub open spec fn viewed_incoming(r: Result<Option<Incoming>, Error>) -> Result<
    Seq<RecordView>,
    Error,
> {
    match r {
        Ok(Some(incoming)) => Ok(incoming@),
        Ok(None) => Ok(Seq::empty()),
        Err(e) => Err(e),
    }
}

impl Incoming {
    #[verifier::type_invariant]
    spec fn not_empty(self) -> bool {
        arrays::record_items(self.records.records).len() > 0
    }

    pub fn records(&self) -> (r: &Records)
        ensures
            r@ == self@,
            r@.len() > 0,
    {
        proof {
            use_type_invariant(self);
        }
        &self.records
    }

    pub fn first(&self) -> (r: &Record)
        ensures
            self@.len() > 0,
            r@ == self@[0],
    {
        proof {
            use_type_invariant(self);
        }
        &arrays::record_slice(&self.records.records)[0]
    }

    /// The records, in the order of the packet.
    pub fn into_records(self) -> (v: Vec<Record>)
        ensures
            views(v@) == self@,
    {
        let ghost all = self@;
        let mut todo = self.records.records;
        let mut v: Vec<Record> = Vec::new();
        assert(views(v@) + views(arrays::record_items(todo)) =~= all);
        loop
            invariant_except_break
                views(v@) + views(arrays::record_items(todo)) == all,
            ensures
                views(v@) == all,
            decreases arrays::record_items(todo).len(),
        {
            let ghost before = arrays::record_items(todo);
            match arrays::record_pop_at(&mut todo, 0) {
                Some(record) => {
                    assert(views(v@.push(record)) + views(before.remove(0)) =~= views(v@) + views(
                        before,
                    ));
                    v.push(record);
                },
                None => {
                    assert(views(v@) + views(before) =~= views(v@));
                    break;
                },
            }
        }
        v
    }

    /// Parse an incoming UDP packet
    ///
    /// * `packet` is the data from the UDP socket.
    /// * `decrypt` provides the decryption operations for encrypted records.
    /// * `cs` is the negotiated cipher suite, if any.
    ///
    /// Will surface parser errors. `None` where no record of the packet is left, as
    /// for a replayed one.
    pub fn parse_packet<H: RecordHandler>(
        packet: &[u8],
        decrypt: &mut H,
        cs: Option<Dtls12CipherSuite>,
    ) -> (r: Result<Option<Incoming>, Error>)
        requires
            within_limits(old(decrypt).cid(), old(decrypt).nonce_len(), old(decrypt).overhead()),
        ensures
            parse_run(
                *old(decrypt),
                framing::cid_len(old(decrypt).cid()),
                packet@,
                Seq::empty(),
                *final(decrypt),
                viewed_incoming(r),
            ),
            r matches Ok(Some(incoming)) ==> incoming@.len() > 0,
    {
        let records = match Records::parse(packet, decrypt, cs) {
            Ok(records) => records,
            Err(e) => return Err(e),
        };
        if arrays::record_slice(&records.records).len() == 0 {
            assert(records@ =~= Seq::empty());
            return Ok(None);
        }
        Ok(Some(Incoming { records: Box::new(records) }))
    }
}

} // verus!
