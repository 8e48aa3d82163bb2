use dimpl::buffer::{Buf, TmpBuf};
use dimpl::crypto::{Aad, Nonce};
use dimpl::dtls12::framing::{next_frame, Frame};
use dimpl::dtls12::incoming::{
    reparse, unwrap_inner, Incoming, ParsedRecord, Record, RecordHandler,
};
use dimpl::dtls12::message::{ContentType, DTLSRecord, Sequence};
use dimpl::dtls12::DTLS12_MAX_PLAINTEXT_LEN;
use dimpl::error::ErrorKind;
use dimpl::Error;


#[derive(Default)]
struct TestHandler {
    classify_calls: usize,
    dropped_alerts: usize,
}

impl RecordHandler for TestHandler {
    fn classify_record(&mut self, record: Record) -> Result<Option<Record>, Error> {
        self.classify_calls += 1;
        if record.record().content_type == ContentType::Alert {
            self.dropped_alerts += 1;
            return Ok(None);
        }
        Ok(Some(record))
    }

    fn is_peer_encryption_enabled(&self) -> bool {
        false
    }

    fn replay_check(&self, _seq: Sequence) -> bool {
        panic!("replay_check should not be called for plaintext tests");
    }

    fn replay_update(&mut self, _seq: Sequence) {
        panic!("replay_update should not be called for plaintext tests");
    }

    fn decryption_aad_and_nonce(&self, _dtls: &DTLSRecord, _buf: &[u8]) -> (Aad, Nonce) {
        panic!("decryption_aad_and_nonce should not be called for plaintext tests");
    }

    fn decryption_aad_and_nonce_cid(
        &self,
        _dtls: &DTLSRecord,
        _buf: &[u8],
        _cid: &[u8],
        _inner_plaintext_len: u16,
    ) -> (Aad, Nonce) {
        panic!("decryption_aad_and_nonce_cid should not be called for plaintext tests");
    }

    fn explicit_nonce_len(&self) -> usize {
        panic!("explicit_nonce_len should not be called for plaintext tests");
    }

    fn decrypt_data(
        &mut self,
        _ciphertext: &mut TmpBuf,
        _aad: Aad,
        _nonce: Nonce,
    ) -> Result<(), Error> {
        panic!("decrypt_data should not be called for plaintext tests");
    }

    fn our_cid(&self) -> Option<&[u8]> {
        None
    }

    fn inbound_cid_active(&self) -> Option<&[u8]> {
        None
    }

    fn aead_overhead(&self) -> usize {
        0
    }
}

fn build_record(content_type: ContentType, epoch: u16, seq: u64, fragment: &[u8]) -> Vec<u8> {
    let mut out = Vec::new();
    out.push(content_type.as_u8());
    out.extend_from_slice(&[0xFE, 0xFD]);
    out.extend_from_slice(&epoch.to_be_bytes());
    out.extend_from_slice(&seq.to_be_bytes()[2..]);
    out.extend_from_slice(&(fragment.len() as u16).to_be_bytes());
    out.extend_from_slice(fragment);
    out
}

#[test]
fn parse_packet_filters_control_records_after_packet_validation() {
    let mut packet = Vec::new();
    packet.extend_from_slice(&build_record(ContentType::Alert, 0, 1, &[0x01, 0x00]));
    packet.extend_from_slice(&build_record(
        ContentType::ApplicationData,
        1,
        2,
        &[0xAA, 0xBB],
    ));

    let mut handler = TestHandler::default();
    let incoming = Incoming::parse_packet(&packet, &mut handler, None)
        .unwrap()
        .expect("application data record should remain");

    assert_eq!(handler.classify_calls, 2);
    assert_eq!(handler.dropped_alerts, 1);
    assert_eq!(incoming.records().len(), 1);
    assert_eq!(
        incoming.first().record().content_type,
        ContentType::ApplicationData
    );
    assert_eq!(incoming.first().record().sequence.epoch, 1);
}

/// Minimal RecordHandler stub for exercising decrypt-path gating without
/// standing up a full Engine/handshake. The AAD, nonce, and decrypt hooks
/// all panic on invocation: a record must be dropped *before* any of them is
/// touched.
struct GateStub {
    our_cid: Option<Vec<u8>>,
    inbound_cid_active: bool,
}

impl RecordHandler for GateStub {
    fn classify_record(&mut self, record: Record) -> Result<Option<Record>, Error> {
        Ok(Some(record))
    }
    fn is_peer_encryption_enabled(&self) -> bool {
        true
    }
    fn replay_check(&self, _: Sequence) -> bool {
        true
    }
    fn replay_update(&mut self, _: Sequence) {}
    fn decryption_aad_and_nonce(&self, _: &DTLSRecord, _: &[u8]) -> (Aad, Nonce) {
        panic!("AAD builder reached — gate must drop CID record first")
    }
    fn decryption_aad_and_nonce_cid(
        &self,
        _: &DTLSRecord,
        _: &[u8],
        _: &[u8],
        _: u16,
    ) -> (Aad, Nonce) {
        panic!("CID AAD builder reached — gate must drop CID record first")
    }
    fn explicit_nonce_len(&self) -> usize {
        0
    }
    fn decrypt_data(&mut self, _: &mut TmpBuf, _: Aad, _: Nonce) -> Result<(), Error> {
        panic!("decrypt_data reached — gate must drop CID record first")
    }
    fn our_cid(&self) -> Option<&[u8]> {
        self.our_cid.as_deref()
    }
    fn inbound_cid_active(&self) -> Option<&[u8]> {
        if self.inbound_cid_active {
            self.our_cid.as_deref()
        } else {
            None
        }
    }
    fn aead_overhead(&self) -> usize {
        0
    }
}

/// Build a minimal zero-payload tls12_cid record:
///   [0]      content type = 25 (Tls12Cid)
///   [1..3]   version = 0xfefd (DTLS 1.2)
///   [3..5]   epoch = 1
///   [5..11]  sequence = 0
///   [11..]   CID bytes
///   [..+2]   length = 0
fn make_cid_record(cid: &[u8]) -> Record {
    let mut buffer = Buf::new();
    buffer.extend_from_slice(&[25, 0xfe, 0xfd, 0, 1, 0, 0, 0, 0, 0, 0]);
    buffer.extend_from_slice(cid);
    buffer.extend_from_slice(&[0, 0]);

    // `Record::parse` builds `ParsedRecord` from a CID-stripped view so the
    // standard 13-byte DTLS header parser applies; mirror that here.
    let mut stripped = Buf::new();
    stripped.extend_from_slice(&buffer[..11]);
    stripped.extend_from_slice(&buffer[11 + cid.len()..]);
    let parsed =
        Box::new(ParsedRecord::parse(&stripped, None, 0).expect("parse stripped CID record"));

    Record { buffer, parsed }
}

/// When `inbound_cid_active` is false, a CID-framed record must be
/// silently dropped at the decrypt path — before AAD construction, before
/// the wire CID is consumed, and before any decrypt work happens:
/// `our_cid.is_some()` alone is not sufficient to authenticate CID framing.
#[test]
fn cid_record_dropped_when_inbound_not_active() {
    let cid: &[u8] = b"abcd";
    let record = make_cid_record(cid);

    let mut decrypt = GateStub {
        our_cid: Some(cid.to_vec()),
        inbound_cid_active: false,
    };

    let result = Record::decrypt_record(record, &mut decrypt, None)
        .expect("decrypt path must not surface an error for stray CID");
    assert!(
        result.is_none(),
        "CID record must be dropped when inbound_cid_active is false"
    );
}

/// Build a minimal legacy (non-CID) epoch-1 ApplicationData record:
///   [0]      content type = 23 (ApplicationData)
///   [1..3]   version = 0xfefd (DTLS 1.2)
///   [3..5]   epoch = 1
///   [5..11]  sequence = 0
///   [11..13] length = 0
fn make_legacy_epoch1_record() -> Record {
    let mut buffer = Buf::new();
    buffer.extend_from_slice(&[23, 0xfe, 0xfd, 0, 1, 0, 0, 0, 0, 0, 0, 0, 0]);

    let parsed =
        Box::new(ParsedRecord::parse(&buffer, None, 0).expect("parse legacy epoch-1 record"));
    Record { buffer, parsed }
}

/// RFC 9146 §3: on an association that expects a non-zero inbound CID,
/// a legacy-framed (non-`tls12_cid`) encrypted record is invalid and MUST
/// be silently discarded. `decrypt_record` drops it before AAD
/// construction, before replay update, and before any AEAD work — the
/// decrypt stubs in `GateStub` panic if
/// reached, so reaching this test without a drop is a loud failure.
#[test]
fn legacy_framed_record_dropped_when_inbound_cid_expected() {
    let cid: &[u8] = b"abcd";
    let record = make_legacy_epoch1_record();

    // CID is negotiated and inbound is live, so this association expects
    // incoming `tls12_cid` framing for all epoch-1 records. A legacy
    // content-type-23 record is RFC-invalid and must be dropped.
    let mut decrypt = GateStub {
        our_cid: Some(cid.to_vec()),
        inbound_cid_active: true,
    };

    let result = Record::decrypt_record(record, &mut decrypt, None)
        .expect("decrypt path must not surface an error for legacy-framed drop");
    assert!(
        result.is_none(),
        "legacy-framed epoch-1 record must be dropped when CID framing expected"
    );
}

/// Stub that models an authenticated decryption which "succeeds" against
/// caller-provided plaintext. Feeds a decrypted DTLSInnerPlaintext with a
/// bogus inner content type past AEAD and into the silent-discard gate.
struct DecryptStub {
    cid: Vec<u8>,
    inner_plaintext: Vec<u8>,
}

impl RecordHandler for DecryptStub {
    fn classify_record(&mut self, record: Record) -> Result<Option<Record>, Error> {
        Ok(Some(record))
    }
    fn is_peer_encryption_enabled(&self) -> bool {
        true
    }
    fn replay_check(&self, _: Sequence) -> bool {
        true
    }
    fn replay_update(&mut self, _: Sequence) {}
    fn decryption_aad_and_nonce(&self, _: &DTLSRecord, _: &[u8]) -> (Aad, Nonce) {
        unreachable!("non-CID path not exercised")
    }
    fn decryption_aad_and_nonce_cid(
        &self,
        _: &DTLSRecord,
        _: &[u8],
        _: &[u8],
        _: u16,
    ) -> (Aad, Nonce) {
        (
            Aad::new_dtls12(ContentType::Tls12Cid, Sequence::new(0), [0xFE, 0xFD], 0),
            Nonce([0u8; 12]),
        )
    }
    fn explicit_nonce_len(&self) -> usize {
        0
    }
    fn decrypt_data(&mut self, ciphertext: &mut TmpBuf, _: Aad, _: Nonce) -> Result<(), Error> {
        // Overwrite the ciphertext with our chosen DTLSInnerPlaintext and
        // truncate to its length. The buffer always has at least
        // `inner_plaintext.len()` bytes because `make_cid_record_with_payload`
        // sized it that way.
        let dst = ciphertext.as_mut();
        dst[..self.inner_plaintext.len()].copy_from_slice(&self.inner_plaintext);
        ciphertext.truncate(self.inner_plaintext.len());
        Ok(())
    }
    fn our_cid(&self) -> Option<&[u8]> {
        Some(&self.cid)
    }
    fn inbound_cid_active(&self) -> Option<&[u8]> {
        Some(&self.cid)
    }
    fn aead_overhead(&self) -> usize {
        0
    }
}

/// Build a CID record whose ciphertext region has length `inner_len`
/// so the decrypt path slices cleanly. Actual content is replaced by the
/// stub inside `decrypt_data`.
fn make_cid_record_with_payload(cid: &[u8], inner_len: usize) -> Record {
    let mut buffer = Buf::new();
    buffer.extend_from_slice(&[25, 0xfe, 0xfd, 0, 1, 0, 0, 0, 0, 0, 0]);
    buffer.extend_from_slice(cid);
    // length field (covers the ciphertext region)
    buffer.extend_from_slice(&(inner_len as u16).to_be_bytes());
    for _ in 0..inner_len {
        buffer.push(0);
    }

    let mut stripped = Buf::new();
    stripped.extend_from_slice(&buffer[..11]);
    stripped.extend_from_slice(&buffer[11 + cid.len()..]);
    let parsed =
        Box::new(ParsedRecord::parse(&stripped, None, 0).expect("parse stripped CID record"));

    Record { buffer, parsed }
}

/// An authenticated CID record whose inner content type is `tls12_cid`
/// (nested), `Ack`, or `Unknown(_)` must be silently dropped. RFC 6347
/// §4.1.2.7 — invalid records SHOULD be silently discarded — and this
/// must NOT surface as an `Err(..)` that tears down the association.
#[test]
fn cid_record_with_bogus_inner_type_is_silently_dropped() {
    let cid: &[u8] = b"cidX";
    // Inner: single type byte with no content, no padding. Each bad type
    // value below must silently drop.
    for bad in [
        ContentType::Tls12Cid.as_u8(),
        99,
        0,
        ContentType::Ack.as_u8(),
    ] {
        let record = make_cid_record_with_payload(cid, 1);
        let mut decrypt = DecryptStub {
            cid: cid.to_vec(),
            inner_plaintext: vec![bad],
        };
        let result = Record::decrypt_record(record, &mut decrypt, None).unwrap_or_else(|e| {
            panic!("bad inner type {} must silent-drop, got Err({:?})", bad, e)
        });
        assert!(
            result.is_none(),
            "bad inner type {} must be dropped (returned Some)",
            bad
        );
    }
}

/// Stub that counts replay updates.
struct CountingDecryptStub {
    cid: Vec<u8>,
    inner_plaintext: Vec<u8>,
    replay_updates: usize,
}

impl RecordHandler for CountingDecryptStub {
    fn classify_record(&mut self, record: Record) -> Result<Option<Record>, Error> {
        Ok(Some(record))
    }
    fn is_peer_encryption_enabled(&self) -> bool {
        true
    }
    fn replay_check(&self, _: Sequence) -> bool {
        true
    }
    fn replay_update(&mut self, _: Sequence) {
        self.replay_updates += 1;
    }
    fn decryption_aad_and_nonce(&self, _: &DTLSRecord, _: &[u8]) -> (Aad, Nonce) {
        unreachable!("non-CID path not exercised")
    }
    fn decryption_aad_and_nonce_cid(
        &self,
        _: &DTLSRecord,
        _: &[u8],
        _: &[u8],
        _: u16,
    ) -> (Aad, Nonce) {
        (
            Aad::new_dtls12(ContentType::Tls12Cid, Sequence::new(0), [0xFE, 0xFD], 0),
            Nonce([0u8; 12]),
        )
    }
    fn explicit_nonce_len(&self) -> usize {
        0
    }
    fn decrypt_data(&mut self, ciphertext: &mut TmpBuf, _: Aad, _: Nonce) -> Result<(), Error> {
        let dst = ciphertext.as_mut();
        dst[..self.inner_plaintext.len()].copy_from_slice(&self.inner_plaintext);
        ciphertext.truncate(self.inner_plaintext.len());
        Ok(())
    }
    fn our_cid(&self) -> Option<&[u8]> {
        Some(&self.cid)
    }
    fn inbound_cid_active(&self) -> Option<&[u8]> {
        Some(&self.cid)
    }
    fn aead_overhead(&self) -> usize {
        0
    }
}

/// RFC 9146 §6 permits a `DTLSInnerPlaintext` whose
/// `content` is zero bytes — the unwrap should return the lone
/// `real_type` byte as the content type and `content_len = 0`. Verify
/// the decrypt path surfaces the correct content type (e.g. Alert, or
/// ApplicationData with an empty payload) without mis-classifying the
/// single byte as padding.
#[test]
fn cid_record_with_empty_inner_content() {
    let cid: &[u8] = b"empty";
    for content_type in [
        ContentType::Alert.as_u8(),
        ContentType::ApplicationData.as_u8(),
        ContentType::Handshake.as_u8(),
        ContentType::ChangeCipherSpec.as_u8(),
    ] {
        let record = make_cid_record_with_payload(cid, 1);
        let mut decrypt = DecryptStub {
            cid: cid.to_vec(),
            inner_plaintext: vec![content_type],
        };
        let result = Record::decrypt_record(record, &mut decrypt, None)
            .expect("valid empty-content inner plaintext must not error")
            .expect("zero-length content with a valid real_type must surface a Record");
        // Post-decrypt the buffer's outer content type byte carries the
        // recovered inner type and the record length is zero.
        let buf = result.buffer();
        assert_eq!(
            buf[0], content_type,
            "recovered outer content type must match inner real_type"
        );
        let rec_len = u16::from_be_bytes([buf[11], buf[12]]);
        assert_eq!(
            rec_len, 0,
            "zero-length content must surface as length-0, not mis-counted padding"
        );
    }
}

/// A bogus-inner-type drop must NOT
/// advance the replay window. RFC 6347 §4.1.2.6 only requires that
/// the window update *after* MAC success; the endpoint additionally
/// requires the CID inner-type unwrap to succeed, so a peer-bug
/// record that AEAD-authenticates but carries a forbidden inner
/// content type does not poison the sequence space for legitimate
/// retransmits. The silent-drop is still there — the association
/// survives — only the replay slot is preserved.
#[test]
fn cid_record_bogus_inner_type_preserves_replay_window() {
    let cid: &[u8] = b"abcd";
    let record = make_cid_record_with_payload(cid, 1);
    let mut decrypt = CountingDecryptStub {
        cid: cid.to_vec(),
        inner_plaintext: vec![ContentType::Tls12Cid.as_u8()],
        replay_updates: 0,
    };
    let result = Record::decrypt_record(record, &mut decrypt, None)
        .expect("silent-drop must not surface an error");
    assert!(result.is_none(), "record must be dropped");
    assert_eq!(
        decrypt.replay_updates, 0,
        "bogus inner type must not consume the sequence number from the window"
    );
}

/// Receive-side 2^14 ceiling: a CID record whose `dtls.length`
/// implies an inner plaintext > `DTLS12_MAX_PLAINTEXT_LEN` (RFC 9146
/// §5.3 / RFC 6347 §4.1.1) must silently drop *before* AAD
/// construction, and the replay window must not advance.
#[test]
fn cid_record_inner_plaintext_over_2_14_silently_dropped() {
    let cid: &[u8] = b"big";
    // Stub aead_overhead == 0, so dtls.length == inner_plaintext_len.
    // 16385 > DTLS12_MAX_PLAINTEXT_LEN (16384) → must drop.
    let record =
        make_cid_record_with_payload(cid, DTLS12_MAX_PLAINTEXT_LEN + 1);
    let mut decrypt = CountingDecryptStub {
        cid: cid.to_vec(),
        inner_plaintext: vec![ContentType::ApplicationData.as_u8()],
        replay_updates: 0,
    };
    let result = Record::decrypt_record(record, &mut decrypt, None)
        .expect("over-length record must silent-drop, not error");
    assert!(result.is_none());
    assert_eq!(
        decrypt.replay_updates, 0,
        "drop happens before AEAD; replay window must not advance"
    );
}

/// Build a minimal epoch-0 `tls12_cid` record (no encryption).
fn make_epoch0_cid_record(cid: &[u8]) -> Vec<u8> {
    let mut buffer = Vec::new();
    // type=25, version=DTLS1.2, epoch=0, seq=0
    buffer.extend_from_slice(&[25, 0xfe, 0xfd, 0, 0, 0, 0, 0, 0, 0, 0]);
    buffer.extend_from_slice(cid);
    buffer.extend_from_slice(&[0, 0]); // length = 0
    buffer
}

/// RFC 9146 §3 / RFC 6347 §4.1.1: `tls12_cid` framing only applies
/// once encryption is enabled, so an epoch-0 CID record is invalid
/// and MUST be silently discarded — and must NOT consume a `queue_rx`
/// slot, which would otherwise be a DoS amplifier.
#[test]
fn epoch0_cid_record_dropped_at_parse() {
    let cid: &[u8] = b"abcd";
    let raw = make_epoch0_cid_record(cid);

    let mut decrypt = GateStub {
        our_cid: Some(cid.to_vec()),
        inbound_cid_active: false,
    };

    let result =
        Record::parse(&raw, &mut decrypt, None).expect("epoch-0 CID parse must not error");
    assert!(
        result.is_none(),
        "epoch-0 tls12_cid record must drop at parse, not enter the queue"
    );
}

/// Handler whose every answer is set by the test, and which notes what it is asked.
struct Scripted {
    encrypted: bool,
    fresh: bool,
    cid: Option<Vec<u8>>,
    armed: bool,
    /// The Connection ID from the first update of the replay window on.
    next_cid: Option<Option<Vec<u8>>>,
    nonce_len: usize,
    overhead: usize,
    /// What decryption makes of the ciphertext.
    outcome: fn(&mut TmpBuf) -> Result<(), Error>,
    seen_ciphertext: Vec<Vec<u8>>,
    seen_aad: Vec<Vec<u8>>,
    updates: Vec<Sequence>,
}

impl Scripted {
    fn new() -> Scripted {
        Scripted {
            encrypted: true,
            fresh: true,
            cid: None,
            armed: true,
            next_cid: None,
            nonce_len: 8,
            overhead: 24,
            outcome: |b| {
                let n = b.len() - 16;
                b.truncate(n);
                Ok(())
            },
            seen_ciphertext: Vec::new(),
            seen_aad: Vec::new(),
            updates: Vec::new(),
        }
    }
}

impl RecordHandler for Scripted {
    fn classify_record(&mut self, record: Record) -> Result<Option<Record>, Error> {
        Ok(Some(record))
    }
    fn is_peer_encryption_enabled(&self) -> bool {
        self.encrypted
    }
    fn replay_check(&self, _: Sequence) -> bool {
        self.fresh
    }
    fn replay_update(&mut self, seq: Sequence) {
        self.updates.push(seq);
        if let Some(cid) = self.next_cid.take() {
            self.cid = cid;
        }
    }
    fn decryption_aad_and_nonce(&self, dtls: &DTLSRecord, _: &[u8]) -> (Aad, Nonce) {
        let version = dtls.version.as_u16().to_be_bytes();
        let len = dtls.length - self.overhead as u16;
        (
            Aad::new_dtls12(dtls.content_type, dtls.sequence, version, len),
            Nonce([1; 12]),
        )
    }
    fn decryption_aad_and_nonce_cid(
        &self,
        dtls: &DTLSRecord,
        _: &[u8],
        cid: &[u8],
        inner_plaintext_len: u16,
    ) -> (Aad, Nonce) {
        let version = dtls.version.as_u16().to_be_bytes();
        (
            Aad::new_dtls12_cid(dtls.sequence, version, cid, inner_plaintext_len),
            Nonce([2; 12]),
        )
    }
    fn explicit_nonce_len(&self) -> usize {
        self.nonce_len
    }
    fn decrypt_data(&mut self, b: &mut TmpBuf, aad: Aad, _: Nonce) -> Result<(), Error> {
        self.seen_ciphertext.push(b.as_slice().to_vec());
        self.seen_aad.push(aad.as_slice().to_vec());
        (self.outcome)(b)
    }
    fn our_cid(&self) -> Option<&[u8]> {
        self.cid.as_deref()
    }
    fn inbound_cid_active(&self) -> Option<&[u8]> {
        if self.armed {
            self.cid.as_deref()
        } else {
            None
        }
    }
    fn aead_overhead(&self) -> usize {
        self.overhead
    }
}

/// A fragment of 8 bytes of nonce, the text, and 16 bytes of tag.
fn sealed(text: &[u8]) -> Vec<u8> {
    let mut out = vec![0xA0; 8];
    out.extend_from_slice(text);
    out.extend_from_slice(&[0xB0; 16]);
    out
}

fn cid_record(cid: &[u8], fragment: &[u8]) -> Vec<u8> {
    let mut out = vec![25, 0xFE, 0xFD, 0, 1, 0, 0, 0, 0, 0, 7];
    out.extend_from_slice(cid);
    out.extend_from_slice(&(fragment.len() as u16).to_be_bytes());
    out.extend_from_slice(fragment);
    out
}

fn handshake_fragment(seq: u16, body: &[u8]) -> Vec<u8> {
    let mut out = vec![1, 0, 0, body.len() as u8];
    out.extend_from_slice(&seq.to_be_bytes());
    out.extend_from_slice(&[0, 0, 0, 0, 0, body.len() as u8]);
    out.extend_from_slice(body);
    out
}

#[test]
fn record_without_connection_id_is_decrypted() {
    let packet = build_record(ContentType::ApplicationData, 1, 9, &sealed(b"hello"));
    let mut handler = Scripted::new();
    let incoming = Incoming::parse_packet(&packet, &mut handler, None)
        .unwrap()
        .expect("a record");
    let record = incoming.first();
    assert_eq!(record.record().content_type, ContentType::ApplicationData);
    assert_eq!(record.record().length, 5);
    assert_eq!(record.record().fragment(record.buffer()), b"hello");
    assert_eq!(&record.buffer()[11..13], &[0, 5]);
    // What was cut off stays behind the text.
    assert_eq!(record.buffer().len(), packet.len());
    let expected = Sequence {
        epoch: 1,
        sequence_number: 9,
    };
    assert_eq!(handler.updates, &[expected]);
    assert_eq!(handler.seen_ciphertext[0], &sealed(b"hello")[8..]);
    assert_eq!(
        handler.seen_aad[0],
        &[0, 1, 0, 0, 0, 0, 0, 9, 23, 0xFE, 0xFD, 0, 5]
    );
}

#[test]
fn record_with_connection_id_is_decrypted() {
    // The inner plaintext: content, its type, and padding.
    let packet = cid_record(b"abcd", &sealed(&[b'h', b'i', 23, 0, 0]));
    let mut handler = Scripted::new();
    handler.cid = Some(b"abcd".to_vec());
    let incoming = Incoming::parse_packet(&packet, &mut handler, None)
        .unwrap()
        .expect("a record");
    let record = incoming.first();
    assert_eq!(record.record().content_type, ContentType::ApplicationData);
    assert_eq!(record.record().fragment(record.buffer()), b"hi");
    assert_eq!(record.buffer().len(), packet.len() - 4);
    assert_eq!(handler.updates.len(), 1);
    let sequence = Sequence {
        epoch: 1,
        sequence_number: 7,
    };
    let aad = Aad::new_dtls12_cid(sequence, [0xFE, 0xFD], b"abcd", 5);
    assert_eq!(handler.seen_aad[0], aad.as_slice());
}

#[test]
fn decrypted_record_keeps_its_length() {
    // What decryption cuts off stays behind the text.
    let packet = build_record(ContentType::ApplicationData, 1, 9, &sealed(b"hello"));
    let mut handler = Scripted::new();
    let incoming = Incoming::parse_packet(&packet, &mut handler, None)
        .unwrap()
        .expect("a record");
    assert_eq!(incoming.first().buffer().len(), packet.len());
    assert_eq!(incoming.first().record().length, 5);
    assert!(incoming.first().buffer().ends_with(&[0xB0; 16]));
    // Less the Connection ID, where there is one.
    let packet = cid_record(b"abcd", &sealed(&[b'h', b'i', 23, 0, 0]));
    let mut handler = Scripted::new();
    handler.cid = Some(b"abcd".to_vec());
    let incoming = Incoming::parse_packet(&packet, &mut handler, None)
        .unwrap()
        .expect("a record");
    assert_eq!(incoming.first().buffer().len(), packet.len() - 4);
    assert_eq!(incoming.first().record().length, 2);
}

#[test]
fn failed_decryption_is_dropped_and_other_errors_are_reported() {
    let packet = build_record(ContentType::ApplicationData, 1, 9, &sealed(b"hello"));
    let mut handler = Scripted::new();
    handler.outcome = |_| Err(Error::CryptoError("tag mismatch".to_string()));
    assert!(Incoming::parse_packet(&packet, &mut handler, None).unwrap().is_none());
    assert!(handler.updates.is_empty());
    handler.outcome = |_| Err(Error::SecurityError("bad".to_string()));
    match Incoming::parse_packet(&packet, &mut handler, None) {
        Err(e) => assert_eq!(e, Error::SecurityError("bad".to_string())),
        Ok(_) => panic!("the error must be reported"),
    }
    assert!(handler.updates.is_empty());
}

#[test]
fn replayed_record_is_not_decrypted() {
    let packet = build_record(ContentType::ApplicationData, 1, 9, &sealed(b"hello"));
    let mut handler = Scripted::new();
    handler.fresh = false;
    assert!(Incoming::parse_packet(&packet, &mut handler, None).unwrap().is_none());
    assert!(handler.seen_ciphertext.is_empty());
    assert!(handler.updates.is_empty());
}

#[test]
fn record_below_the_overhead_is_not_decrypted() {
    let mut handler = Scripted::new();
    let short = build_record(ContentType::ApplicationData, 1, 9, &[0; 23]);
    assert!(Incoming::parse_packet(&short, &mut handler, None).unwrap().is_none());
    assert!(handler.seen_ciphertext.is_empty());
    let empty = build_record(ContentType::ApplicationData, 1, 9, &[0; 24]);
    let incoming = Incoming::parse_packet(&empty, &mut handler, None)
        .unwrap()
        .expect("an empty text");
    assert_eq!(incoming.first().record().length, 0);
}

#[test]
fn plaintext_of_2_14_bytes_is_accepted() {
    let mut handler = Scripted::new();
    let text = vec![3u8; DTLS12_MAX_PLAINTEXT_LEN];
    let packet = build_record(ContentType::ApplicationData, 1, 9, &sealed(&text));
    let incoming = Incoming::parse_packet(&packet, &mut handler, None)
        .unwrap()
        .expect("the longest text");
    assert_eq!(incoming.first().record().length, 16384);
    let text = vec![3u8; DTLS12_MAX_PLAINTEXT_LEN + 1];
    let packet = build_record(ContentType::ApplicationData, 1, 9, &sealed(&text));
    assert!(Incoming::parse_packet(&packet, &mut handler, None).unwrap().is_none());
}

#[test]
fn other_connection_id_is_dropped() {
    for encrypted in [false, true] {
        let mut handler = Scripted::new();
        handler.encrypted = encrypted;
        handler.cid = Some(b"abcd".to_vec());
        let stranger = cid_record(b"abcX", &sealed(&[23]));
        assert!(Incoming::parse_packet(&stranger, &mut handler, None).unwrap().is_none());
        assert!(handler.seen_ciphertext.is_empty());
        let ours = cid_record(b"abcd", &sealed(&[23]));
        assert!(Incoming::parse_packet(&ours, &mut handler, None).unwrap().is_some());
    }
}

#[test]
fn early_record_keeps_its_connection_id() {
    let mut handler = Scripted::new();
    handler.encrypted = false;
    handler.cid = Some(b"abcd".to_vec());
    let packet = cid_record(b"abcd", &sealed(&[23]));
    let incoming = Incoming::parse_packet(&packet, &mut handler, None)
        .unwrap()
        .expect("the record waits");
    assert_eq!(incoming.first().record().content_type, ContentType::Tls12Cid);
    let bytes = incoming.into_records().remove(0).into_buffer();
    assert_eq!(bytes, packet);
    // Later it is parsed again from the same bytes.
    handler.encrypted = true;
    let record = Record::parse(&bytes, &mut handler, None)
        .unwrap()
        .expect("the decrypted record");
    assert_eq!(record.record().content_type, ContentType::ApplicationData);
}

#[test]
fn cut_record_makes_the_datagram_incomplete() {
    let mut handler = Scripted::new();
    let packet = build_record(ContentType::Alert, 0, 1, &[1, 0]);
    for n in [1, 12, 13, 14] {
        match Incoming::parse_packet(&packet[..n], &mut handler, None) {
            Err(e) => assert_eq!(e, Error::ParseIncomplete),
            Ok(_) => panic!("{} bytes must be incomplete", n),
        }
    }
    assert!(Incoming::parse_packet(&[], &mut handler, None).unwrap().is_none());
}

#[test]
fn malformed_connection_id_framing_is_no_error() {
    let mut handler = Scripted::new();
    handler.cid = Some(b"silent-drop".to_vec());
    // Shorter than its header.
    let mut short = vec![25u8, 0xFE, 0xFD];
    short.extend_from_slice(&[0; 8]);
    assert!(Incoming::parse_packet(&short, &mut handler, None).unwrap().is_none());
    // A length past the end.
    let mut over = vec![25u8, 0xFE, 0xFD, 0, 1, 0, 0, 0, 0, 0, 1];
    over.extend_from_slice(b"silent-drop");
    over.extend_from_slice(&[0xFF, 0xFF, 0, 0, 0, 0]);
    assert!(Incoming::parse_packet(&over, &mut handler, None).unwrap().is_none());
    // What came before it is kept.
    let mut both = build_record(ContentType::Alert, 0, 1, &[1, 0]);
    both.extend_from_slice(&over);
    let incoming = Incoming::parse_packet(&both, &mut handler, None)
        .unwrap()
        .expect("the alert");
    assert_eq!(incoming.records().len(), 1);
}

#[test]
fn malformed_tail_leaves_decrypted_records_alone() {
    let good = cid_record(b"abcd", &sealed(&[b'h', b'i', 23]));
    // The header cut short, in the Connection ID and in the length; a length past the end.
    let tails: [&[u8]; 3] = [
        &[25, 0xFE, 0xFD, 0, 1, 0, 0, 0, 0, 0, 8, b'a', b'b'],
        &[25, 0xFE, 0xFD, 0, 1, 0, 0, 0, 0, 0, 8, b'a', b'b', b'c', b'd', 0],
        &[25, 0xFE, 0xFD, 0, 1, 0, 0, 0, 0, 0, 8, b'a', b'b', b'c', b'd', 0, 2, 1],
    ];
    for tail in tails {
        let mut packet = good.clone();
        packet.extend_from_slice(&build_record(ContentType::Alert, 0, 1, &[1, 0]));
        packet.extend_from_slice(tail);
        let mut handler = Scripted::new();
        handler.cid = Some(b"abcd".to_vec());
        let incoming = Incoming::parse_packet(&packet, &mut handler, None)
            .unwrap()
            .expect("both records");
        assert_eq!(incoming.records().len(), 2);
        let record = incoming.first();
        assert_eq!(record.record().fragment(record.buffer()), b"hi");
        assert_eq!(handler.updates.len(), 1);
    }
}

#[test]
fn datagram_is_framed_by_the_connection_id_at_its_start() {
    let mut packet = cid_record(b"abcd", &sealed(&[b'h', b'i', 23]));
    packet.extend_from_slice(&cid_record(b"abcd", &sealed(&[b'h', b'o', 23])));
    packet.extend_from_slice(&build_record(ContentType::Alert, 0, 1, &[1, 0]));
    // A shorter one takes effect on the way: the second record no longer matches it and
    // is dropped, but the alert behind it is found.
    let mut handler = Scripted::new();
    handler.cid = Some(b"abcd".to_vec());
    handler.next_cid = Some(Some(b"ab".to_vec()));
    let incoming = Incoming::parse_packet(&packet, &mut handler, None)
        .unwrap()
        .expect("two records");
    let types: Vec<ContentType> = incoming
        .records()
        .iter()
        .map(|r| r.record().content_type)
        .collect();
    assert_eq!(types, [ContentType::ApplicationData, ContentType::Alert]);
    assert_eq!(handler.updates.len(), 1);
    // With none from there on, the second record was not asked for.
    let mut handler = Scripted::new();
    handler.cid = Some(b"abcd".to_vec());
    handler.next_cid = Some(None);
    let incoming = Incoming::parse_packet(&packet, &mut handler, None)
        .unwrap()
        .expect("one record");
    assert_eq!(incoming.records().len(), 1);
}

#[test]
fn unsolicited_cid_record_does_not_drop_coalesced_records() {
    let mut handler = Scripted::new();
    let mut packet = vec![25, 0xFE, 0xFD, 0, 1, 0, 0, 0, 0, 0, 0xAB, 0, 0];
    packet.extend_from_slice(&build_record(
        ContentType::ApplicationData,
        1,
        9,
        &sealed(b"coalesced-after-stray"),
    ));
    let incoming = Incoming::parse_packet(&packet, &mut handler, None)
        .unwrap()
        .expect("the record behind the stray one");
    let record = incoming.first();
    assert_eq!(record.record().fragment(record.buffer()), b"coalesced-after-stray");
}

#[test]
fn unsolicited_nonzero_cid_record_ends_the_datagram() {
    let mut handler = Scripted::new();
    let mut packet = vec![
        25, 0xFE, 0xFD, 0, 1, 0, 0, 0, 0, 0, 0xBE, 0x00, 0x04, 0x11, 0x22, 0x00,
    ];
    packet.extend_from_slice(&build_record(
        ContentType::ApplicationData,
        1,
        9,
        &sealed(b"should-not-arrive"),
    ));
    assert!(Incoming::parse_packet(&packet, &mut handler, None).unwrap().is_none());
    assert!(handler.seen_ciphertext.is_empty());
}

#[test]
fn frames_of_a_datagram() {
    let whole = build_record(ContentType::Alert, 0, 1, &[1, 0]);
    assert_eq!(next_frame(&whole, None), Frame::Record(15));
    assert_eq!(next_frame(&whole, Some(4)), Frame::Record(15));
    assert_eq!(next_frame(&whole[..14], None), Frame::Incomplete);
    let cid = cid_record(b"abcd", &[1, 2, 3]);
    assert_eq!(next_frame(&cid, Some(4)), Frame::Record(20));
    assert_eq!(next_frame(&cid, Some(300)), Frame::Discard);
    assert_eq!(next_frame(&cid[..19], Some(4)), Frame::Discard);

    let stray = cid_record(&[], &[1, 2, 3]);
    // Nothing behind it.
    assert_eq!(next_frame(&stray, None), Frame::Discard);
    let follow = |next: &[u8]| {
        let mut p = stray.clone();
        p.extend_from_slice(next);
        next_frame(&p, None)
    };
    assert_eq!(follow(&whole), Frame::Skip(16));
    // Less than a header.
    assert_eq!(follow(&whole[..12]), Frame::Discard);
    // A length past the end.
    assert_eq!(follow(&whole[..13]), Frame::Discard);
    // Another `tls12_cid` record is looked at in turn.
    assert_eq!(follow(&cid[..13]), Frame::Skip(16));
    // Not a content type.
    let mut other = whole.clone();
    other[0] = 24;
    assert_eq!(follow(&other), Frame::Discard);
}

#[test]
fn at_most_eight_records() {
    let mut handler = Scripted::new();
    let mut packet = Vec::new();
    for i in 0..8 {
        packet.extend_from_slice(&build_record(ContentType::Alert, 0, i, &[1, 0]));
    }
    let incoming = Incoming::parse_packet(&packet, &mut handler, None)
        .unwrap()
        .expect("eight records");
    assert_eq!(incoming.records().len(), 8);
    let numbers: Vec<u64> = incoming
        .into_records()
        .iter()
        .map(|r| r.record().sequence.sequence_number)
        .collect();
    assert_eq!(numbers, &[0, 1, 2, 3, 4, 5, 6, 7]);
    packet.extend_from_slice(&build_record(ContentType::Alert, 0, 8, &[1, 0]));
    match Incoming::parse_packet(&packet, &mut handler, None) {
        Err(e) => assert_eq!(e, Error::TooManyRecords),
        Ok(_) => panic!("nine records are too many"),
    }
}

#[test]
fn plaintext_record_of_another_type_is_dropped_in_epoch_0() {
    let mut handler = Scripted::new();
    for (content_type, kept) in [
        (ContentType::ChangeCipherSpec, true),
        (ContentType::Alert, true),
        (ContentType::Handshake, true),
        (ContentType::ApplicationData, false),
        (ContentType::Ack, false),
        (ContentType::Unknown(99), false),
    ] {
        let packet = build_record(content_type, 0, 1, &[1]);
        let r = Incoming::parse_packet(&packet, &mut handler, None).unwrap();
        assert_eq!(r.is_some(), kept, "{:?}", content_type);
    }
}

#[test]
fn handshake_fragments_of_a_record() {
    let mut fragment = handshake_fragment(3, b"first");
    fragment.extend_from_slice(&handshake_fragment(4, b""));
    fragment.extend_from_slice(&[1, 2, 3]);
    let packet = build_record(ContentType::Handshake, 0, 1, &fragment);
    let mut record = Record::parse(&packet, &mut Scripted::new(), None)
        .unwrap()
        .expect("a handshake record");
    assert_eq!(record.handshakes().len(), 2);
    let first = record.first_handshake().expect("a fragment");
    assert_eq!((first.msg_type, first.message_seq, first.length), (1, 3, 5));
    assert_eq!(&record.buffer()[first.body_range.clone()], b"first");
    assert_eq!(record.handshakes()[1].body_range, 42..42);

    assert!(!record.is_handled());
    record.set_handshake_handled(1);
    assert!(!record.is_handled());
    assert!(record.handshakes()[1].is_handled());
    record.set_handshake_handled(0);
    assert!(record.is_handled());
}

#[test]
fn at_most_eight_handshake_fragments() {
    let mut fragment = Vec::new();
    for i in 0..9 {
        fragment.extend_from_slice(&handshake_fragment(i, b"x"));
    }
    let packet = build_record(ContentType::Handshake, 0, 1, &fragment);
    let parsed = ParsedRecord::parse(&packet, None, 0).expect("a record");
    assert_eq!(parsed.handshakes.len(), 8);
    assert_eq!(parsed.handshakes[7].message_seq, 7);
}

#[test]
fn record_without_fragments_is_marked_itself() {
    let packet = build_record(ContentType::Alert, 0, 1, &[1, 0]);
    let mut record = Record::parse(&packet, &mut Scripted::new(), None)
        .unwrap()
        .expect("an alert");
    assert!(record.first_handshake().is_none());
    assert!(!record.is_handled());
    record.set_handled();
    assert!(record.is_handled());
}

#[test]
fn inner_plaintext_without_its_padding() {
    assert_eq!(unwrap_inner(&[b'a', b'b', 22, 0, 0, 0]), Some((22, 2)));
    assert_eq!(unwrap_inner(&[22]), Some((22, 0)));
    assert_eq!(unwrap_inner(&[0, 0, 21]), Some((21, 2)));
    for invalid in [&[][..], &[0], &[0, 0], &[1, 25], &[1, 26], &[1, 24, 0]] {
        assert_eq!(unwrap_inner(invalid), None);
    }
}

#[test]
fn decrypted_header_says_what_the_text_is() {
    let bytes = build_record(ContentType::Tls12Cid, 1, 5, b"text and tag");
    let record = reparse(bytes.clone(), 4, Some((23, 3)), None, 0).expect("a record");
    assert_eq!(record.record().content_type, ContentType::ApplicationData);
    assert_eq!(record.record().fragment(record.buffer()), b"tex");
    let record = reparse(bytes.clone(), 4, None, None, 5).expect("a record");
    assert_eq!(record.record().content_type, ContentType::Tls12Cid);
    assert_eq!(record.record().fragment(record.buffer()), b"and ");
    match reparse(bytes, 13, None, None, 0) {
        Err(e) => assert_eq!(e, Error::ParseError(ErrorKind::Eof)),
        Ok(_) => panic!("the text is longer than the record"),
    }
}

#[test]
fn shortened_buffer_keeps_what_was_cut_off() {
    let mut buf = TmpBuf::new(vec![1, 2, 3, 4, 5]);
    buf.truncate(9);
    assert_eq!(buf.len(), 5);
    buf.truncate(4);
    buf.as_mut()[0] = 9;
    buf.truncate(2);
    assert_eq!(buf.as_slice(), &[9, 2]);
    assert!(!buf.is_empty());
    assert_eq!(buf.into_backing(), vec![9, 2, 3, 4, 5]);
}
