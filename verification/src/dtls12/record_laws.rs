//! What holds of every record that is read, in terms of its bytes.

use vstd::prelude::*;

use super::incoming;
use super::incoming::{Admission, Opened, RecordHandler, RecordView};
use super::message::handshake::Handshake;
use super::message::record::DTLSRecord;
use crate::error::{Error, ErrorKind};
use crate::types::Sequence;

verus! {

/// `s` starts with the header of a record that is there in full, with `skip` bytes between
/// header and fragment, and in epoch 0 with a type that may come in plaintext.
pub open spec fn readable(s: Seq<u8>, skip: int) -> bool {
    &&& s.len() >= 13
    &&& s.len() >= 13 + skip + s[11] * 256 + s[12]
    &&& s[3] == 0 && s[4] == 0 ==> s[0] == 20 || s[0] == 21 || s[0] == 22
}

/// `r` is the header in the first 13 bytes of `s`: content type, version, epoch, 48-bit
/// number and length, each most significant byte first, with the fragment `skip` bytes
/// behind it.
pub open spec fn is_header(r: DTLSRecord, s: Seq<u8>, skip: int) -> bool {
    &&& r.content_type.code() == s[0]
    &&& r.content_type is ChangeCipherSpec <==> s[0] == 20
    &&& r.content_type is Alert <==> s[0] == 21
    &&& r.content_type is Handshake <==> s[0] == 22
    &&& r.content_type is ApplicationData <==> s[0] == 23
    &&& r.content_type is Tls12Cid <==> s[0] == 25
    &&& r.content_type is Ack <==> s[0] == 26
    &&& r.version.code() == s[1] * 256 + s[2]
    &&& r.version is DTLS1_0 <==> s[1] == 0xFE && s[2] == 0xFF
    &&& r.version is DTLS1_2 <==> s[1] == 0xFE && s[2] == 0xFD
    &&& r.version is DTLS1_3 <==> s[1] == 0xFE && s[2] == 0xFC
    &&& r.sequence.epoch == s[3] * 256 + s[4]
    &&& r.sequence.sequence_number == s[5] * 1099511627776 + s[6] * 4294967296 + s[7] * 16777216
        + s[8] * 65536 + s[9] * 256 + s[10]
    &&& r.length == s[11] * 256 + s[12]
    &&& r.fragment_range.start == 13 + skip
    &&& r.fragment_range.end == 13 + skip + s[11] * 256 + s[12]
}

/// `h` is the handshake fragment whose header stands in `s` right before its body: message
/// type, message length, message number, fragment offset and fragment length, each most
/// significant byte first.
pub open spec fn is_fragment(h: Handshake, s: Seq<u8>) -> bool {
    let at = h.body_range.start - 12;
    &&& h.msg_type == s[at]
    &&& h.length == s[at + 1] * 65536 + s[at + 2] * 256 + s[at + 3]
    &&& h.message_seq == s[at + 4] * 256 + s[at + 5]
    &&& h.fragment_offset == s[at + 6] * 65536 + s[at + 7] * 256 + s[at + 8]
    &&& h.fragment_length == s[at + 9] * 65536 + s[at + 10] * 256 + s[at + 11]
    &&& h.body_range.end == h.body_range.start + h.fragment_length
    &&& !h.handled
}

/// No whole handshake fragment starts at `at` of `s`, where the record ends at `to`.
pub open spec fn no_fragment(s: Seq<u8>, at: int, to: int) -> bool {
    to - at < 12 || to - at < 12 + s[at + 9] * 65536 + s[at + 10] * 256 + s[at + 11]
}

/// `list` are the handshake fragments in the bytes of `s` from `from` to `to`: the first
/// starts at `from`, each other one where the one before it ends, and all lie within. Only
/// where there are `room` of them can another one follow.
pub open spec fn holds_fragments(
    s: Seq<u8>,
    from: int,
    to: int,
    room: nat,
    list: Seq<Handshake>,
) -> bool {
    &&& list.len() <= room
    &&& list.len() > 0 ==> list[0].body_range.start == from + 12
    &&& forall|j: int, k: int|
        0 <= j < list.len() && 0 <= k < list.len() && k == j + 1 ==> (
        #[trigger] list[k]).body_range.start == (#[trigger] list[j]).body_range.end + 12
    &&& forall|k: int|
        0 <= k < list.len() ==> is_fragment(#[trigger] list[k], s) && from + 12
            <= list[k].body_range.start <= list[k].body_range.end <= to
    &&& list.len() < room ==> no_fragment(
        s,
        if list.len() == 0 {
            from
        } else {
            list.last().body_range.end as int
        },
        to,
    )
}

/// `v` is the record in the bytes `s`, with `skip` bytes between header and fragment: its
/// header is read from them, and so are the handshake fragments where it is a handshake
/// record, at most 8. Other records have none.
pub open spec fn is_record(v: RecordView, s: Seq<u8>, skip: int) -> bool {
    &&& is_header(v.record, s, skip)
    &&& s[0] == 22 ==> holds_fragments(
        s,
        13 + skip,
        13 + skip + s[11] * 256 + s[12],
        8,
        v.handshakes,
    )
    &&& s[0] != 22 ==> v.handshakes.len() == 0
    &&& !v.handled
}

proof fn lemma_header(s: Seq<u8>, skip: nat)
    requires
        s.len() <= usize::MAX,
    ensures
        super::message::record::record_in(s, 0, skip) is Ok <==> readable(s, skip as int),
        super::message::record::record_in(s, 0, skip) matches Ok(r) ==> is_header(r, s, skip as int),
{
    super::message::record::law_whole_record_is_read(s, 0, skip);
    super::message::record::law_header_is_the_one_on_the_wire(s, 0, skip);
    super::message::record::law_header_names_type_and_version(s, 0, skip);
}

proof fn lemma_fragments(s: Seq<u8>, from: nat, to: nat, room: nat)
    requires
        from <= to <= s.len(),
        s.len() <= usize::MAX,
    ensures
        holds_fragments(
            s,
            from as int,
            to as int,
            room,
            incoming::handshakes_in(s.subrange(from as int, to as int), from, room),
        ),
    decreases room,
{
    let at = from as int;
    let part = s.subrange(at, to as int);
    let list = incoming::handshakes_in(part, from, room);
    super::message::handshake::law_whole_fragment_is_read(part, from);
    super::message::handshake::law_handshake_header_is_the_one_on_the_wire(part, from);
    if room > 0 && part.len() > 0 {
        if let Ok(h) = super::message::handshake::handshake_in(part, from) {
            let used = (12 + h.fragment_length) as nat;
            let less = (room - 1) as nat;
            assert(part.skip(used as int) =~= s.subrange(at + used, to as int));
            lemma_fragments(s, from + used, to, less);
            let tail = incoming::handshakes_in(part.skip(used as int), from + used, less);
            assert(list =~= seq![h] + tail);
            assert(list[0] == h);
            assert(is_fragment(h, s)) by {
                assert(part[0] == s[at]);
                assert(part[1] == s[at + 1] && part[2] == s[at + 2] && part[3] == s[at + 3]);
                assert(part[4] == s[at + 4] && part[5] == s[at + 5]);
                assert(part[6] == s[at + 6] && part[7] == s[at + 7] && part[8] == s[at + 8]);
                assert(part[9] == s[at + 9] && part[10] == s[at + 10]);
                assert(part[11] == s[at + 11]);
            }
            assert forall|k: int| 0 <= k < list.len() implies is_fragment(#[trigger] list[k], s)
                && from + 12 <= list[k].body_range.start <= list[k].body_range.end <= to by {
                if k > 0 {
                    assert(list[k] == tail[k - 1]);
                }
            }
            assert forall|j: int, k: int|
                0 <= j < list.len() && 0 <= k < list.len() && k == j + 1 implies (
            #[trigger] list[k]).body_range.start == (#[trigger] list[j]).body_range.end + 12 by {
                assert(list[k] == tail[k - 1]);
                if j > 0 {
                    assert(list[j] == tail[j - 1]);
                }
            }
            if tail.len() > 0 {
                assert(list.last() == tail.last());
            } else {
                assert(list.last() == h);
            }
        } else {
            assert(no_fragment(s, from as int, to as int)) by {
                if part.len() >= 12 {
                    assert(part[9] == s[at + 9] && part[10] == s[at + 10]);
                    assert(part[11] == s[at + 11]);
                }
            }
        }
    }
}

/// A record is read exactly where it is there in full, and what is read is what stands in
/// its bytes, whatever the number of bytes between header and fragment: the handshake
/// fragments of a handshake record start where its fragment does, follow one another, and
/// lie within it. A record that may not come in plaintext is told apart from one that is
/// cut short.
pub proof fn law_record_is_read_from_its_bytes(s: Seq<u8>, skip: nat)
    requires
        s.len() <= usize::MAX,
    ensures
        incoming::parsed_in(s, skip) is Ok <==> readable(s, skip as int),
        incoming::parsed_in(s, skip) matches Ok((record, handshakes)) ==> is_record(
            RecordView { buffer: s, record, handshakes, handled: false },
            s,
            skip as int,
        ),
        incoming::parsed_in(s, skip) matches Err(code) ==> code == (if s.len() >= 11 && s[3] == 0
            && s[4] == 0 && s[0] != 20 && s[0] != 21 && s[0] != 22 {
            ErrorKind::Verify
        } else {
            ErrorKind::Eof
        }),
{
    lemma_header(s, skip);
    super::message::record::law_whole_record_is_read(s, 0, skip);
    if let Ok(r) = super::message::record::record_in(s, 0, skip) {
        lemma_fragments(s, r.fragment_range.start as nat, r.fragment_range.end as nat, 8);
    }
}

/// The number of bytes of Connection ID in the record `s`, where the association expects
/// `cid`.
pub open spec fn cid_bytes(s: Seq<u8>, cid: Option<Seq<u8>>) -> int {
    match cid {
        Some(c) => if s[0] == 25 {
            c.len() as int
        } else {
            0
        },
        None => 0,
    }
}

/// `t` is `s` without the `n` bytes that stand behind its first 11.
pub open spec fn is_cut(t: Seq<u8>, s: Seq<u8>, n: int) -> bool {
    &&& t.len() == s.len() - n
    &&& forall|i: int| 0 <= i < 11 && i < t.len() ==> #[trigger] t[i] == s[i]
    &&& forall|i: int| 11 <= i < t.len() ==> #[trigger] t[i] == s[i + n]
}

proof fn lemma_cut(t: Seq<u8>, s: Seq<u8>, n: nat)
    requires
        is_cut(t, s, n as int),
        s.len() >= 11 + n || n == 0,
    ensures
        s.len() >= 11 ==> incoming::without_cid(s, n) == t,
        n == 0 ==> t == s,
{
    if s.len() >= 11 {
        assert(incoming::without_cid(s, n) =~= t);
    }
    if n == 0 {
        assert(t =~= s);
    }
}

/// What becomes of a record, by its bytes. `t` are the bytes without the Connection ID.
///
/// - What cannot be read is dropped, and nothing changes.
/// - In epoch 0, and before the peer's encryption is enabled, the record is handed on: with
///   all its bytes, under the header and with the handshake fragments that stand in them.
///   But with a Connection ID other than the expected one it is dropped. Nothing changes.
/// - All others are decrypted.
#[verifier::rlimit(30)]
pub proof fn law_record_by_its_bytes<H: RecordHandler>(
    pre: H,
    s: Seq<u8>,
    t: Seq<u8>,
    post: H,
    r: Result<Option<RecordView>, Error>,
)
    requires
        0 < s.len() <= usize::MAX,
        s[0] == 25 ==> s.len() >= 11 + cid_bytes(s, pre.cid()),
        is_cut(t, s, cid_bytes(s, pre.cid())),
        incoming::record_run(pre, s, post, r),
    ensures
        !readable(t, 0) ==> post == pre && r == Ok::<Option<RecordView>, Error>(None),
        readable(t, 0) && (t[3] == 0 && t[4] == 0 || !pre.encrypted()) ==> {
            let n = cid_bytes(s, pre.cid());
            &&& post == pre
            &&& n > 0 && pre.cid() != Some(s.subrange(11, 11 + n)) ==> r == Ok::<
                Option<RecordView>,
                Error,
            >(None)
            &&& n == 0 || pre.cid() == Some(s.subrange(11, 11 + n)) ==> (r matches Ok(Some(v))
                && v.buffer == s && is_record(v, t, 0))
        },
        readable(t, 0) && !(t[3] == 0 && t[4] == 0) && pre.encrypted() ==> exists|rec: RecordView|
            rec.buffer == s && is_record(rec, t, 0) && #[trigger] incoming::decrypt_run(
                pre,
                rec,
                post,
                r,
            ),
{
    reveal(incoming::record_run);
    let n = cid_bytes(s, pre.cid()) as nat;
    lemma_cut(t, s, n);
    law_record_is_read_from_its_bytes(t, 0);
    assert(s[0] == t[0]) by {
        if s.len() < 11 {
            assert(n == 0);
        }
    }
    if let Ok((record, handshakes)) = incoming::parsed_in(t, 0) {
        let rec = RecordView { buffer: s, record, handshakes, handled: false };
        assert(is_record(rec, t, 0));
    }
}

/// Which encrypted records are decrypted, by their bytes. `t` are the bytes without the
/// Connection ID.
///
/// A record is dropped where it comes without a Connection ID though one is expected, where
/// the replay window has seen it, where it carries a Connection ID other than the active
/// one, where its length does not hold the AEAD overhead, and where more than 2^14 bytes
/// would be left of it. One that cannot be read is malformed. All others are decrypted:
/// as the bytes without the Connection ID, under their header, with the Connection ID that
/// the record carried and the number of bytes that are left.
pub proof fn law_admission_by_bytes<H: RecordHandler>(h: H, rec: RecordView, t: Seq<u8>)
    requires
        0 < rec.buffer.len() <= usize::MAX,
        rec.buffer[0] == 25 ==> rec.buffer.len() >= 11 + cid_bytes(rec.buffer, h.cid()),
        is_cut(t, rec.buffer, cid_bytes(rec.buffer, h.cid())),
    ensures
        !fits_association(h, rec) ==> incoming::admission(h, rec) is Drop,
        fits_association(h, rec) && !readable(t, 0) ==> incoming::admission(h, rec) is Malformed,
        fits_association(h, rec) && readable(t, 0) ==> {
            let length = t[11] * 256 + t[12];
            &&& length < h.overhead() || length > h.overhead() + 16384 <==> incoming::admission(
                h,
                rec,
            ) is Drop
            &&& h.overhead() <= length <= h.overhead() + 16384 <==> incoming::admission(
                h,
                rec,
            ) is Decrypt
            &&& incoming::admission(h, rec) matches Admission::Decrypt {
                is_cid,
                sequence,
                buffer,
                dtls,
                wire_cid,
                inner_len,
            } ==> {
                &&& is_cid == (rec.buffer[0] == 25)
                &&& sequence == rec.record.sequence
                &&& buffer == t
                &&& is_header(dtls, t, 0)
                &&& wire_cid == (if rec.buffer[0] == 25 {
                    rec.buffer.subrange(11, 11 + cid_bytes(rec.buffer, h.cid()))
                } else {
                    Seq::empty()
                })
                &&& inner_len + h.overhead() == length
            }
        },
{
    lemma_cut(t, rec.buffer, cid_bytes(rec.buffer, h.cid()) as nat);
    lemma_header(t, 0);
}

/// The association may take the encrypted record `rec`: the replay window admits it, and it
/// comes with the active Connection ID, or without one where none is expected.
pub open spec fn fits_association<H: RecordHandler>(h: H, rec: RecordView) -> bool {
    let n = cid_bytes(rec.buffer, h.cid());
    &&& h.fresh(rec.record.sequence)
    &&& rec.buffer[0] != 25 ==> h.cid() is None
    &&& rec.buffer[0] == 25 ==> h.armed_cid() is Some
    &&& n > 0 ==> h.armed_cid() == Some(rec.buffer.subrange(11, 11 + n))
}

/// The last byte of `text` other than zero stands at `k`, and is the code of a type that may
/// stand inside a record with a Connection ID.
pub open spec fn inner_type_at(text: Seq<u8>, k: int) -> bool {
    &&& 0 <= k < text.len()
    &&& text[k] == 20 || text[k] == 21 || text[k] == 22 || text[k] == 23
    &&& forall|i: int| k < i < text.len() ==> text[i] == 0
}

/// The inner type of a record with a Connection ID is its last byte other than zero, and
/// the content stands before it. There is none where that byte is not a type that may
/// stand there.
pub proof fn law_inner_record_by_bytes(text: Seq<u8>, k: int)
    ensures
        inner_type_at(text, k) ==> incoming::inner_record(text) == Some((text[k], k as nat)),
        (forall|j: int| !inner_type_at(text, j)) ==> incoming::inner_record(text) is None,
{
    crate::util::lemma_unpadded_len(text);
    let m = crate::util::unpadded_len(text) as int;
    if m == 0 {
        assert(forall|j: int| 0 <= j < text.len() ==> text[j] == 0);
    } else {
        crate::util::law_inner_type_is_the_last_nonzero_byte(text, (m - 1) as nat);
        if inner_type_at(text, k) {
            assert(k == m - 1) by {
                if k < m - 1 {
                    assert(text[m - 1] == 0);
                }
            }
        }
        if forall|j: int| !inner_type_at(text, j) {
            assert(!inner_type_at(text, m - 1));
        }
    }
}

/// `v` is the record that decryption makes of the bytes `t`, whose header is followed by
/// `nonce_len` bytes of nonce: type and length of the header are `code` and `len`, the rest
/// of it and the nonce stay, and behind them stand the plaintext and what was cut off. It
/// is read from these bytes.
pub open spec fn is_opened(
    v: RecordView,
    t: Seq<u8>,
    nonce_len: int,
    out: Opened,
    code: u8,
    len: int,
) -> bool {
    &&& v.buffer.len() == t.len()
    &&& v.buffer[0] == code
    &&& forall|i: int| 1 <= i < 11 ==> #[trigger] v.buffer[i] == t[i]
    &&& v.buffer[11] * 256 + v.buffer[12] == len % 65536
    &&& forall|i: int| 13 <= i < 13 + nonce_len ==> #[trigger] v.buffer[i] == t[i]
    &&& forall|i: int|
        0 <= i < out.text.len() ==> v.buffer[13 + nonce_len + i] == #[trigger] out.text[i]
    &&& forall|i: int|
        0 <= i < out.tail.len() ==> v.buffer[13 + nonce_len + out.text.len() + i]
            == #[trigger] out.tail[i]
    &&& is_record(v, v.buffer, nonce_len)
}

/// What follows from the attempt to decrypt the bytes `t` of a record, by what it returned.
pub open spec fn is_concluded<H: RecordHandler>(
    mid: H,
    is_cid: bool,
    sequence: Sequence,
    t: Seq<u8>,
    nonce_len: int,
    out: Opened,
    post: H,
    r: Result<Option<RecordView>, Error>,
) -> bool {
    &&& out.result matches Err(e) ==> post == mid && r == (if e is CryptoError {
        Ok::<Option<RecordView>, Error>(None)
    } else {
        Err(e)
    })
    &&& out.result is Ok && !is_cid ==> {
        &&& mid.replay_step(sequence, post)
        &&& r matches Ok(Some(v)) && is_opened(v, t, nonce_len, out, t[0], out.text.len() as int)
    }
    &&& forall|k: int|
        out.result is Ok && is_cid && #[trigger] inner_type_at(out.text, k) ==> {
            &&& mid.replay_step(sequence, post)
            &&& r matches Ok(Some(v)) && is_opened(v, t, nonce_len, out, out.text[k], k)
        }
    &&& out.result is Ok && is_cid && (forall|k: int| !inner_type_at(out.text, k)) ==> post == mid
        && r == Ok::<Option<RecordView>, Error>(None)
}

proof fn lemma_rewritten(
    t: Seq<u8>,
    nonce_len: nat,
    out: Opened,
    inner: Option<(u8, nat)>,
    code: u8,
    len: nat,
)
    requires
        readable(t, 0),
        t.len() >= 13 + nonce_len,
        out.text.len() + out.tail.len() == t.len() - 13 - nonce_len,
        len <= out.text.len(),
        inner == None::<(u8, nat)> && code == t[0] && len == out.text.len() || inner == Some(
            (code, len),
        ) && !(t[3] == 0 && t[4] == 0),
    ensures
        ({
            let whole = t.take(13 + nonce_len as int) + out.text + out.tail;
            let bytes = incoming::rewritten(whole, out.text.len(), inner);
            &&& bytes.len() == t.len()
            &&& bytes[0] == code
            &&& forall|i: int| 1 <= i < 11 ==> #[trigger] bytes[i] == t[i]
            &&& bytes[11] * 256 + bytes[12] == len as int % 65536
            &&& forall|i: int| 13 <= i < 13 + nonce_len ==> #[trigger] bytes[i] == t[i]
            &&& forall|i: int|
                0 <= i < out.text.len() ==> bytes[13 + nonce_len + i] == #[trigger] out.text[i]
            &&& forall|i: int|
                0 <= i < out.tail.len() ==> bytes[13 + nonce_len + out.text.len() + i]
                    == #[trigger] out.tail[i]
            &&& readable(bytes, nonce_len as int)
        }),
{
    let whole = t.take(13 + nonce_len as int) + out.text + out.tail;
    let bytes = incoming::rewritten(whole, out.text.len(), inner);
    assert(whole.len() == t.len());
    assert(bytes.len() == t.len());
    assert(bytes[11] == (len / 256 % 256) as u8);
    assert(bytes[12] == (len % 256) as u8);
    assert(bytes[11] * 256 + bytes[12] == len as int % 65536);
    assert(len as int % 65536 <= len);
    assert(bytes[3] == t[3] && bytes[4] == t[4]);
}

proof fn lemma_opened(
    t: Seq<u8>,
    nonce_len: nat,
    out: Opened,
    inner: Option<(u8, nat)>,
    code: u8,
    len: nat,
)
    requires
        t.len() <= usize::MAX,
        readable(t, 0),
        t.len() >= 13 + nonce_len,
        out.text.len() + out.tail.len() == t.len() - 13 - nonce_len,
        len <= out.text.len(),
        inner == None::<(u8, nat)> && code == t[0] && len == out.text.len() || inner == Some(
            (code, len),
        ) && !(t[3] == 0 && t[4] == 0),
    ensures
        incoming::reparsed(
            t.take(13 + nonce_len as int) + out.text + out.tail,
            out.text.len(),
            inner,
            nonce_len,
        ) matches Ok(v) && is_opened(v, t, nonce_len as int, out, code, len as int),
{
    let whole = t.take(13 + nonce_len as int) + out.text + out.tail;
    let bytes = incoming::rewritten(whole, out.text.len(), inner);
    lemma_rewritten(t, nonce_len, out, inner, code, len);
    law_record_is_read_from_its_bytes(bytes, nonce_len);
}

/// The bytes behind header and explicit nonce of `t` are decrypted, under the header `dtls`
/// of `t`, which leads to `mid` and `out`, and from there to `post` and `r`. `t` are the
/// bytes of `rec` without the Connection ID.
pub open spec fn is_attempt<H: RecordHandler>(
    pre: H,
    rec: RecordView,
    t: Seq<u8>,
    dtls: DTLSRecord,
    mid: H,
    out: Opened,
    post: H,
    r: Result<Option<RecordView>, Error>,
) -> bool {
    let start = 13 + pre.nonce_len() as int;
    let n = cid_bytes(rec.buffer, pre.cid());
    let inner_len = (t[11] * 256 + t[12] - pre.overhead()) as u16;
    let (aad, nonce) = if rec.buffer[0] == 25 {
        pre.aad_nonce_cid(dtls, t, rec.buffer.subrange(11, 11 + n), inner_len)
    } else {
        pre.aad_nonce(dtls, t)
    };
    &&& is_header(dtls, t, 0)
    &&& pre.decrypt_step(t.skip(start), aad, nonce, mid, out)
    &&& out.text.len() + out.tail.len() == t.len() - start
    &&& is_concluded(
        mid,
        rec.buffer[0] == 25,
        rec.record.sequence,
        t,
        pre.nonce_len() as int,
        out,
        post,
        r,
    )
}

/// What becomes of an encrypted record that is decrypted, by its bytes. `t` are the bytes
/// without the Connection ID.
///
/// The bytes behind header and explicit nonce are handed to decryption, with the additional
/// data and the nonce that the association makes of the header, the bytes, the Connection
/// ID and the number of bytes that the overhead leaves. A failed decryption drops the
/// record, and any other error is reported; the replay window hears of neither. So is a
/// record with a Connection ID whose plaintext does not end in a type that may stand there
/// and zeros. Otherwise the replay window hears of the sequence of the record, and the
/// record is handed on with its plaintext, under its type or the one inside.
#[verifier::rlimit(60)]
pub proof fn law_decryption_by_bytes<H: RecordHandler>(
    pre: H,
    rec: RecordView,
    t: Seq<u8>,
    post: H,
    r: Result<Option<RecordView>, Error>,
)
    requires
        incoming::within_limits(pre.cid(), pre.nonce_len(), pre.overhead()),
        0 < rec.buffer.len() <= usize::MAX,
        rec.buffer[0] == 25 ==> rec.buffer.len() >= 11 + cid_bytes(rec.buffer, pre.cid()),
        is_cut(t, rec.buffer, cid_bytes(rec.buffer, pre.cid())),
        fits_association(pre, rec),
        readable(t, 0),
        pre.overhead() <= t[11] * 256 + t[12] <= pre.overhead() + 16384,
        incoming::decrypt_run(pre, rec, post, r),
    ensures
        exists|dtls: DTLSRecord, mid: H, out: Opened| #[trigger]
            is_attempt(pre, rec, t, dtls, mid, out, post, r),
{
    law_admission_by_bytes(pre, rec, t);
    if let Admission::Decrypt { is_cid, sequence, buffer, dtls, wire_cid, inner_len } =
        incoming::admission(pre, rec) {
        let ciph = 13 + pre.nonce_len() as int;
        let params = incoming::record_aad_nonce(pre, is_cid, dtls, buffer, wire_cid, inner_len);
        let (aad, nonce) = params;
        let (mid, out) = choose|mid: H, out: Opened|
            {
                &&& #[trigger] pre.decrypt_step(t.skip(ciph), aad, nonce, mid, out)
                &&& out.text.len() + out.tail.len() == t.skip(ciph).len()
                &&& incoming::concluded(
                    mid,
                    is_cid,
                    sequence,
                    t.take(ciph),
                    pre.nonce_len(),
                    out,
                    post,
                    r,
                )
            };
        assert(t[0] == rec.buffer[0]);
        assert(is_concluded(
            mid,
            is_cid,
            sequence,
            t,
            pre.nonce_len() as int,
            out,
            post,
            r,
        )) by {
            if out.result is Ok {
                if !is_cid {
                    lemma_opened(t, pre.nonce_len(), out, None, t[0], out.text.len());
                } else {
                    assert forall|k: int| #[trigger] inner_type_at(out.text, k) implies {
                        &&& mid.replay_step(sequence, post)
                        &&& r matches Ok(Some(v)) && is_opened(
                            v,
                            t,
                            pre.nonce_len() as int,
                            out,
                            out.text[k],
                            k,
                        )
                    } by {
                        law_inner_record_by_bytes(out.text, k);
                        lemma_opened(
                            t,
                            pre.nonce_len(),
                            out,
                            Some((out.text[k], k as nat)),
                            out.text[k],
                            k as nat,
                        );
                    }
                    law_inner_record_by_bytes(out.text, 0);
                }
            }
        }
        assert(is_attempt(pre, rec, t, dtls, mid, out, post, r));
    }
}

} // verus!
