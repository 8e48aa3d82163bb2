//! What holds of every incoming datagram.

use vstd::prelude::*;

use super::framing;
use super::framing::Frame;
use super::incoming;
use super::incoming::{Admission, Opened, RecordHandler, RecordView};
use crate::error::Error;
use crate::types::ContentType;
use crate::wire;

verus! {

/// A `tls12_cid` record of epoch 0 is dropped whatever the association is like: a
/// Connection ID stands in encrypted records only (RFC 9146 §3).
pub proof fn law_epoch_0_cid_is_dropped<H: RecordHandler>(
    pre: H,
    s: Seq<u8>,
    post: H,
    r: Result<Option<RecordView>, Error>,
)
    requires
        s.len() >= 11 + incoming::cid_len_of(pre, s[0]),
        s[0] == 25,
        wire::u16_at(s, 3) == 0,
        incoming::record_run(pre, s, post, r),
    ensures
        post == pre,
        r == Ok::<Option<RecordView>, Error>(None),
{
    reveal(incoming::record_run);
    let cid_len = incoming::cid_len_of(pre, s[0]);
    let t = incoming::without_cid(s, cid_len);
    assert(t[0] == s[0] && t[3] == s[3] && t[4] == s[4]);
    assert(super::message::record::record_in(t, 0, 0) is Err);
}

/// Where a Connection ID is expected, an encrypted record without one is dropped and
/// nothing changes (RFC 9146 §3).
pub proof fn law_legacy_framing_is_dropped<H: RecordHandler>(
    pre: H,
    rec: RecordView,
    post: H,
    r: Result<Option<RecordView>, Error>,
)
    requires
        rec.buffer.len() > 0,
        rec.buffer[0] != 25,
        pre.cid() is Some,
        incoming::decrypt_run(pre, rec, post, r),
    ensures
        post == pre,
        r == Ok::<Option<RecordView>, Error>(None),
{
}

/// A record that the replay window does not admit is dropped and nothing changes.
pub proof fn law_replayed_record_is_dropped<H: RecordHandler>(
    pre: H,
    rec: RecordView,
    post: H,
    r: Result<Option<RecordView>, Error>,
)
    requires
        rec.buffer.len() > 0,
        !pre.fresh(rec.record.sequence),
        incoming::decrypt_run(pre, rec, post, r),
    ensures
        post == pre,
        r == Ok::<Option<RecordView>, Error>(None),
{
}

/// A record with a Connection ID is dropped and nothing changes where inbound
/// Connection IDs are not active.
pub proof fn law_inactive_cid_is_dropped<H: RecordHandler>(
    pre: H,
    rec: RecordView,
    post: H,
    r: Result<Option<RecordView>, Error>,
)
    requires
        rec.buffer.len() > 0,
        rec.buffer[0] == 25,
        pre.armed_cid() is None,
        incoming::decrypt_run(pre, rec, post, r),
    ensures
        post == pre,
        r == Ok::<Option<RecordView>, Error>(None),
{
}

/// A record whose Connection ID is not the expected one is dropped and nothing
/// changes, before and after the peer's encryption is enabled.
pub proof fn law_other_cid_is_dropped<H: RecordHandler>(
    pre: H,
    s: Seq<u8>,
    post: H,
    r: Result<Option<RecordView>, Error>,
)
    requires
        pre.cid() matches Some(c) && c.len() > 0 && s.len() >= 11 + c.len() && s.subrange(
            11,
            11 + c.len() as int,
        ) != c,
        pre.armed_cid() is Some ==> pre.armed_cid() == pre.cid(),
        s[0] == 25,
        incoming::record_run(pre, s, post, r),
    ensures
        post == pre,
        r == Ok::<Option<RecordView>, Error>(None),
{
    reveal(incoming::record_run);
    let cid_len = incoming::cid_len_of(pre, s[0]);
    let t = incoming::without_cid(s, cid_len);
    if let Ok((record, handshakes)) = incoming::parsed_in(t, 0) {
        if record.sequence.epoch == 0 {
            assert(t[0] == s[0]);
            assert(record.content_type == ContentType::of_code(t[0]));
        }
    }
}

/// A record that comes before the peer's encryption is enabled is handed on with its
/// bytes as they came, a Connection ID included, and nothing changes: it can be parsed
/// again from them later.
pub proof fn law_early_record_keeps_its_bytes<H: RecordHandler>(
    pre: H,
    s: Seq<u8>,
    post: H,
    v: RecordView,
)
    requires
        s.len() > 0,
        !pre.encrypted(),
        incoming::record_run(pre, s, post, Ok(Some(v))),
    ensures
        post == pre,
        v.buffer == s,
        !v.handled,
{
    reveal(incoming::record_run);
}

/// An encrypted record that would hold more than 2^14 bytes of plaintext, or that is
/// too short for the AEAD overhead, is not decrypted.
pub proof fn law_plaintext_length_is_bounded<H: RecordHandler>(h: H, rec: RecordView)
    requires
        rec.buffer.len() > 0,
    ensures
        incoming::admission(h, rec) matches Admission::Decrypt { dtls, inner_len, .. } ==> {
            &&& inner_len + h.overhead() == dtls.length
            &&& inner_len <= super::DTLS12_MAX_PLAINTEXT_LEN
        },
{
}

/// The Connection ID of a record that is decrypted is the active one.
pub proof fn law_decrypted_cid_is_the_active_one<H: RecordHandler>(h: H, rec: RecordView)
    requires
        rec.buffer.len() >= 11 + incoming::cid_len_of(h, rec.buffer[0]),
        rec.buffer[0] == 25,
        h.cid() matches Some(c) && c.len() > 0,
    ensures
        incoming::admission(h, rec) matches Admission::Decrypt { wire_cid, .. } ==> Some(wire_cid)
            == h.armed_cid(),
{
}

/// Where a record is dropped, the replay window is not told of it: the association
/// is as it was, or as the attempt to decrypt left it.
pub proof fn law_dropped_record_keeps_the_window<H: RecordHandler>(
    pre: H,
    rec: RecordView,
    post: H,
)
    requires
        rec.buffer.len() > 0,
        incoming::decrypt_run(pre, rec, post, Ok(None)),
    ensures
        post == pre || exists|ciphertext: Seq<u8>, aad: Seq<u8>, nonce: Seq<u8>, out: Opened|
            #[trigger] pre.decrypt_step(ciphertext, aad, nonce, post, out),
{
    if let Admission::Decrypt { buffer, dtls, wire_cid, inner_len, .. } = incoming::admission(
        pre,
        rec,
    ) {
        let is_cid = rec.buffer[0] == 25;
        let ciph = 13 + pre.nonce_len() as int;
        let params = incoming::record_aad_nonce(pre, is_cid, dtls, buffer, wire_cid, inner_len);
        let head = buffer.take(ciph);
        let ciphertext = buffer.skip(ciph);
        let (mid, out) = choose|mid: H, out: Opened|
            {
                &&& #[trigger] pre.decrypt_step(ciphertext, params.0, params.1, mid, out)
                &&& out.text.len() + out.tail.len() == ciphertext.len()
                &&& incoming::concluded(
                    mid,
                    is_cid,
                    rec.record.sequence,
                    head,
                    pre.nonce_len(),
                    out,
                    post,
                    Ok(None),
                )
            };
        assert(pre.decrypt_step(ciphertext, params.0, params.1, mid, out));
        assert(post == mid);
    }
}

/// A record that is handed on after decryption was authenticated first, and only then
/// told to the replay window.
pub proof fn law_window_follows_authentication<H: RecordHandler>(
    pre: H,
    rec: RecordView,
    post: H,
    v: RecordView,
)
    requires
        rec.buffer.len() > 0,
        incoming::decrypt_run(pre, rec, post, Ok(Some(v))),
    ensures
        exists|ciphertext: Seq<u8>, aad: Seq<u8>, nonce: Seq<u8>, mid: H, out: Opened|
            {
                &&& #[trigger] pre.decrypt_step(ciphertext, aad, nonce, mid, out)
                &&& out.result is Ok
                &&& mid.replay_step(rec.record.sequence, post)
            },
{
    if let Admission::Decrypt { buffer, dtls, wire_cid, inner_len, .. } = incoming::admission(
        pre,
        rec,
    ) {
        let is_cid = rec.buffer[0] == 25;
        let ciph = 13 + pre.nonce_len() as int;
        let params = incoming::record_aad_nonce(pre, is_cid, dtls, buffer, wire_cid, inner_len);
        let head = buffer.take(ciph);
        let ciphertext = buffer.skip(ciph);
        let (mid, out) = choose|mid: H, out: Opened|
            {
                &&& #[trigger] pre.decrypt_step(ciphertext, params.0, params.1, mid, out)
                &&& out.text.len() + out.tail.len() == ciphertext.len()
                &&& incoming::concluded(
                    mid,
                    is_cid,
                    rec.record.sequence,
                    head,
                    pre.nonce_len(),
                    out,
                    post,
                    Ok(Some(v)),
                )
            };
        assert(pre.decrypt_step(ciphertext, params.0, params.1, mid, out));
    }
}

/// Decryption is in place: a record that is handed on after it is as long as the one
/// that came, less the Connection ID.
pub proof fn law_decrypted_record_keeps_its_length<H: RecordHandler>(
    pre: H,
    rec: RecordView,
    post: H,
    v: RecordView,
)
    requires
        incoming::within_limits(pre.cid(), pre.nonce_len(), pre.overhead()),
        rec.buffer.len() > 0,
        rec.buffer[0] == 25 ==> rec.buffer.len() >= 11 + incoming::cid_len_of(pre, 25),
        incoming::decrypt_run(pre, rec, post, Ok(Some(v))),
    ensures
        v.buffer.len() == rec.buffer.len() - incoming::cid_len_of(pre, rec.buffer[0]),
{
    if let Admission::Decrypt { is_cid, sequence, buffer, dtls, wire_cid, inner_len } =
        incoming::admission(pre, rec) {
        let ciph = 13 + pre.nonce_len() as int;
        let params = incoming::record_aad_nonce(pre, is_cid, dtls, buffer, wire_cid, inner_len);
        let head = buffer.take(ciph);
        let ciphertext = buffer.skip(ciph);
        assert(buffer.len() == rec.buffer.len() - incoming::cid_len_of(pre, rec.buffer[0]));
        let (mid, out) = choose|mid: H, out: Opened|
            {
                &&& #[trigger] pre.decrypt_step(ciphertext, params.0, params.1, mid, out)
                &&& out.text.len() + out.tail.len() == ciphertext.len()
                &&& incoming::concluded(
                    mid,
                    is_cid,
                    sequence,
                    head,
                    pre.nonce_len(),
                    out,
                    post,
                    Ok(Some(v)),
                )
            };
        assert((head + out.text + out.tail).len() == buffer.len());
        assert(v.buffer.len() == buffer.len());
    }
}

/// A record that came with a Connection ID is handed on, after decryption, under the
/// content type that was inside: a known one, other than `tls12_cid` and `ack`.
pub proof fn law_inner_type_is_surfaced<H: RecordHandler>(
    pre: H,
    rec: RecordView,
    post: H,
    v: RecordView,
)
    requires
        incoming::within_limits(pre.cid(), pre.nonce_len(), pre.overhead()),
        rec.buffer.len() >= 11 + incoming::cid_len_of(pre, rec.buffer[0]),
        rec.buffer[0] == 25,
        incoming::decrypt_run(pre, rec, post, Ok(Some(v))),
    ensures
        v.buffer.len() >= 13,
        v.record.content_type == ContentType::of_code(v.buffer[0]),
        v.record.content_type !is Tls12Cid,
        v.record.content_type !is Ack,
        v.record.content_type !is Unknown,
{
    if let Admission::Decrypt { buffer, dtls, wire_cid, inner_len, .. } = incoming::admission(
        pre,
        rec,
    ) {
        let ciph = 13 + pre.nonce_len() as int;
        let params = incoming::record_aad_nonce(pre, true, dtls, buffer, wire_cid, inner_len);
        let head = buffer.take(ciph);
        let ciphertext = buffer.skip(ciph);
        let (mid, out) = choose|mid: H, out: Opened|
            {
                &&& #[trigger] pre.decrypt_step(ciphertext, params.0, params.1, mid, out)
                &&& out.text.len() + out.tail.len() == ciphertext.len()
                &&& incoming::concluded(
                    mid,
                    true,
                    rec.record.sequence,
                    head,
                    pre.nonce_len(),
                    out,
                    post,
                    Ok(Some(v)),
                )
            };
        let inner = incoming::inner_record(out.text);
        let whole = head + out.text + out.tail;
        let bytes = incoming::rewritten(whole, out.text.len(), inner);
        assert(v.buffer == bytes);
        assert(whole.len() >= 13);
        assert(bytes[0] == (inner->0).0);
    }
}

/// Malformed `tls12_cid` framing never makes a datagram incomplete (RFC 9146 §6).
pub proof fn law_malformed_cid_is_no_error(p: Seq<u8>, cid_len: Option<nat>)
    requires
        p.len() > 0,
    ensures
        framing::frame_of(p, cid_len) == Frame::Incomplete ==> p[0] != 25,
{
}

/// What is passed over is a whole record, and behind it stands the header of another,
/// with a known content type.
pub proof fn law_skip_lands_on_a_header(p: Seq<u8>, cid_len: Option<nat>)
    requires
        p.len() > 0,
        p.len() <= usize::MAX,
    ensures
        framing::frame_of(p, cid_len) matches Frame::Skip(n) ==> {
            &&& 13 <= n
            &&& n + 13 <= p.len()
            &&& framing::plausible_type(p[n as int])
            &&& cid_len is None
        },
{
}

/// Where no Connection ID is negotiated, a `tls12_cid` record without one, followed by
/// a record that is whole and has a known type, has no effect on the datagram.
pub proof fn law_stray_record_is_passed_over<H: RecordHandler>(
    pre: H,
    cid_len: nat,
    stray: Seq<u8>,
    rest: Seq<u8>,
    found: Seq<RecordView>,
    post: H,
    r: Result<Seq<RecordView>, Error>,
)
    requires
        pre.cid() is None,
        stray.len() >= 13,
        stray[0] == 25,
        stray.len() == 13 + wire::u16_at(stray, 11),
        rest.len() >= 13,
        rest[0] != 25,
        framing::plausible_type(rest[0]),
        rest.len() >= 13 + wire::u16_at(rest, 11),
        stray.len() + rest.len() <= usize::MAX,
    ensures
        incoming::parse_run(pre, cid_len, stray + rest, found, post, r) == incoming::parse_run(
            pre,
            cid_len,
            rest,
            found,
            post,
            r,
        ),
{
    let p = stray + rest;
    let n = stray.len() as int;
    assert(p[11] == stray[11] && p[12] == stray[12]);
    assert(p[n] == rest[0]);
    assert(p[n + 11] == rest[11] && p[n + 12] == rest[12]);
    assert(framing::frame_of(p, None) == Frame::Skip(n as usize));
    assert(p.skip(n) =~= rest);
    incoming::lemma_parse_skip(pre, cid_len, p, n as usize, found, post, r);
}

/// Where no Connection ID is negotiated, a `tls12_cid` record behind which no plausible
/// header follows ends the datagram: only what was found before it is handed on.
pub proof fn law_lost_framing_ends_the_datagram<H: RecordHandler>(
    pre: H,
    cid_len: nat,
    p: Seq<u8>,
    found: Seq<RecordView>,
    post: H,
    r: Result<Seq<RecordView>, Error>,
)
    requires
        pre.cid() is None,
        p.len() > 0,
        p[0] == 25,
        p.len() >= 13 ==> {
            let end = 13 + wire::u16_at(p, 11);
            p.len() < end + 13 || !framing::plausible_type(p[end])
        },
    ensures
        incoming::parse_run(pre, cid_len, p, found, post, r) == incoming::classify_run(
            pre,
            found,
            Seq::empty(),
            post,
            r,
        ),
{
    incoming::lemma_parse_end(pre, cid_len, p, found, post, r);
}

/// `good` is made of whole records, where those of type `tls12_cid` carry `cid_len`
/// bytes of Connection ID.
pub open spec fn whole_records(good: Seq<u8>, cid_len: nat) -> bool
    decreases good.len(),
{
    good.len() == 0 || match framing::frame_of(good, Some(cid_len)) {
        Frame::Record(n) => 0 < n <= good.len() && whole_records(good.skip(n as int), cid_len),
        _ => false,
    }
}

/// The association expects a Connection ID in `pre`, and still does after each of the
/// records `good`, one after the other.
pub open spec fn keeps_cid<H: RecordHandler>(pre: H, good: Seq<u8>, cid_len: nat) -> bool
    decreases good.len(),
{
    pre.cid() is Some && (good.len() == 0 || match framing::frame_of(good, Some(cid_len)) {
        Frame::Record(n) => 0 < n <= good.len() && forall|
            mid: H,
            out: Result<Option<RecordView>, Error>,
        | #[trigger]
            incoming::record_run(pre, good.take(n as int), mid, out) && out is Ok ==> keeps_cid(
                mid,
                good.skip(n as int),
                cid_len,
            ),
        _ => true,
    })
}

/// `tail` starts a `tls12_cid` record that it does not hold in full: the header with
/// `cid_len` bytes of Connection ID, or what its length announces, is cut short.
pub open spec fn malformed_cid(tail: Seq<u8>, cid_len: nat) -> bool {
    &&& tail.len() > 0
    &&& tail[0] == 25
    &&& tail.len() < 13 + cid_len || tail.len() < 13 + cid_len + wire::u16_at(
        tail,
        11 + cid_len as int,
    )
}

/// A malformed `tls12_cid` record behind whole records is dropped, and does nothing to
/// what the records before it give (RFC 9146 §6): the datagram ends as if it were not
/// there. In particular it never makes the datagram incomplete.
///
/// An association that gives its Connection ID up on the way is left out: from there on
/// the record counts as one that was not asked for.
pub proof fn law_malformed_cid_tail_is_dropped<H: RecordHandler>(
    pre: H,
    cid_len: nat,
    good: Seq<u8>,
    tail: Seq<u8>,
    found: Seq<RecordView>,
    post: H,
    r: Result<Seq<RecordView>, Error>,
)
    requires
        whole_records(good, cid_len),
        keeps_cid(pre, good, cid_len),
        malformed_cid(tail, cid_len),
        good.len() + tail.len() <= usize::MAX,
    ensures
        incoming::parse_run(pre, cid_len, good + tail, found, post, r) == incoming::parse_run(
            pre,
            cid_len,
            good,
            found,
            post,
            r,
        ),
    decreases good.len(),
{
    let p = good + tail;
    if good.len() == 0 {
        assert(p =~= tail);
        incoming::lemma_parse_end(pre, cid_len, p, found, post, r);
        incoming::lemma_parse_end(pre, cid_len, good, found, post, r);
    } else {
        let n = framing::frame_of(good, Some(cid_len))->Record_0;
        let first = good.take(n as int);
        let rest = good.skip(n as int);
        lemma_frame_of_prefix(good, tail, cid_len);
        assert(p.take(n as int) =~= first);
        assert(p.skip(n as int) =~= rest + tail);
        // Whatever the first record leads to, the rest is parsed alike.
        assert forall|mid: H, out: Result<Option<RecordView>, Error>| #[trigger]
            incoming::record_run(pre, first, mid, out) implies incoming::parse_next(
            mid,
            cid_len,
            out,
            rest + tail,
            found,
            post,
            r,
        ) == incoming::parse_next(mid, cid_len, out, rest, found, post, r) by {
            incoming::lemma_parse_next(mid, cid_len, out, rest + tail, found, post, r);
            incoming::lemma_parse_next(mid, cid_len, out, rest, found, post, r);
            match out {
                Ok(Some(v)) => law_malformed_cid_tail_is_dropped(
                    mid,
                    cid_len,
                    rest,
                    tail,
                    found.push(v),
                    post,
                    r,
                ),
                Ok(None) => law_malformed_cid_tail_is_dropped(
                    mid,
                    cid_len,
                    rest,
                    tail,
                    found,
                    post,
                    r,
                ),
                Err(_) => {},
            }
        }
        incoming::lemma_parse_by_record(pre, cid_len, p, n, found, post, r);
        incoming::lemma_parse_by_record(pre, cid_len, good, n, found, post, r);
    }
}

/// What follows a whole record does not change its frame.
proof fn lemma_frame_of_prefix(good: Seq<u8>, tail: Seq<u8>, cid_len: nat)
    requires
        good.len() > 0,
        framing::frame_of(good, Some(cid_len)) is Record,
        good.len() + tail.len() <= usize::MAX,
    ensures
        framing::frame_of(good + tail, Some(cid_len)) == framing::frame_of(good, Some(cid_len)),
{
    let p = good + tail;
    let header_len = if good[0] == 25 {
        13 + cid_len as int
    } else {
        13
    };
    assert(p[0] == good[0]);
    assert(p[header_len - 2] == good[header_len - 2]);
    assert(p[header_len - 1] == good[header_len - 1]);
}

/// A record that is dropped does not end the datagram: the rest is parsed as if it had
/// come alone, from the state that the dropped record left.
pub proof fn law_drop_does_not_end_the_datagram<H: RecordHandler>(
    pre: H,
    cid_len: nat,
    p: Seq<u8>,
    n: usize,
    mid: H,
    found: Seq<RecordView>,
    post: H,
    r: Result<Seq<RecordView>, Error>,
)
    requires
        0 < n <= p.len(),
        framing::frame_of(p, framing::framed_cid(pre.cid(), cid_len)) == Frame::Record(n),
        incoming::record_run(pre, p.take(n as int), mid, Ok(None)),
        incoming::parse_run(mid, cid_len, p.skip(n as int), found, post, r),
    ensures
        incoming::parse_run(pre, cid_len, p, found, post, r),
{
    incoming::lemma_parse_next(mid, cid_len, Ok(None), p.skip(n as int), found, post, r);
    incoming::lemma_parse_record(pre, cid_len, p, n, mid, Ok(None), found, post, r);
}

/// Classification hands on no more records than it is given.
proof fn lemma_classify_count<H: RecordHandler>(
    pre: H,
    todo: Seq<RecordView>,
    kept: Seq<RecordView>,
    post: H,
    list: Seq<RecordView>,
)
    requires
        incoming::classify_run(pre, todo, kept, post, Ok(list)),
    ensures
        list.len() <= kept.len() + todo.len(),
    decreases todo.len(),
{
    reveal(incoming::classify_run);
    reveal(incoming::classify_next);
    if todo.len() > 0 {
        let (mid, out) = choose|mid: H, out: Result<Option<RecordView>, Error>|
            {
                &&& #[trigger] pre.classify_step(todo[0], mid, out)
                &&& incoming::classify_next(mid, out, todo.skip(1), kept, post, Ok(list))
            };
        incoming::lemma_classify_next(mid, out, todo.skip(1), kept, post, Ok(list));
        match out {
            Ok(Some(v)) => lemma_classify_count(mid, todo.skip(1), kept.push(v), post, list),
            Ok(None) => lemma_classify_count(mid, todo.skip(1), kept, post, list),
            Err(_) => {},
        }
    }
}

/// A datagram gives at most 8 records.
pub proof fn law_at_most_eight_records<H: RecordHandler>(
    pre: H,
    cid_len: nat,
    p: Seq<u8>,
    found: Seq<RecordView>,
    post: H,
    list: Seq<RecordView>,
)
    requires
        found.len() <= 8,
        incoming::parse_run(pre, cid_len, p, found, post, Ok(list)),
    ensures
        list.len() <= 8,
    decreases p.len(),
{
    reveal(incoming::parse_run);
    reveal(incoming::parse_next);
    if p.len() == 0 {
        lemma_classify_count(pre, found, Seq::empty(), post, list);
    } else {
        match framing::frame_of(p, framing::framed_cid(pre.cid(), cid_len)) {
            Frame::Discard => lemma_classify_count(pre, found, Seq::empty(), post, list),
            Frame::Incomplete => {},
            Frame::Skip(n) => {
                let rest = p.skip(n as int);
                law_at_most_eight_records(pre, cid_len, rest, found, post, list);
            },
            Frame::Record(n) => {
                let rest = p.skip(n as int);
                let (mid, out) = choose|mid: H, out: Result<Option<RecordView>, Error>|
                    {
                        &&& #[trigger] incoming::record_run(pre, p.take(n as int), mid, out)
                        &&& incoming::parse_next(mid, cid_len, out, rest, found, post, Ok(list))
                    };
                incoming::lemma_parse_next(mid, cid_len, out, rest, found, post, Ok(list));
                match out {
                    Ok(Some(v)) => {
                        law_at_most_eight_records(mid, cid_len, rest, found.push(v), post, list);
                    },
                    Ok(None) => {
                        law_at_most_eight_records(mid, cid_len, rest, found, post, list);
                    },
                    Err(_) => {},
                }
            },
        }
    }
}

/// The fragment of a record that was read lies within the bytes it was read from, and
/// is as long as the header says.
pub proof fn law_fragment_lies_in_the_record(s: Seq<u8>, base: nat, skip: nat)
    requires
        base + s.len() <= usize::MAX,
    ensures
        super::message::record::record_in(s, base, skip) matches Ok(record) ==> {
            &&& base + 13 + skip == record.fragment_range.start
            &&& record.fragment_range.end <= base + s.len()
            &&& record.fragment_range.end - record.fragment_range.start == record.length
        },
{
}

/// The handshake fragments of a record are at most as many as there is room for, none is
/// marked as handled, and their bodies lie in the bytes they were read from, one behind
/// the other.
pub proof fn law_handshake_bodies_lie_in_the_record(s: Seq<u8>, base: nat, room: nat)
    requires
        base + s.len() <= usize::MAX,
    ensures
        incoming::handshakes_in(s, base, room).len() <= room,
        forall|i: int|
            0 <= i < incoming::handshakes_in(s, base, room).len() ==> {
                let h = #[trigger] incoming::handshakes_in(s, base, room)[i];
                &&& base + 12 <= h.body_range.start
                &&& h.body_range.start <= h.body_range.end <= base + s.len()
                &&& h.body_range.end - h.body_range.start == h.fragment_length
                &&& !h.handled
            },
        forall|i: int, j: int|
            0 <= i < j < incoming::handshakes_in(s, base, room).len() ==> #[trigger]
                incoming::handshakes_in(s, base, room)[i].body_range.end + 12
                    <= #[trigger] incoming::handshakes_in(s, base, room)[j].body_range.start,
    decreases room,
{
    let all = incoming::handshakes_in(s, base, room);
    if room > 0 && s.len() > 0 {
        if let Ok(h) = super::message::handshake::handshake_in(s, base) {
            let used = (12 + h.fragment_length) as nat;
            let less = (room - 1) as nat;
            let rest = s.skip(used as int);
            law_handshake_bodies_lie_in_the_record(rest, base + used, less);
            let tail = incoming::handshakes_in(rest, base + used, less);
            assert(all == seq![h] + tail);
            assert(all[0] == h);
            assert forall|i: int| 0 <= i < all.len() implies {
                let h = #[trigger] all[i];
                &&& base + 12 <= h.body_range.start
                &&& h.body_range.start <= h.body_range.end <= base + s.len()
                &&& h.body_range.end - h.body_range.start == h.fragment_length
                &&& !h.handled
            } by {
                if i > 0 {
                    assert(all[i] == tail[i - 1]);
                }
            }
            assert forall|i: int, j: int| 0 <= i < j < all.len() implies #[trigger]
                all[i].body_range.end + 12 <= #[trigger] all[j].body_range.start by {
                assert(all[j] == tail[j - 1]);
                if i > 0 {
                    assert(all[i] == tail[i - 1]);
                }
            }
        }
    }
}

} // verus!
