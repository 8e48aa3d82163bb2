//! What holds of every datagram, in terms of its bytes.

use vstd::prelude::*;

use super::framing;
use super::framing::Frame;
use super::incoming;
use super::incoming::{Incoming, Record, RecordHandler, RecordView, Records};
use crate::error::Error;

verus! {

/// The number in the two bytes of `p` at `i`, the more significant one first.
pub open spec fn number_at(p: Seq<u8>, i: int) -> int {
    p[i] * 256 + p[i + 1]
}

/// How a datagram goes on is told by its first header.
///
/// A record without a Connection ID has a header of 13 bytes, which end in its length. It
/// is there in full, or the datagram is incomplete. A record with a Connection ID has the
/// Connection ID before the length. It is there in full, or it is dropped with all that
/// follows. Where no Connection ID is expected, it is passed over as if it had none, but
/// only where another header follows, of a known type and, but for another one with a
/// Connection ID, with a length that the datagram holds; else it is dropped with all that
/// follows.
pub proof fn law_frame_by_bytes(p: Seq<u8>, cid_len: Option<nat>)
    requires
        0 < p.len() <= usize::MAX,
    ensures
        p[0] != 25 ==> {
            let end = 13 + number_at(p, 11);
            &&& p.len() >= 13 && p.len() >= end ==> framing::frame_of(p, cid_len) == Frame::Record(
                end as usize,
            )
            &&& p.len() < 13 || p.len() < end ==> framing::frame_of(p, cid_len) == Frame::Incomplete
        },
        p[0] == 25 && cid_len is Some ==> {
            let header_len = 13 + cid_len->0 as int;
            let end = header_len + number_at(p, header_len - 2);
            &&& p.len() >= header_len && p.len() >= end ==> framing::frame_of(p, cid_len)
                == Frame::Record(end as usize)
            &&& p.len() < header_len || p.len() < end ==> framing::frame_of(p, cid_len)
                == Frame::Discard
        },
        p[0] == 25 && cid_len is None ==> {
            let end = 13 + number_at(p, 11);
            let passed = p.len() >= 13 && p.len() >= end + 13 && (p[end] == 25 || (p[end] == 20
                || p[end] == 21 || p[end] == 22 || p[end] == 23) && p.len() >= end + 13 + number_at(
                p,
                end + 11,
            ));
            &&& passed ==> framing::frame_of(p, cid_len) == Frame::Skip(end as usize)
            &&& !passed ==> framing::frame_of(p, cid_len) == Frame::Discard
        },
{
}

/// `first` is one whole record: without a Connection ID, or with the `cid_len` bytes of one
/// that is expected.
pub open spec fn one_record(first: Seq<u8>, expected: bool, cid_len: nat) -> bool {
    &&& first.len() >= 13
    &&& first[0] != 25 ==> first.len() == 13 + number_at(first, 11)
    &&& first[0] == 25 ==> expected && first.len() >= 13 + cid_len && first.len() == 13 + cid_len
        + number_at(first, 11 + cid_len as int)
}

/// After a record led to `mid` and `out`, with `found` before it, its datagram goes on with
/// `rest`: an error ends it, a record that is dropped does not, and a ninth record is one
/// too many.
pub open spec fn goes_on<H: RecordHandler>(
    mid: H,
    cid_len: nat,
    out: Result<Option<RecordView>, Error>,
    rest: Seq<u8>,
    found: Seq<RecordView>,
    post: H,
    r: Result<Seq<RecordView>, Error>,
) -> bool {
    match out {
        Err(e) => post == mid && r == Err::<Seq<RecordView>, Error>(e),
        Ok(None) => incoming::parse_run(mid, cid_len, rest, found, post, r),
        Ok(Some(v)) => if found.len() < 8 {
            incoming::parse_run(mid, cid_len, rest, found.push(v), post, r)
        } else {
            post == mid && r == Err::<Seq<RecordView>, Error>(Error::TooManyRecords)
        },
    }
}

/// A datagram is parsed record by record: one that starts with a whole record is parsed by
/// parsing that record, and then what follows, from the state that it left.
pub proof fn law_datagram_is_parsed_record_by_record<H: RecordHandler>(
    pre: H,
    cid_len: nat,
    first: Seq<u8>,
    rest: Seq<u8>,
    found: Seq<RecordView>,
    post: H,
    r: Result<Seq<RecordView>, Error>,
)
    requires
        one_record(first, pre.cid() is Some, cid_len),
        first.len() + rest.len() <= usize::MAX,
        found.len() <= 8,
    ensures
        incoming::parse_run(pre, cid_len, first + rest, found, post, r) <==> exists|
            mid: H,
            out: Result<Option<RecordView>, Error>,
        |
            {
                &&& #[trigger] incoming::record_run(pre, first, mid, out)
                &&& goes_on(mid, cid_len, out, rest, found, post, r)
            },
{
    let p = first + rest;
    let n = first.len() as int;
    let header_len = if first[0] == 25 {
        13 + cid_len as int
    } else {
        13
    };
    assert(p[0] == first[0]);
    assert(p[header_len - 2] == first[header_len - 2]);
    assert(p[header_len - 1] == first[header_len - 1]);
    law_frame_by_bytes(p, framing::framed_cid(pre.cid(), cid_len));
    assert(p.take(n) =~= first);
    assert(p.skip(n) =~= rest);
    incoming::lemma_parse_by_record(pre, cid_len, p, n as usize, found, post, r);
    assert forall|mid: H, out: Result<Option<RecordView>, Error>| #[trigger]
        incoming::record_run(pre, first, mid, out) implies incoming::parse_next(
        mid,
        cid_len,
        out,
        rest,
        found,
        post,
        r,
    ) == goes_on(mid, cid_len, out, rest, found, post, r) by {
        incoming::lemma_parse_next(mid, cid_len, out, rest, found, post, r);
    }
}

/// A datagram that starts with a record without a Connection ID which it does not hold in
/// full is incomplete, and nothing changes.
pub proof fn law_cut_record_makes_the_datagram_incomplete<H: RecordHandler>(
    pre: H,
    cid_len: nat,
    p: Seq<u8>,
    found: Seq<RecordView>,
    post: H,
    r: Result<Seq<RecordView>, Error>,
)
    requires
        0 < p.len() <= usize::MAX,
        p[0] != 25,
        p.len() < 13 || p.len() < 13 + number_at(p, 11),
        incoming::parse_run(pre, cid_len, p, found, post, r),
    ensures
        post == pre,
        r == Err::<Seq<RecordView>, Error>(Error::ParseIncomplete),
{
    law_frame_by_bytes(p, framing::framed_cid(pre.cid(), cid_len));
    reveal(incoming::parse_run);
    reveal(incoming::parse_next);
}

/// Where a Connection ID is expected, a datagram ends without an error at a record with one
/// that it does not hold in full: what was found before is classified.
pub proof fn law_cut_cid_record_ends_the_datagram<H: RecordHandler>(
    pre: H,
    cid_len: nat,
    p: Seq<u8>,
    found: Seq<RecordView>,
    post: H,
    r: Result<Seq<RecordView>, Error>,
)
    requires
        0 < p.len() <= usize::MAX,
        p[0] == 25,
        pre.cid() is Some,
        p.len() < 13 + cid_len || p.len() < 13 + cid_len + number_at(p, 11 + cid_len as int),
    ensures
        incoming::parse_run(pre, cid_len, p, found, post, r) == incoming::classify_run(
            pre,
            found,
            Seq::empty(),
            post,
            r,
        ),
{
    law_frame_by_bytes(p, framing::framed_cid(pre.cid(), cid_len));
    incoming::lemma_parse_end(pre, cid_len, p, found, post, r);
}

/// Where no Connection ID is expected, a record with one is passed over where a plausible
/// header follows, and ends the datagram elsewhere.
pub proof fn law_unexpected_cid_record<H: RecordHandler>(
    pre: H,
    cid_len: nat,
    p: Seq<u8>,
    found: Seq<RecordView>,
    post: H,
    r: Result<Seq<RecordView>, Error>,
)
    requires
        0 < p.len() <= usize::MAX,
        p[0] == 25,
        pre.cid() is None,
    ensures
        ({
            let end = 13 + number_at(p, 11);
            let passed = p.len() >= 13 && p.len() >= end + 13 && (p[end] == 25 || (p[end] == 20
                || p[end] == 21 || p[end] == 22 || p[end] == 23) && p.len() >= end + 13 + number_at(
                p,
                end + 11,
            ));
            incoming::parse_run(pre, cid_len, p, found, post, r) == if passed {
                incoming::parse_run(pre, cid_len, p.skip(end), found, post, r)
            } else {
                incoming::classify_run(pre, found, Seq::empty(), post, r)
            }
        }),
{
    law_frame_by_bytes(p, framing::framed_cid(pre.cid(), cid_len));
    match framing::frame_of(p, framing::framed_cid(pre.cid(), cid_len)) {
        Frame::Skip(n) => incoming::lemma_parse_skip(pre, cid_len, p, n, found, post, r),
        _ => incoming::lemma_parse_end(pre, cid_len, p, found, post, r),
    }
}

/// At the end of a datagram the records that were found in it are classified.
pub proof fn law_end_of_the_datagram<H: RecordHandler>(
    pre: H,
    cid_len: nat,
    found: Seq<RecordView>,
    post: H,
    r: Result<Seq<RecordView>, Error>,
)
    ensures
        incoming::parse_run(pre, cid_len, Seq::empty(), found, post, r) == incoming::classify_run(
            pre,
            found,
            Seq::empty(),
            post,
            r,
        ),
{
    incoming::lemma_parse_end(pre, cid_len, Seq::empty(), found, post, r);
}

/// The records of `outs`, in order.
pub open spec fn survivors(outs: Seq<Option<RecordView>>) -> Seq<RecordView>
    decreases outs.len(),
{
    if outs.len() == 0 {
        Seq::empty()
    } else {
        match outs[0] {
            Some(v) => seq![v] + survivors(outs.skip(1)),
            None => survivors(outs.skip(1)),
        }
    }
}

/// The first records of `todo` were classified one after the other: `states` are the
/// association before the first and after each, `outs` what came back of them.
pub open spec fn classified<H: RecordHandler>(
    todo: Seq<RecordView>,
    states: Seq<H>,
    outs: Seq<Option<RecordView>>,
) -> bool {
    &&& outs.len() <= todo.len()
    &&& states.len() == outs.len() + 1
    &&& forall|k: int|
        0 <= k < outs.len() ==> (#[trigger] states[k]).classify_step(
            todo[k],
            states[k + 1],
            Ok(outs[k]),
        )
}

/// Every record is classified, one after the other, from the state that the one before it
/// left. Those that come back are kept, in order. The first error ends it, and is reported.
pub proof fn law_records_are_classified_in_order<H: RecordHandler>(
    pre: H,
    todo: Seq<RecordView>,
    kept: Seq<RecordView>,
    post: H,
    r: Result<Seq<RecordView>, Error>,
)
    requires
        incoming::classify_run(pre, todo, kept, post, r),
    ensures
        r matches Ok(list) ==> exists|states: Seq<H>, outs: Seq<Option<RecordView>>|
            {
                &&& #[trigger] classified(todo, states, outs)
                &&& outs.len() == todo.len()
                &&& states[0] == pre
                &&& states.last() == post
                &&& list == kept + survivors(outs)
            },
        r matches Err(e) ==> exists|states: Seq<H>, outs: Seq<Option<RecordView>>|
            {
                &&& #[trigger] classified(todo, states, outs)
                &&& outs.len() < todo.len()
                &&& states[0] == pre
                &&& states.last().classify_step(todo[outs.len() as int], post, Err(e))
            },
    decreases todo.len(),
{
    reveal(incoming::classify_run);
    reveal(incoming::classify_next);
    if todo.len() == 0 {
        let states = seq![pre];
        let outs = Seq::<Option<RecordView>>::empty();
        assert(classified(todo, states, outs));
        assert(kept + survivors(outs) =~= kept);
    } else {
        let rest = todo.skip(1);
        let (mid, out) = choose|mid: H, out: Result<Option<RecordView>, Error>|
            {
                &&& #[trigger] pre.classify_step(todo[0], mid, out)
                &&& incoming::classify_next(mid, out, rest, kept, post, r)
            };
        incoming::lemma_classify_next(mid, out, rest, kept, post, r);
        match out {
            Err(_) => {
                let states = seq![pre];
                let outs = Seq::<Option<RecordView>>::empty();
                assert(classified(todo, states, outs));
                assert(states.last() == pre);
            },
            Ok(o) => {
                let more = match o {
                    Some(v) => kept.push(v),
                    None => kept,
                };
                law_records_are_classified_in_order(mid, rest, more, post, r);
                let (states2, outs2) = choose|states: Seq<H>, outs: Seq<Option<RecordView>>|
                    {
                        &&& #[trigger] classified(rest, states, outs)
                        &&& states[0] == mid
                        &&& r is Ok ==> outs.len() == rest.len() && states.last() == post && r->Ok_0
                            == more + survivors(outs)
                        &&& r is Err ==> outs.len() < rest.len() && states.last().classify_step(
                            rest[outs.len() as int],
                            post,
                            Err(r->Err_0),
                        )
                    };
                let states = seq![pre] + states2;
                let outs = seq![o] + outs2;
                assert(classified(todo, states, outs)) by {
                    assert forall|k: int| 0 <= k < outs.len() implies (
                    #[trigger] states[k]).classify_step(todo[k], states[k + 1], Ok(outs[k])) by {
                        if k == 0 {
                            assert(states[1] == states2[0]);
                        } else {
                            assert(states[k] == states2[k - 1]);
                            assert(states2[k - 1].classify_step(
                                rest[k - 1],
                                states2[k - 1 + 1],
                                Ok(outs2[k - 1]),
                            ));
                            assert(states[k + 1] == states2[k]);
                            assert(outs[k] == outs2[k - 1]);
                            assert(todo[k] == rest[k - 1]);
                        }
                    }
                }
                assert(outs.skip(1) =~= outs2);
                assert(outs[0] == o);
                assert(kept + survivors(outs) =~= more + survivors(outs2));
                assert(states.last() == states2.last());
                assert(states[0] == pre);
                if r is Err {
                    assert(todo[outs.len() as int] == rest[outs2.len() as int]);
                }
            },
        }
    }
}

/// A record with handshake fragments is done where all of them are, and any other record
/// where it is marked itself.
pub proof fn law_record_is_done_with_its_parts(v: RecordView)
    ensures
        v.handshakes.len() == 0 ==> (incoming::handled_view(v) <==> v.handled),
        v.handshakes.len() > 0 && incoming::handled_view(v) ==> forall|i: int|
            0 <= i < v.handshakes.len() ==> (#[trigger] v.handshakes[i]).handled,
        v.handshakes.len() > 0 && !incoming::handled_view(v) ==> exists|i: int|
            0 <= i < v.handshakes.len() && !(#[trigger] v.handshakes[i]).handled,
{
}

/// An association works with every Connection ID of at most 255 bytes, and with every AEAD
/// overhead that holds the explicit nonce.
pub proof fn law_limits(cid: Option<Seq<u8>>, nonce_len: nat, overhead: nat)
    ensures
        incoming::within_limits(cid, nonce_len, overhead) <==> (cid matches Some(c) ==> c.len()
            <= 255) && nonce_len <= overhead,
{
}

/// What a call returned stands for itself: a record for what it holds, no record for none,
/// and an error for that error.
pub proof fn law_results_stand_for_themselves(
    one: Result<Option<Record>, Error>,
    all: Result<Records, Error>,
    packet: Result<Option<Incoming>, Error>,
)
    ensures
        one matches Ok(Some(record)) ==> incoming::viewed_option(one) == Ok::<
            Option<RecordView>,
            Error,
        >(Some(record@)),
        one matches Ok(None) ==> incoming::viewed_option(one) == Ok::<Option<RecordView>, Error>(
            None,
        ),
        one matches Err(e) ==> incoming::viewed_option(one) == Err::<Option<RecordView>, Error>(e),
        all matches Ok(records) ==> incoming::viewed_records(all) == Ok::<Seq<RecordView>, Error>(
            records@,
        ),
        all matches Err(e) ==> incoming::viewed_records(all) == Err::<Seq<RecordView>, Error>(e),
        packet matches Ok(Some(incoming)) ==> incoming::viewed_incoming(packet) == Ok::<
            Seq<RecordView>,
            Error,
        >(incoming@),
        packet matches Ok(None) ==> incoming::viewed_incoming(packet) == Ok::<
            Seq<RecordView>,
            Error,
        >(Seq::empty()),
        packet matches Err(e) ==> incoming::viewed_incoming(packet) == Err::<
            Seq<RecordView>,
            Error,
        >(e),
{
}

/// A record holds its bytes, its header, its handshake fragments and its mark, and a list of
/// records holds each of them, in order.
pub proof fn law_views_hold_what_they_show(record: Record, list: Seq<Record>)
    ensures
        record@.buffer == record.buffer@,
        record@.record == record.parsed.record,
        record@.handshakes == crate::arrays::handshake_items(record.parsed.handshakes),
        record@.handled == record.parsed.handled,
        incoming::views(list).len() == list.len(),
        forall|i: int| 0 <= i < list.len() ==> #[trigger] incoming::views(list)[i] == list[i]@,
{
}

} // verus!
