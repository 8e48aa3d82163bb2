//! Bounded lists of `arrayvec`, one instance after the other.
//!
//! For each instance a name stands for the items that a list holds, in order, and
//! one function stands for each method of `ArrayVec` that is called on it.

use arrayvec::ArrayVec;
use vstd::prelude::*;

use crate::dtls12::incoming::Record;
use crate::dtls12::message::{Extension, Handshake};

verus! {

/// The bounded list of `arrayvec`.
#[verifier::external_type_specification]
#[verifier::external_body]
#[verifier::reject_recursive_types(T)]
pub struct ExArrayVec<T, const CAP: usize>(ArrayVec<T, CAP>);

/// The bytes of an AAD buffer, in order.
pub uninterp spec fn aad_items(a: ArrayVec<u8, 278>) -> Seq<u8>;

/// `ArrayVec::new`: the list is empty.
#[verifier::external_body]
pub(crate) fn aad_new() -> (a: ArrayVec<u8, 278>)
    ensures
        aad_items(a) == Seq::<u8>::empty(),
{
    ArrayVec::new()
}

/// `ArrayVec::try_extend_from_slice`: appends the slice where it fits into the
/// capacity, else leaves the list as it is; says which.
#[verifier::external_body]
pub(crate) fn aad_extend(a: &mut ArrayVec<u8, 278>, s: &[u8]) -> (r: bool)
    ensures
        aad_items(*old(a)).len() + s@.len() <= 278 ==> r && aad_items(*final(a)) == aad_items(
            *old(a),
        ) + s@,
        aad_items(*old(a)).len() + s@.len() > 278 ==> !r && aad_items(*final(a))
            == aad_items(*old(a)),
{
    a.try_extend_from_slice(s).is_ok()
}

/// `ArrayVec::as_slice`: all items, in order; never more than the capacity.
#[verifier::external_body]
pub(crate) fn aad_slice(a: &ArrayVec<u8, 278>) -> (s: &[u8])
    ensures
        s@ == aad_items(*a),
        s@.len() <= 278,
{
    a.as_slice()
}

/// The bytes of a Connection ID buffer, in order.
pub uninterp spec fn cid_items(a: ArrayVec<u8, 255>) -> Seq<u8>;

/// `ArrayVec::new`: the list is empty.
#[verifier::external_body]
pub(crate) fn cid_new() -> (a: ArrayVec<u8, 255>)
    ensures
        cid_items(a) == Seq::<u8>::empty(),
{
    ArrayVec::new()
}

/// `ArrayVec::try_extend_from_slice`: appends the slice where it fits into the
/// capacity, else leaves the list as it is; says which.
#[verifier::external_body]
pub(crate) fn cid_extend(a: &mut ArrayVec<u8, 255>, s: &[u8]) -> (r: bool)
    ensures
        cid_items(*old(a)).len() + s@.len() <= 255 ==> r && cid_items(*final(a)) == cid_items(
            *old(a),
        ) + s@,
        cid_items(*old(a)).len() + s@.len() > 255 ==> !r && cid_items(*final(a))
            == cid_items(*old(a)),
{
    a.try_extend_from_slice(s).is_ok()
}

/// `ArrayVec::as_slice`: all items, in order; never more than the capacity.
#[verifier::external_body]
pub(crate) fn cid_slice(a: &ArrayVec<u8, 255>) -> (s: &[u8])
    ensures
        s@ == cid_items(*a),
        s@.len() <= 255,
{
    a.as_slice()
}

/// The fragments of a record, in order.
pub uninterp spec fn handshake_items(a: ArrayVec<Handshake, 8>) -> Seq<Handshake>;

/// `ArrayVec::new`: the list is empty.
#[verifier::external_body]
pub(crate) fn handshake_new() -> (a: ArrayVec<Handshake, 8>)
    ensures
        handshake_items(a) == Seq::<Handshake>::empty(),
{
    ArrayVec::new()
}

/// `ArrayVec::try_push`: appends the item where the list is below its capacity,
/// else leaves the list as it is; says which.
#[verifier::external_body]
pub(crate) fn handshake_push(a: &mut ArrayVec<Handshake, 8>, h: Handshake) -> (r: bool)
    ensures
        handshake_items(*old(a)).len() < 8 ==> r && handshake_items(*final(a))
            == handshake_items(*old(a)).push(h),
        handshake_items(*old(a)).len() >= 8 ==> !r && handshake_items(*final(a))
            == handshake_items(*old(a)),
{
    a.try_push(h).is_ok()
}

/// `ArrayVec::as_slice`: all items, in order; never more than the capacity.
#[verifier::external_body]
pub(crate) fn handshake_slice(a: &ArrayVec<Handshake, 8>) -> (s: &[Handshake])
    ensures
        s@ == handshake_items(*a),
        s@.len() <= 8,
{
    a.as_slice()
}

/// `ArrayVec::as_mut_slice`: all items, in order; what is written to the slice is
/// what the list then holds.
#[verifier::external_body]
pub(crate) fn handshake_mut_slice(a: &mut ArrayVec<Handshake, 8>) -> (s: &mut [Handshake])
    ensures
        s@ == handshake_items(*old(a)),
        final(s)@ == handshake_items(*final(a)),
{
    a.as_mut_slice()
}

/// The records of a datagram, in order.
pub uninterp spec fn record_items(a: ArrayVec<Record, 8>) -> Seq<Record>;

/// `ArrayVec::new`: the list is empty.
#[verifier::external_body]
pub(crate) fn record_new() -> (a: ArrayVec<Record, 8>)
    ensures
        record_items(a) == Seq::<Record>::empty(),
{
    ArrayVec::new()
}

/// `ArrayVec::try_push`: appends the item where the list is below its capacity,
/// else leaves the list as it is; says which.
#[verifier::external_body]
pub(crate) fn record_push(a: &mut ArrayVec<Record, 8>, x: Record) -> (r: bool)
    ensures
        record_items(*old(a)).len() < 8 ==> r && record_items(*final(a)) == record_items(
            *old(a),
        ).push(x),
        record_items(*old(a)).len() >= 8 ==> !r && record_items(*final(a)) == record_items(
            *old(a),
        ),
{
    a.try_push(x).is_ok()
}

/// `ArrayVec::pop_at`: takes the item at `index` out and closes the gap; `None`
/// where there is no such item.
#[verifier::external_body]
pub(crate) fn record_pop_at(a: &mut ArrayVec<Record, 8>, index: usize) -> (r: Option<Record>)
    ensures
        index < record_items(*old(a)).len() ==> r == Some(record_items(*old(a))[index as int])
            && record_items(*final(a)) == record_items(*old(a)).remove(index as int),
        index >= record_items(*old(a)).len() ==> r is None && record_items(*final(a))
            == record_items(*old(a)),
{
    a.pop_at(index)
}

/// `ArrayVec::as_slice`: all items, in order; never more than the capacity.
#[verifier::external_body]
pub(crate) fn record_slice(a: &ArrayVec<Record, 8>) -> (s: &[Record])
    ensures
        s@ == record_items(*a),
        s@.len() <= 8,
{
    a.as_slice()
}

/// The extensions of a Hello, in order.
pub uninterp spec fn extension_items(a: ArrayVec<Extension, 7>) -> Seq<Extension>;

/// `ArrayVec::new`: the list is empty.
#[verifier::external_body]
pub(crate) fn extension_new() -> (a: ArrayVec<Extension, 7>)
    ensures
        extension_items(a) == Seq::<Extension>::empty(),
{
    ArrayVec::new()
}

/// `ArrayVec::try_push`: appends the item where the list is below its capacity,
/// else leaves the list as it is; says which.
#[verifier::external_body]
pub(crate) fn extension_push(a: &mut ArrayVec<Extension, 7>, x: Extension) -> (r: bool)
    ensures
        extension_items(*old(a)).len() < 7 ==> r && extension_items(*final(a))
            == extension_items(*old(a)).push(x),
        extension_items(*old(a)).len() >= 7 ==> !r && extension_items(*final(a))
            == extension_items(*old(a)),
{
    a.try_push(x).is_ok()
}

/// `ArrayVec::as_slice`: all items, in order; never more than the capacity.
#[verifier::external_body]
pub(crate) fn extension_slice(a: &ArrayVec<Extension, 7>) -> (s: &[Extension])
    ensures
        s@ == extension_items(*a),
        s@.len() <= 7,
{
    a.as_slice()
}

/// The code points in a list of those already seen, in order.
pub uninterp spec fn code_items(a: ArrayVec<u16, 64>) -> Seq<u16>;

/// `ArrayVec::new`: the list is empty.
#[verifier::external_body]
pub(crate) fn code_new() -> (a: ArrayVec<u16, 64>)
    ensures
        code_items(a) == Seq::<u16>::empty(),
{
    ArrayVec::new()
}

/// `ArrayVec::try_push`: appends the item where the list is below its capacity,
/// else leaves the list as it is; says which.
#[verifier::external_body]
pub(crate) fn code_push(a: &mut ArrayVec<u16, 64>, x: u16) -> (r: bool)
    ensures
        code_items(*old(a)).len() < 64 ==> r && code_items(*final(a)) == code_items(
            *old(a),
        ).push(x),
        code_items(*old(a)).len() >= 64 ==> !r && code_items(*final(a)) == code_items(
            *old(a),
        ),
{
    a.try_push(x).is_ok()
}

/// `ArrayVec::as_slice`: all items, in order.
#[verifier::external_body]
pub(crate) fn code_slice(a: &ArrayVec<u16, 64>) -> (s: &[u16])
    ensures
        s@ == code_items(*a),
{
    a.as_slice()
}

} // verus!
