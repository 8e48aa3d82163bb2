//! Comparison of secrets.

use subtle::ConstantTimeEq;
use vstd::prelude::*;

verus! {

/// `ConstantTimeEq::ct_eq` of `subtle` on byte slices: the choice is 1 exactly
/// when both slices have the same length and the same bytes.
#[verifier::external_body]
pub(crate) fn ct_eq(a: &[u8], b: &[u8]) -> (r: bool)
    ensures
        r == (a@ == b@),
{
    a.ct_eq(b).into()
}

} // verus!
