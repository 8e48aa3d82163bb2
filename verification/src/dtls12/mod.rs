//! DTLS 1.2.

use vstd::prelude::*;

pub mod datagram_laws;
pub mod framing;
pub mod incoming;
pub mod incoming_laws;
pub mod message;
pub mod record_laws;

verus! {

/// Largest plaintext that one DTLS 1.2 record carries (RFC 6347 §4.1.1).
pub const DTLS12_MAX_PLAINTEXT_LEN: usize = 16384;

} // verus!
