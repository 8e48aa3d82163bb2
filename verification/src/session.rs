//! Session resumption types for the abbreviated DTLS 1.2 handshake (RFC 5246 §7.3).
//!
//! After every successful full handshake the endpoint calls [`SessionStore::store`]
//! with the session ID and a [`StoredSession`]. On the next connection the client can
//! offer that ID in its `ClientHello`; if the server's [`SessionStore`] recognises
//! it, both sides skip the key-exchange flights and derive fresh traffic keys from
//! the cached master secret, completing the handshake in a single round-trip.

use std::sync::Arc;
use vstd::prelude::*;
use vstd::string::StringExecFns;

use crate::dtls12::message::Dtls12CipherSuite;
use crate::text;

verus! {

/// A 48-byte master secret that zeroes itself on drop.
///
/// Used inside [`StoredSession`] to hold the master secret from a completed
/// full handshake so it can be reused by an abbreviated handshake without
/// running the key-exchange again.
pub struct MasterSecret([u8; 48]);

impl View for MasterSecret {
    type V = Seq<u8>;

    closed spec fn view(&self) -> Seq<u8> {
        self.0@
    }
}

impl MasterSecret {
    /// Create from a 48-byte slice. Returns `Err` if `bytes.len() != 48`.
    pub fn new(bytes: &[u8]) -> (r: Result<MasterSecret, String>)
        ensures
            bytes@.len() == 48 ==> (r matches Ok(s) && s@ == bytes@),
            bytes@.len() != 48 ==> (r matches Err(m) && m@
                == "MasterSecret must be 48 bytes, got "@ + text::decimal(bytes@.len())),
    {
        if bytes.len() != 48 {
            return Err(
                "MasterSecret must be 48 bytes, got ".to_owned().concat(
                    text::decimal_string(bytes.len()).as_str(),
                ),
            );
        }
        let mut arr: [u8; 48] = [0u8;48];
        let mut i: usize = 0;
        while i < 48
            invariant
                i <= 48,
                bytes@.len() == 48,
                forall|k: int| 0 <= k < i ==> arr@[k] == bytes@[k],
            decreases 48 - i,
        {
            arr[i] = bytes[i];
            i = i + 1;
        }
        assert(arr@ =~= bytes@);
        Ok(MasterSecret(arr))
    }

    /// Return the raw master secret bytes.
    pub fn as_bytes(&self) -> (s: &[u8])
        ensures
            s@ == self@,
            s@.len() == 48,
    {
        self.0.as_slice()
    }
}

impl Drop for MasterSecret {
    /// Zeroes the secret to limit the window of exposure.
    fn drop(&mut self)
        ensures
            final(self)@ == Seq::new(48, |i: int| 0u8),
        opens_invariants none
        no_unwind
    {
        let mut i: usize = 0;
        while i < 48
            invariant
                i <= 48,
                forall|k: int| 0 <= k < i ==> self.0@[k] == 0,
            decreases 48 - i,
        {
            self.0[i] = 0;
            i = i + 1;
        }
        assert(self.0@ =~= Seq::new(48, |i: int| 0u8));
    }
}

/// A cached DTLS 1.2 session produced by a completed full handshake.
#[non_exhaustive]
pub struct StoredSession {
    /// The 48-byte master secret from the full handshake.
    pub master_secret: MasterSecret,
    /// The cipher suite negotiated during the full handshake.
    pub cipher_suite: Dtls12CipherSuite,
}

impl StoredSession {
    pub fn new(master_secret: MasterSecret, cipher_suite: Dtls12CipherSuite) -> (r: StoredSession)
        ensures
            r.master_secret == master_secret,
            r.cipher_suite == cipher_suite,
    {
        StoredSession { master_secret, cipher_suite }
    }
}

/// Persist and retrieve DTLS 1.2 sessions to enable abbreviated handshakes.
pub trait SessionStore: Send + Sync {
    /// Persist a session after a successful full handshake.
    ///
    /// `id` is the `session_id` bytes from the `ServerHello` (1–32 bytes).
    fn store(&self, id: &[u8], session: Arc<StoredSession>);

    /// Retrieve a previously stored session by ID, or `None` if unknown/expired.
    ///
    /// `id` is the `session_id` bytes offered by the client in `ClientHello`.
    fn lookup(&self, id: &[u8]) -> Option<Arc<StoredSession>>;
}

} // verus!
