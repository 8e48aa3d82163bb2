//! The provider of cryptographic operations, as far as the configuration reads it.

use vstd::prelude::*;

use crate::dtls12::message::Dtls12CipherSuite;
use crate::error::Error;
use crate::types::{Dtls13CipherSuite, NamedGroup};

verus! {

/// What a provider of cryptographic operations offers, each list in the provider's
/// order of preference, and what is wrong with it, if anything is.
#[derive(Debug)]
pub struct CryptoProvider {
    pub cipher_suites: Vec<Dtls12CipherSuite>,
    pub dtls13_cipher_suites: Vec<Dtls13CipherSuite>,
    pub kx_groups: Vec<NamedGroup>,
    /// Why the provider cannot be used: a message for the error that reports it.
    pub defect: Option<String>,
}

impl CryptoProvider {
    /// DTLS 1.2 cipher suites of the provider.
    pub fn supported_cipher_suites(&self) -> (s: &[Dtls12CipherSuite])
        ensures
            s@ == self.cipher_suites@,
    {
        self.cipher_suites.as_slice()
    }

    /// Key exchange groups of the provider.
    pub fn supported_kx_groups(&self) -> (s: &[NamedGroup])
        ensures
            s@ == self.kx_groups@,
    {
        self.kx_groups.as_slice()
    }

    /// Fails where the provider cannot be used.
    pub fn validate(&self) -> (r: Result<(), Error>)
        ensures
            match self.defect {
                Some(m) => r == Err::<(), Error>(Error::ConfigError(m)),
                None => r == Ok::<(), Error>(()),
            },
    {
        match &self.defect {
            Some(m) => Err(Error::ConfigError(m.clone())),
            None => Ok(()),
        }
    }
}

/// What a provider offers; see [`CryptoProvider`].
#[verifier::ext_equal]
pub struct Offer {
    pub cipher_suites: Seq<Dtls12CipherSuite>,
    pub dtls13_cipher_suites: Seq<Dtls13CipherSuite>,
    pub kx_groups: Seq<NamedGroup>,
    pub defect: Option<Seq<char>>,
}

impl View for CryptoProvider {
    type V = Offer;

    open spec fn view(&self) -> Offer {
        Offer {
            cipher_suites: self.cipher_suites@,
            dtls13_cipher_suites: self.dtls13_cipher_suites@,
            kx_groups: self.kx_groups@,
            defect: match self.defect {
                Some(m) => Some(m@),
                None => None,
            },
        }
    }
}

impl Clone for CryptoProvider {
    fn clone(&self) -> (r: CryptoProvider)
        ensures
            r@ == self@,
    {
        CryptoProvider {
            cipher_suites: vstd::slice::slice_to_vec(self.cipher_suites.as_slice()),
            dtls13_cipher_suites: vstd::slice::slice_to_vec(self.dtls13_cipher_suites.as_slice()),
            kx_groups: vstd::slice::slice_to_vec(self.kx_groups.as_slice()),
            defect: match &self.defect {
                Some(m) => Some(m.clone()),
                None => None,
            },
        }
    }
}

/// What the built-in provider offers.
pub open spec fn built_in() -> Offer {
    Offer {
        cipher_suites: seq![
            Dtls12CipherSuite::ECDHE_ECDSA_AES256_GCM_SHA384,
            Dtls12CipherSuite::ECDHE_ECDSA_AES128_GCM_SHA256,
            Dtls12CipherSuite::ECDHE_ECDSA_CHACHA20_POLY1305_SHA256,
            Dtls12CipherSuite::ECDHE_PSK_CHACHA20_POLY1305_SHA256,
            Dtls12CipherSuite::PSK_AES128_CCM_8,
        ],
        dtls13_cipher_suites: seq![
            Dtls13CipherSuite::AES_128_GCM_SHA256,
            Dtls13CipherSuite::AES_256_GCM_SHA384,
            Dtls13CipherSuite::CHACHA20_POLY1305_SHA256,
        ],
        kx_groups: seq![NamedGroup::X25519, NamedGroup::Secp256r1, NamedGroup::Secp384r1],
        defect: None,
    }
}

/// The built-in provider.
pub fn default_provider() -> (p: CryptoProvider)
    ensures
        p@ == built_in(),
{
    let p = CryptoProvider {
        cipher_suites: vec![
            Dtls12CipherSuite::ECDHE_ECDSA_AES256_GCM_SHA384,
            Dtls12CipherSuite::ECDHE_ECDSA_AES128_GCM_SHA256,
            Dtls12CipherSuite::ECDHE_ECDSA_CHACHA20_POLY1305_SHA256,
            Dtls12CipherSuite::ECDHE_PSK_CHACHA20_POLY1305_SHA256,
            Dtls12CipherSuite::PSK_AES128_CCM_8,
        ],
        dtls13_cipher_suites: vec![
            Dtls13CipherSuite::AES_128_GCM_SHA256,
            Dtls13CipherSuite::AES_256_GCM_SHA384,
            Dtls13CipherSuite::CHACHA20_POLY1305_SHA256,
        ],
        kx_groups: vec![NamedGroup::X25519, NamedGroup::Secp256r1, NamedGroup::Secp384r1],
        defect: None,
    };
    assert(p@ =~= built_in());
    p
}

/// The built-in provider can be used. It offers every suite that is known, once, those that
/// authenticate by a PSK last, and the groups X25519, P-256 and P-384.
pub proof fn law_built_in_provider_offers_what_is_known(
    x: Dtls12CipherSuite,
    y: Dtls13CipherSuite,
    g: NamedGroup,
)
    ensures
        built_in().defect is None,
        built_in().cipher_suites.no_duplicates(),
        built_in().cipher_suites.contains(x) <==> x !is Unknown,
        forall|i: int, j: int|
            0 <= i < j < built_in().cipher_suites.len() && (#[trigger] built_in().cipher_suites[i]
                is ECDHE_PSK_CHACHA20_POLY1305_SHA256 || built_in().cipher_suites[i]
                is PSK_AES128_CCM_8) ==> #[trigger] built_in().cipher_suites[j] is PSK_AES128_CCM_8,
        built_in().dtls13_cipher_suites.no_duplicates(),
        built_in().dtls13_cipher_suites.contains(y) <==> y !is Unknown,
        built_in().kx_groups.no_duplicates(),
        built_in().kx_groups.contains(g) <==> g is X25519 || g is Secp256r1 || g is Secp384r1,
{
    let a = built_in().cipher_suites;
    let b = built_in().dtls13_cipher_suites;
    let c = built_in().kx_groups;
    assert(a[0] is ECDHE_ECDSA_AES256_GCM_SHA384 && a[1] is ECDHE_ECDSA_AES128_GCM_SHA256);
    assert(a[2] is ECDHE_ECDSA_CHACHA20_POLY1305_SHA256);
    assert(a[3] is ECDHE_PSK_CHACHA20_POLY1305_SHA256 && a[4] is PSK_AES128_CCM_8);
    assert(b[0] is AES_128_GCM_SHA256 && b[1] is AES_256_GCM_SHA384);
    assert(b[2] is CHACHA20_POLY1305_SHA256);
    assert(c[0] is X25519 && c[1] is Secp256r1 && c[2] is Secp384r1);
}

} // verus!
