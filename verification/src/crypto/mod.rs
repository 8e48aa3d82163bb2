//! Cryptographic record formats and the provider of cryptographic operations.

pub mod dtls_aead;
pub mod provider;

pub use crate::dtls12::message::Dtls12CipherSuite;
pub use dtls_aead::{Aad, Iv, Nonce, DTLS12_CID_AAD_MAX, DTLS12_CID_MAX_LEN};
pub use provider::CryptoProvider;
