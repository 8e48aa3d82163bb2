//! Verified core of a Sans-IO DTLS endpoint.
//!
//! The crate holds what such an endpoint decides and computes from plain bytes
//! and plain settings: framing and decryption of incoming datagrams with and
//! without a Connection ID, the AEAD nonce and additional data of a record, the
//! `ServerHello` message with its extensions, the configuration shared by all
//! connections, and the cached session of an abbreviated handshake.

pub mod arrays;
pub mod buffer;
pub mod config;
pub mod config_laws;
pub mod config_rules;
pub mod constant_time;
pub mod crypto;
pub mod dtls12;
pub mod error;
pub mod session;
pub mod shared;
pub mod text;
pub mod types;
pub mod util;
pub mod wire;

pub use config::{Config, ConfigBuilder, Psk, PskResolver};
pub use crypto::CryptoProvider;
pub use error::Error;
pub use session::{MasterSecret, SessionStore, StoredSession};
pub use types::{Dtls13CipherSuite, NamedGroup};
