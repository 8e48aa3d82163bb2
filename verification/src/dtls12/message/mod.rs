//! DTLS 1.2 messages.

pub mod cipher_suite;
pub mod extension;
pub mod extensions;
pub mod handshake;
pub mod hello_fields;
pub mod hello_laws;
pub mod record;
pub mod server_hello;
pub mod version;

pub use crate::types::{ContentType, Sequence};
pub use cipher_suite::Dtls12CipherSuite;
pub use extension::{Extension, ExtensionType, ExtensionVec};
pub use handshake::Handshake;
pub use hello_fields::{CompressionMethod, Random, SessionId};
pub use record::DTLSRecord;
pub use server_hello::ServerHello;
pub use version::ProtocolVersion;
