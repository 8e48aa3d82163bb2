//! Code points shared by the DTLS versions.

use vstd::prelude::*;

verus! {

/// Content type of a record.
#[derive(Debug, Clone, Copy, PartialEq, Eq, Structural)]
pub enum ContentType {
    ChangeCipherSpec,
    Alert,
    Handshake,
    ApplicationData,
    /// Record that carries a Connection ID (RFC 9146).
    Tls12Cid,
    Ack,
    Unknown(u8),
}

impl ContentType {
    pub open spec fn code(self) -> u8 {
        match self {
            ContentType::ChangeCipherSpec => 20,
            ContentType::Alert => 21,
            ContentType::Handshake => 22,
            ContentType::ApplicationData => 23,
            ContentType::Tls12Cid => 25,
            ContentType::Ack => 26,
            ContentType::Unknown(x) => x,
        }
    }

    pub open spec fn of_code(x: u8) -> ContentType {
        if x == 20 {
            ContentType::ChangeCipherSpec
        } else if x == 21 {
            ContentType::Alert
        } else if x == 22 {
            ContentType::Handshake
        } else if x == 23 {
            ContentType::ApplicationData
        } else if x == 25 {
            ContentType::Tls12Cid
        } else if x == 26 {
            ContentType::Ack
        } else {
            ContentType::Unknown(x)
        }
    }

    pub fn as_u8(&self) -> (x: u8)
        ensures
            x == self.code(),
    {
        match *self {
            ContentType::ChangeCipherSpec => 20,
            ContentType::Alert => 21,
            ContentType::Handshake => 22,
            ContentType::ApplicationData => 23,
            ContentType::Tls12Cid => 25,
            ContentType::Ack => 26,
            ContentType::Unknown(x) => x,
        }
    }

    pub fn from_u8(x: u8) -> (t: ContentType)
        ensures
            t == ContentType::of_code(x),
    {
        match x {
            20 => ContentType::ChangeCipherSpec,
            21 => ContentType::Alert,
            22 => ContentType::Handshake,
            23 => ContentType::ApplicationData,
            25 => ContentType::Tls12Cid,
            26 => ContentType::Ack,
            _ => ContentType::Unknown(x),
        }
    }
}

/// Every byte is the code of the content type that it stands for.
pub proof fn law_content_type_code(x: u8)
    ensures
        ContentType::of_code(x).code() == x,
{
}

/// Epoch and number of a record. On the wire the number has 48 bits.
#[derive(Debug, Clone, Copy, PartialEq, Eq, Structural)]
pub struct Sequence {
    pub epoch: u16,
    pub sequence_number: u64,
}

impl Sequence {
    /// The first number of an epoch.
    pub fn new(epoch: u16) -> (s: Sequence)
        ensures
            s == (Sequence { epoch, sequence_number: 0 }),
    {
        Sequence { epoch, sequence_number: 0 }
    }
}

/// A cipher suite of DTLS 1.3.
#[allow(non_camel_case_types)]
#[derive(Debug, Clone, Copy, PartialEq, Eq, Structural)]
pub enum Dtls13CipherSuite {
    AES_128_GCM_SHA256,
    AES_256_GCM_SHA384,
    CHACHA20_POLY1305_SHA256,
    Unknown(u16),
}

/// A key exchange group.
#[derive(Debug, Clone, Copy, PartialEq, Eq, Structural)]
pub enum NamedGroup {
    Secp256r1,
    Secp384r1,
    Secp521r1,
    X25519,
    Unknown(u16),
}

/// The registered codes of the content types: 20 to 23 as in TLS, 25 for a record with a
/// Connection ID, 26 for an acknowledgement. Any other byte is unknown, and keeps its
/// value.
pub proof fn law_content_types_have_their_codes(x: u8, t: ContentType)
    ensures
        ContentType::of_code(x) is ChangeCipherSpec <==> x == 20,
        ContentType::of_code(x) is Alert <==> x == 21,
        ContentType::of_code(x) is Handshake <==> x == 22,
        ContentType::of_code(x) is ApplicationData <==> x == 23,
        ContentType::of_code(x) is Tls12Cid <==> x == 25,
        ContentType::of_code(x) is Ack <==> x == 26,
        ContentType::of_code(x) matches ContentType::Unknown(y) ==> y == x,
        t is ChangeCipherSpec ==> t.code() == 20,
        t is Alert ==> t.code() == 21,
        t is Handshake ==> t.code() == 22,
        t is ApplicationData ==> t.code() == 23,
        t is Tls12Cid ==> t.code() == 25,
        t is Ack ==> t.code() == 26,
        t matches ContentType::Unknown(y) ==> t.code() == y,
{
}

} // verus!
