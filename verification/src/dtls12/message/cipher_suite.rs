//! Cipher suites of DTLS 1.2.

use vstd::prelude::*;

use crate::error::ParseResult;
use crate::wire;

verus! {

/// A cipher suite of DTLS 1.2.
#[allow(non_camel_case_types)]
#[derive(Debug, Clone, Copy, PartialEq, Eq, Structural)]
pub enum Dtls12CipherSuite {
    ECDHE_ECDSA_AES256_GCM_SHA384,
    ECDHE_ECDSA_AES128_GCM_SHA256,
    ECDHE_ECDSA_CHACHA20_POLY1305_SHA256,
    ECDHE_PSK_CHACHA20_POLY1305_SHA256,
    PSK_AES128_CCM_8,
    Unknown(u16),
}

impl Dtls12CipherSuite {
    pub open spec fn code(self) -> u16 {
        match self {
            Dtls12CipherSuite::ECDHE_ECDSA_AES256_GCM_SHA384 => 0xC02C,
            Dtls12CipherSuite::ECDHE_ECDSA_AES128_GCM_SHA256 => 0xC02B,
            Dtls12CipherSuite::ECDHE_ECDSA_CHACHA20_POLY1305_SHA256 => 0xCCA9,
            Dtls12CipherSuite::ECDHE_PSK_CHACHA20_POLY1305_SHA256 => 0xCCAC,
            Dtls12CipherSuite::PSK_AES128_CCM_8 => 0xC0A8,
            Dtls12CipherSuite::Unknown(x) => x,
        }
    }

    pub open spec fn of_code(x: u16) -> Dtls12CipherSuite {
        if x == 0xC02C {
            Dtls12CipherSuite::ECDHE_ECDSA_AES256_GCM_SHA384
        } else if x == 0xC02B {
            Dtls12CipherSuite::ECDHE_ECDSA_AES128_GCM_SHA256
        } else if x == 0xCCA9 {
            Dtls12CipherSuite::ECDHE_ECDSA_CHACHA20_POLY1305_SHA256
        } else if x == 0xCCAC {
            Dtls12CipherSuite::ECDHE_PSK_CHACHA20_POLY1305_SHA256
        } else if x == 0xC0A8 {
            Dtls12CipherSuite::PSK_AES128_CCM_8
        } else {
            Dtls12CipherSuite::Unknown(x)
        }
    }

    /// The suite authenticates by a pre-shared key, not by certificates.
    pub open spec fn psk(self) -> bool {
        self is ECDHE_PSK_CHACHA20_POLY1305_SHA256 || self is PSK_AES128_CCM_8
    }

    /// The suite negotiates a key exchange group.
    pub open spec fn ecdhe(self) -> bool {
        self !is PSK_AES128_CCM_8
    }

    pub fn as_u16(&self) -> (x: u16)
        ensures
            x == self.code(),
    {
        match *self {
            Dtls12CipherSuite::ECDHE_ECDSA_AES256_GCM_SHA384 => 0xC02C,
            Dtls12CipherSuite::ECDHE_ECDSA_AES128_GCM_SHA256 => 0xC02B,
            Dtls12CipherSuite::ECDHE_ECDSA_CHACHA20_POLY1305_SHA256 => 0xCCA9,
            Dtls12CipherSuite::ECDHE_PSK_CHACHA20_POLY1305_SHA256 => 0xCCAC,
            Dtls12CipherSuite::PSK_AES128_CCM_8 => 0xC0A8,
            Dtls12CipherSuite::Unknown(x) => x,
        }
    }

    pub fn from_u16(x: u16) -> (v: Dtls12CipherSuite)
        ensures
            v == Dtls12CipherSuite::of_code(x),
    {
        match x {
            0xC02C => Dtls12CipherSuite::ECDHE_ECDSA_AES256_GCM_SHA384,
            0xC02B => Dtls12CipherSuite::ECDHE_ECDSA_AES128_GCM_SHA256,
            0xCCA9 => Dtls12CipherSuite::ECDHE_ECDSA_CHACHA20_POLY1305_SHA256,
            0xCCAC => Dtls12CipherSuite::ECDHE_PSK_CHACHA20_POLY1305_SHA256,
            0xC0A8 => Dtls12CipherSuite::PSK_AES128_CCM_8,
            _ => Dtls12CipherSuite::Unknown(x),
        }
    }

    /// Whether the suite authenticates by a pre-shared key. An endpoint that
    /// negotiates such a suite skips certificate authentication.
    pub fn is_psk(&self) -> (b: bool)
        ensures
            b == self.psk(),
    {
        matches!(
            *self,
            Dtls12CipherSuite::ECDHE_PSK_CHACHA20_POLY1305_SHA256
                | Dtls12CipherSuite::PSK_AES128_CCM_8
        )
    }

    /// Whether the suite negotiates a key exchange group.
    pub fn needs_kx_group(&self) -> (b: bool)
        ensures
            b == self.ecdhe(),
    {
        !matches!(*self, Dtls12CipherSuite::PSK_AES128_CCM_8)
    }

    pub fn parse(input: &[u8]) -> (r: ParseResult<'_, Dtls12CipherSuite>)
        ensures
            2 <= input@.len() ==> (r matches Ok((rest, v)) && rest@ == input@.skip(2) && v
                == Dtls12CipherSuite::of_code(wire::u16_at(input@, 0))),
            2 > input@.len() ==> crate::error::eof_in(r, input@),
    {
        match wire::be_u16(input) {
            Ok((rest, x)) => Ok((rest, Dtls12CipherSuite::from_u16(x))),
            Err(e) => Err(e),
        }
    }
}

/// The registered codes of the cipher suites. Any other code is unknown, and keeps its
/// value.
pub proof fn law_suites_have_their_codes(x: u16, v: Dtls12CipherSuite)
    ensures
        Dtls12CipherSuite::of_code(x) is ECDHE_ECDSA_AES256_GCM_SHA384 <==> x == 0xC02C,
        Dtls12CipherSuite::of_code(x) is ECDHE_ECDSA_AES128_GCM_SHA256 <==> x == 0xC02B,
        Dtls12CipherSuite::of_code(x) is ECDHE_ECDSA_CHACHA20_POLY1305_SHA256 <==> x == 0xCCA9,
        Dtls12CipherSuite::of_code(x) is ECDHE_PSK_CHACHA20_POLY1305_SHA256 <==> x == 0xCCAC,
        Dtls12CipherSuite::of_code(x) is PSK_AES128_CCM_8 <==> x == 0xC0A8,
        Dtls12CipherSuite::of_code(x) matches Dtls12CipherSuite::Unknown(y) ==> y == x,
        v is ECDHE_ECDSA_AES256_GCM_SHA384 ==> v.code() == 0xC02C,
        v is ECDHE_ECDSA_AES128_GCM_SHA256 ==> v.code() == 0xC02B,
        v is ECDHE_ECDSA_CHACHA20_POLY1305_SHA256 ==> v.code() == 0xCCA9,
        v is ECDHE_PSK_CHACHA20_POLY1305_SHA256 ==> v.code() == 0xCCAC,
        v is PSK_AES128_CCM_8 ==> v.code() == 0xC0A8,
        v matches Dtls12CipherSuite::Unknown(y) ==> v.code() == y,
{
}

/// Only the two PSK suites authenticate by a pre-shared key, and of all suites only the
/// one without ECDHE needs no key exchange group.
pub proof fn law_suites_by_authentication(v: Dtls12CipherSuite)
    ensures
        v.psk() <==> v == Dtls12CipherSuite::ECDHE_PSK_CHACHA20_POLY1305_SHA256 || v
            == Dtls12CipherSuite::PSK_AES128_CCM_8,
        v.ecdhe() <==> v != Dtls12CipherSuite::PSK_AES128_CCM_8,
{
}

} // verus!
