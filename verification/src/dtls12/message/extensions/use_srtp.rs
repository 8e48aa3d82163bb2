//! The `use_srtp` extension (RFC 5764).

use vstd::prelude::*;

use crate::buffer::Buf;
use crate::wire;

verus! {

/// An SRTP protection profile.
#[allow(non_camel_case_types)]
#[derive(Debug, Clone, Copy, PartialEq, Eq, Structural)]
pub enum SrtpProfileId {
    SRTP_AES128_CM_SHA1_80,
    SRTP_AEAD_AES_128_GCM,
    SRTP_AEAD_AES_256_GCM,
}

impl SrtpProfileId {
    pub open spec fn code(self) -> u16 {
        match self {
            SrtpProfileId::SRTP_AES128_CM_SHA1_80 => 0x0001,
            SrtpProfileId::SRTP_AEAD_AES_128_GCM => 0x0007,
            SrtpProfileId::SRTP_AEAD_AES_256_GCM => 0x0008,
        }
    }

    pub fn as_u16(&self) -> (x: u16)
        ensures
            x == self.code(),
    {
        match *self {
            SrtpProfileId::SRTP_AES128_CM_SHA1_80 => 0x0001,
            SrtpProfileId::SRTP_AEAD_AES_128_GCM => 0x0007,
            SrtpProfileId::SRTP_AEAD_AES_256_GCM => 0x0008,
        }
    }
}

/// The choice of one profile, without a master key identifier.
#[derive(Debug, Clone, Copy, PartialEq, Eq, Structural)]
pub struct UseSrtpExtension {
    pub profile: SrtpProfileId,
}

/// The body of the extension: the length of the profiles, the profile, and an empty
/// master key identifier.
pub open spec fn srtp_body(profile: SrtpProfileId) -> Seq<u8> {
    wire::u16_bytes(2) + wire::u16_bytes(profile.code()) + seq![0u8]
}

impl UseSrtpExtension {
    pub fn new(profile: SrtpProfileId) -> (r: UseSrtpExtension)
        ensures
            r.profile == profile,
    {
        UseSrtpExtension { profile }
    }

    pub fn serialize(&self, output: &mut Buf)
        ensures
            final(output)@ == old(output)@ + srtp_body(self.profile),
    {
        wire::push_u16(output, 2);
        wire::push_u16(output, self.profile.as_u16());
        output.push(0);
        assert(output@ =~= old(output)@ + srtp_body(self.profile));
    }
}

/// The body of the extension lists two bytes of profiles, names the profile by its
/// registered code, and ends with an empty master key identifier.
pub proof fn law_srtp_body_names_the_profile(profile: SrtpProfileId)
    ensures
        srtp_body(profile).len() == 5,
        srtp_body(profile)[0] == 0 && srtp_body(profile)[1] == 2,
        srtp_body(profile)[2] == 0,
        srtp_body(profile)[3] == 1 <==> profile is SRTP_AES128_CM_SHA1_80,
        srtp_body(profile)[3] == 7 <==> profile is SRTP_AEAD_AES_128_GCM,
        srtp_body(profile)[3] == 8 <==> profile is SRTP_AEAD_AES_256_GCM,
        srtp_body(profile)[4] == 0,
{
}

} // verus!
