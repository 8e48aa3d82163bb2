//! DTLS AEAD record formats.

use arrayvec::ArrayVec;
use vstd::prelude::*;

use crate::arrays;
use crate::types::{ContentType, Sequence};
use crate::wire;

verus! {

/// Explicit nonce length for DTLS AEAD records.
///
/// The explicit nonce is transmitted with each record.
pub const DTLS_EXPLICIT_NONCE_LEN: usize = 8;

/// GCM authentication tag length.
///
/// The tag is appended to the ciphertext.
pub const GCM_TAG_LEN: usize = 16;

/// Overhead per DTLS 1.2 AES-GCM record (explicit nonce + tag).
pub const DTLS_AEAD_OVERHEAD: usize = DTLS_EXPLICIT_NONCE_LEN + GCM_TAG_LEN;

/// AAD length of a DTLS 1.2 AES-GCM record with this plaintext length.
pub fn aad_len_from_plaintext_len(plaintext_len: u16) -> (n: u16)
    ensures
        n == plaintext_len,
{
    plaintext_len
}

/// Explicit nonce, ciphertext and tag of a plaintext.
pub open spec fn fragment_len_of(plaintext_len: nat) -> nat {
    plaintext_len + DTLS_AEAD_OVERHEAD as nat
}

/// What is left of a fragment without explicit nonce and tag, where it holds them.
pub open spec fn plaintext_len_of(fragment_len: nat) -> Option<nat> {
    if fragment_len < DTLS_AEAD_OVERHEAD {
        None
    } else {
        Some((fragment_len - DTLS_AEAD_OVERHEAD) as nat)
    }
}

/// Fragment length of a DTLS 1.2 AES-GCM record with this plaintext length:
/// explicit nonce, ciphertext and tag.
pub fn fragment_len_from_plaintext_len(plaintext_len: usize) -> (n: usize)
    requires
        plaintext_len <= usize::MAX - DTLS_AEAD_OVERHEAD,
    ensures
        n == fragment_len_of(plaintext_len as nat),
{
    DTLS_EXPLICIT_NONCE_LEN + plaintext_len + GCM_TAG_LEN
}

/// Plaintext length of a DTLS 1.2 AES-GCM record with this fragment length; `None`
/// where the fragment is smaller than the AEAD overhead.
pub fn plaintext_len_from_fragment_len(fragment_len: usize) -> (n: Option<usize>)
    ensures
        match plaintext_len_of(fragment_len as nat) {
            Some(len) => n matches Some(m) && m == len,
            None => n is None,
        },
{
    fragment_len.checked_sub(DTLS_AEAD_OVERHEAD)
}

/// Fixed IV portion for DTLS AEAD.
///
/// DTLS 1.2 uses:
/// - AES-GCM: 4-byte fixed IV + 8-byte explicit nonce (per record)
/// - ChaCha20-Poly1305: 12-byte fixed IV + 0-byte explicit nonce
#[derive(Debug, Clone, Copy, Eq)]
pub struct Iv {
    bytes: [u8; 12],
    len: u8,
}

impl Iv {
    /// The bytes of the IV come first, and zeros stand behind them.
    #[verifier::type_invariant]
    pub closed spec fn padded(self) -> bool {
        &&& self.len <= 12
        &&& forall|i: int| self.len <= i < 12 ==> #[trigger] self.bytes@[i] == 0
    }

    /// The bytes of the IV.
    pub closed spec fn view(&self) -> Seq<u8> {
        self.bytes@.take(self.len as int)
    }

    pub fn new(iv: &[u8]) -> (r: Iv)
        requires
            iv@.len() <= 12,
        ensures
            r@ == iv@,
            r.padded(),
    {
        let mut bytes: [u8; 12] = [0u8;12];
        let mut i: usize = 0;
        while i < iv.len()
            invariant
                i <= iv@.len() <= 12,
                bytes@.take(i as int) == iv@.take(i as int),
                forall|k: int| i <= k < 12 ==> #[trigger] bytes@[k] == 0,
            decreases iv@.len() - i,
        {
            bytes[i] = iv[i];
            i = i + 1;
            assert(bytes@.take(i as int) =~= iv@.take(i as int));
        }
        assert(iv@.take(i as int) =~= iv@);
        Iv { bytes, len: i as u8 }
    }

    /// Two IVs are the same value exactly where their bytes are the same.
    pub proof fn law_equal_by_bytes(a: Iv, b: Iv)
        requires
            a.padded(),
            b.padded(),
        ensures
            a@ == b@ <==> a == b,
    {
        if a@ == b@ {
            assert(a@.len() == a.len && b@.len() == b.len);
            assert forall|i: int| 0 <= i < 12 implies #[trigger] a.bytes@[i] == b.bytes@[i] by {
                if i < a.len {
                    assert(a@[i] == b@[i]);
                }
            }
            assert(a.bytes =~= b.bytes);
        }
    }

    pub fn len(&self) -> (n: usize)
        ensures
            n == self@.len(),
            n <= 12,
            self.padded(),
    {
        proof {
            use_type_invariant(self);
        }
        self.len as usize
    }

    pub fn as_slice(&self) -> (s: &[u8])
        ensures
            s@ == self@,
    {
        proof {
            use_type_invariant(self);
        }
        &self.bytes.as_slice()[0..self.len as usize]
    }

    /// The full 12-byte backing array of a 12-byte IV (ChaCha20-Poly1305).
    pub fn as_12_bytes(&self) -> (b: &[u8; 12])
        requires
            self@.len() == 12,
        ensures
            b@ == self@,
    {
        proof {
            use_type_invariant(self);
        }
        assert(self.bytes@.take(12) =~= self.bytes@);
        &self.bytes
    }
}

impl PartialEq for Iv {
    fn eq(&self, other: &Iv) -> (r: bool) {
        proof {
            use_type_invariant(self);
            use_type_invariant(other);
            Iv::law_equal_by_bytes(*self, *other);
        }
        if self.len != other.len {
            return false;
        }
        let mut i: usize = 0;
        while i < 12
            invariant
                i <= 12,
                self@ == other@ <==> *self == *other,
                forall|k: int| 0 <= k < i ==> self.bytes@[k] == other.bytes@[k],
            decreases 12 - i,
        {
            if self.bytes[i] != other.bytes[i] {
                return false;
            }
            i = i + 1;
        }
        assert(self.bytes =~= other.bytes);
        true
    }
}

impl vstd::std_specs::cmp::PartialEqSpecImpl for Iv {
    open spec fn obeys_eq_spec() -> bool {
        true
    }

    open spec fn eq_spec(&self, other: &Iv) -> bool {
        self@ == other@
    }
}

/// The bytes that are combined with the last 8 bytes of an IV: a 64-bit number, most
/// significant byte first.
pub open spec fn u64_byte(x: u64, i: int) -> u8 {
    if i == 0 {
        (x / 0x100_0000_0000_0000) as u8
    } else if i == 1 {
        (x / 0x1_0000_0000_0000 % 256) as u8
    } else {
        wire::u48_bytes(x)[i - 2]
    }
}

/// The nonce of a record number: the IV with its last 8 bytes combined by exclusive
/// or with the number.
pub open spec fn xor_nonce(iv: Seq<u8>, seq: u64) -> Seq<u8> {
    Seq::new(
        12,
        |i: int|
            if i < 4 {
                iv[i]
            } else {
                iv[i] ^ u64_byte(seq, i - 4)
            },
    )
}

/// Full AEAD nonce (fixed IV + explicit nonce).
#[derive(Debug, Clone, Copy, PartialEq, Eq)]
pub struct Nonce(pub [u8; 12]);

impl Nonce {
    /// The nonce of a fixed IV followed by an explicit nonce (DTLS 1.2).
    pub fn new(iv: Iv, explicit_nonce: &[u8]) -> (r: Nonce)
        requires
            iv@.len() + explicit_nonce@.len() == 12,
        ensures
            r.0@ == iv@ + explicit_nonce@,
    {
        let mut nonce: [u8; 12] = [0u8;12];
        let iv_bytes: &[u8] = iv.as_slice();
        let mut i: usize = 0;
        while i < 12
            invariant
                i <= 12,
                iv_bytes@ == iv@,
                iv@.len() + explicit_nonce@.len() == 12,
                nonce@.take(i as int) == (iv@ + explicit_nonce@).take(i as int),
            decreases 12 - i,
        {
            if i < iv_bytes.len() {
                nonce[i] = iv_bytes[i];
            } else {
                nonce[i] = explicit_nonce[i - iv_bytes.len()];
            }
            i = i + 1;
            assert(nonce@.take(i as int) =~= (iv@ + explicit_nonce@).take(i as int));
        }
        assert(nonce@.take(12) =~= nonce@);
        assert((iv@ + explicit_nonce@).take(12) =~= iv@ + explicit_nonce@);
        Nonce(nonce)
    }

    /// The nonce of an IV combined by exclusive or with the padded record number.
    ///
    /// Used by both DTLS 1.2 (ChaCha20-Poly1305) and DTLS 1.3:
    /// nonce = iv XOR pad_left(sequence_number, 12)
    /// See RFC 8446 Section 5.3 / RFC 7905.
    pub fn xor(iv: &[u8; 12], seq: u64) -> (r: Nonce)
        ensures
            r.0@ == xor_nonce(iv@, seq),
    {
        let low: [u8; 6] = wire::split_u48(seq);
        let seq_bytes: [u8; 8] = [
            (seq / 0x100_0000_0000_0000) as u8,
            (seq / 0x1_0000_0000_0000 % 256) as u8,
            low[0],
            low[1],
            low[2],
            low[3],
            low[4],
            low[5],
        ];
        let mut nonce: [u8; 12] = *iv;
        let mut i: usize = 0;
        while i < 8
            invariant
                i <= 8,
                forall|k: int| 0 <= k < 8 ==> seq_bytes@[k] == u64_byte(seq, k),
                forall|k: int| 0 <= k < 4 + i ==> nonce@[k] == xor_nonce(iv@, seq)[k],
                forall|k: int| 4 + i <= k < 12 ==> nonce@[k] == iv@[k],
            decreases 8 - i,
        {
            nonce[4 + i] = nonce[4 + i] ^ seq_bytes[i];
            i = i + 1;
        }
        assert(nonce@ =~= xor_nonce(iv@, seq));
        Nonce(nonce)
    }
}

/// Maximum length of a DTLS 1.2 Connection ID (RFC 9146).
///
/// RFC 9146 caps the length of a Connection ID at what one byte can count.
pub const DTLS12_CID_MAX_LEN: usize = 255;

/// Maximum capacity for a DTLS AAD buffer.
///
/// 23 fixed bytes (DTLS 1.2 CID AAD header, RFC 9146 §5) + up to 255 CID bytes.
/// Also covers DTLS 1.2 (13 bytes) and DTLS 1.3 (3-5 bytes) AAD forms.
pub const DTLS12_CID_AAD_MAX: usize = 23 + DTLS12_CID_MAX_LEN;

/// Epoch and number of a record as the 8 bytes that a record header carries.
pub open spec fn sequence_bytes(s: Sequence) -> Seq<u8> {
    wire::u16_bytes(s.epoch) + wire::u48_bytes(s.sequence_number)
}

/// Additional data of a DTLS 1.2 record.
pub open spec fn dtls12_aad(
    content_type: ContentType,
    sequence: Sequence,
    version: Seq<u8>,
    length: u16,
) -> Seq<u8> {
    sequence_bytes(sequence) + seq![content_type.code()] + version + wire::u16_bytes(length)
}

/// Additional data of a DTLS 1.2 record with a Connection ID (RFC 9146 §5).
pub open spec fn dtls12_cid_aad(
    sequence: Sequence,
    version: Seq<u8>,
    cid: Seq<u8>,
    inner_plaintext_len: u16,
) -> Seq<u8> {
    Seq::new(8, |i: int| 0xFFu8) + seq![25u8, cid.len() as u8, 25u8] + version + sequence_bytes(
        sequence,
    ) + cid + wire::u16_bytes(inner_plaintext_len)
}

/// Additional Authenticated Data for DTLS records.
///
/// Variable-length to support DTLS 1.2 (13 bytes), DTLS 1.2 with CID (23+N bytes),
/// and DTLS 1.3 (3-5 bytes).
#[derive(Debug, PartialEq, Eq)]
pub struct Aad(pub ArrayVec<u8, DTLS12_CID_AAD_MAX>);

impl View for Aad {
    type V = Seq<u8>;

    open spec fn view(&self) -> Seq<u8> {
        arrays::aad_items(self.0)
    }
}

impl Clone for Aad {
    fn clone(&self) -> (r: Aad)
        ensures
            r@ == self@,
    {
        let mut aad = arrays::aad_new();
        let _ = arrays::aad_extend(&mut aad, arrays::aad_slice(&self.0));
        assert(arrays::aad_items(aad) =~= self@);
        Aad(aad)
    }
}

impl std::ops::Deref for Aad {
    type Target = [u8];

    fn deref(&self) -> (s: &[u8])
        ensures
            s@ == self@,
    {
        arrays::aad_slice(&self.0)
    }
}

impl Aad {
    /// Borrow the AAD as a byte slice for AEAD operations.
    pub fn as_slice(&self) -> (s: &[u8])
        ensures
            s@ == self@,
    {
        arrays::aad_slice(&self.0)
    }

    /// Additional data of a DTLS 1.2 record.
    ///
    /// `version` is the 2-byte wire version field observed in the record
    /// header (e.g. `[0xFE, 0xFD]` for DTLS 1.2, `[0xFE, 0xFF]` for
    /// DTLS 1.0). RFC 6347 §4.1.2.1 names this slot `DTLSCompressed.version`
    /// — the bytes that were actually transmitted — so the sender and
    /// receiver must bind the same bytes or AEAD authentication fails.
    pub fn new_dtls12(
        content_type: ContentType,
        sequence: Sequence,
        version: [u8; 2],
        length: u16,
    ) -> (r: Aad)
        ensures
            r@ == dtls12_aad(content_type, sequence, version@, length),
    {
        let low: [u8; 6] = wire::split_u48(sequence.sequence_number);
        let fixed: [u8; 13] = [
            (sequence.epoch / 256) as u8,
            (sequence.epoch % 256) as u8,
            low[0],
            low[1],
            low[2],
            low[3],
            low[4],
            low[5],
            content_type.as_u8(),
            version[0],
            version[1],
            (length / 256) as u8,
            (length % 256) as u8,
        ];
        let mut aad = arrays::aad_new();
        let _ = arrays::aad_extend(&mut aad, fixed.as_slice());
        assert(arrays::aad_items(aad) =~= dtls12_aad(content_type, sequence, version@, length));
        Aad(aad)
    }

    /// Additional data of a DTLS 1.2 record with a Connection ID (RFC 9146 §5).
    ///
    /// `version` is the 2-byte wire `DTLSCiphertext.version` field from the
    /// record header. The AAD binds the exact bytes the sender put on the wire,
    /// so a peer that emits `0xFE 0xFF` (DTLS 1.0) requires `[0xFE, 0xFF]` here.
    ///
    /// AAD layout:
    /// ```text
    /// seq_num_placeholder(8, 0xFF) | tls12_cid(1) | cid_length(1) |
    /// tls12_cid(1) | version(2) | epoch(2) | sequence_number(6) |
    /// cid(N) | length_of_DTLSInnerPlaintext(2)
    /// ```
    pub fn new_dtls12_cid(
        sequence: Sequence,
        version: [u8; 2],
        cid: &[u8],
        inner_plaintext_len: u16,
    ) -> (r: Aad)
        requires
            cid@.len() <= DTLS12_CID_MAX_LEN,
        ensures
            r@ == dtls12_cid_aad(sequence, version@, cid@, inner_plaintext_len),
    {
        let low: [u8; 6] = wire::split_u48(sequence.sequence_number);
        let tls12_cid: u8 = ContentType::Tls12Cid.as_u8();
        let head: [u8; 21] = [
            0xFF,
            0xFF,
            0xFF,
            0xFF,
            0xFF,
            0xFF,
            0xFF,
            0xFF,
            tls12_cid,
            cid.len() as u8,
            tls12_cid,
            version[0],
            version[1],
            (sequence.epoch / 256) as u8,
            (sequence.epoch % 256) as u8,
            low[0],
            low[1],
            low[2],
            low[3],
            low[4],
            low[5],
        ];
        let len_bytes: [u8; 2] = [
            (inner_plaintext_len / 256) as u8,
            (inner_plaintext_len % 256) as u8,
        ];
        let mut aad = arrays::aad_new();
        let _ = arrays::aad_extend(&mut aad, head.as_slice());
        let _ = arrays::aad_extend(&mut aad, cid);
        let _ = arrays::aad_extend(&mut aad, len_bytes.as_slice());
        assert(arrays::aad_items(aad) =~= dtls12_cid_aad(
            sequence,
            version@,
            cid@,
            inner_plaintext_len,
        ));
        Aad(aad)
    }

    /// Additional data of a DTLS 1.3 record: the raw unified header bytes (3-5 bytes).
    pub fn new_dtls13(header_bytes: &[u8]) -> (r: Aad)
        requires
            header_bytes@.len() <= DTLS12_CID_AAD_MAX,
        ensures
            r@ == header_bytes@,
    {
        let mut aad = arrays::aad_new();
        let _ = arrays::aad_extend(&mut aad, header_bytes);
        assert(arrays::aad_items(aad) =~= header_bytes@);
        Aad(aad)
    }
}

/// The fragment length of a plaintext, and the plaintext length of a fragment, undo
/// each other: every plaintext is found again, and every fragment that holds the
/// overhead is the fragment of its plaintext.
pub proof fn law_lengths_undo_each_other(plaintext_len: nat, fragment_len: nat)
    ensures
        plaintext_len_of(fragment_len_of(plaintext_len)) == Some(plaintext_len),
        plaintext_len_of(fragment_len) matches Some(n) ==> fragment_len_of(n) == fragment_len,
        plaintext_len_of(fragment_len) is None <==> fragment_len < DTLS_AEAD_OVERHEAD,
{
}

/// Two record numbers under one IV have the same nonce only where they are the same.
pub proof fn law_xor_nonce_is_injective(iv: Seq<u8>, a: u64, b: u64)
    requires
        iv.len() == 12,
        xor_nonce(iv, a) == xor_nonce(iv, b),
    ensures
        a == b,
{
    assert forall|k: int| 0 <= k < 8 implies u64_byte(a, k) == #[trigger] u64_byte(b, k) by {
        let v = iv[k + 4];
        let x = u64_byte(a, k);
        let y = u64_byte(b, k);
        assert(xor_nonce(iv, a)[k + 4] == v ^ x);
        assert(xor_nonce(iv, b)[k + 4] == v ^ y);
        assert(v ^ x == v ^ y ==> x == y) by (bit_vector);
    }
    lemma_u64_from_bytes(a);
    lemma_u64_from_bytes(b);
    assert(u64_byte(a, 0) == u64_byte(b, 0));
    assert(u64_byte(a, 1) == u64_byte(b, 1));
    assert(u64_byte(a, 2) == u64_byte(b, 2));
    assert(u64_byte(a, 3) == u64_byte(b, 3));
    assert(u64_byte(a, 4) == u64_byte(b, 4));
    assert(u64_byte(a, 5) == u64_byte(b, 5));
    assert(u64_byte(a, 6) == u64_byte(b, 6));
    assert(u64_byte(a, 7) == u64_byte(b, 7));
}

/// Combining a nonce once more with the same record number gives the IV back.
pub proof fn law_xor_nonce_undoes_itself(iv: Seq<u8>, seq: u64)
    requires
        iv.len() == 12,
    ensures
        xor_nonce(xor_nonce(iv, seq), seq) == iv,
{
    assert forall|i: int| 0 <= i < 12 implies xor_nonce(xor_nonce(iv, seq), seq)[i] == iv[i] by {
        if i >= 4 {
            let v = iv[i];
            let x = u64_byte(seq, i - 4);
            assert((v ^ x) ^ x == v) by (bit_vector);
        }
    }
    assert(xor_nonce(xor_nonce(iv, seq), seq) =~= iv);
}

/// A 64-bit number is made of its bytes.
proof fn lemma_u64_from_bytes(x: u64)
    ensures
        x == u64_byte(x, 0) * 0x100_0000_0000_0000 + u64_byte(x, 1) * 0x1_0000_0000_0000 + u64_byte(
            x,
            2,
        ) * 0x100_0000_0000 + u64_byte(x, 3) * 0x1_0000_0000 + u64_byte(x, 4) * 0x100_0000
            + u64_byte(x, 5) * 0x1_0000 + u64_byte(x, 6) * 0x100 + u64_byte(x, 7),
{
    assert((x / 0x100_0000_0000_0000) * 0x100_0000_0000_0000 + (x / 0x1_0000_0000_0000 % 256)
        * 0x1_0000_0000_0000 + (x / 0x100_0000_0000 % 256) * 0x100_0000_0000 + (x / 0x1_0000_0000
        % 256) * 0x1_0000_0000 + (x / 0x100_0000 % 256) * 0x100_0000 + (x / 0x1_0000 % 256)
        * 0x1_0000 + (x / 0x100 % 256) * 0x100 + (x % 256) == x) by (bit_vector);
    assert(x / 0x100_0000_0000_0000 < 256) by (bit_vector);
}

/// Epoch and number are found again in the 8 bytes of a record header, for every number
/// of at most 48 bits.
pub proof fn law_sequence_bytes_are_injective(a: Sequence, b: Sequence)
    requires
        a.sequence_number < 0x1_0000_0000_0000,
        b.sequence_number < 0x1_0000_0000_0000,
        sequence_bytes(a) == sequence_bytes(b),
    ensures
        a == b,
{
    assert(sequence_bytes(a).take(2) =~= wire::u16_bytes(a.epoch));
    assert(sequence_bytes(b).take(2) =~= wire::u16_bytes(b.epoch));
    assert(sequence_bytes(a).skip(2) =~= wire::u48_bytes(a.sequence_number));
    assert(sequence_bytes(b).skip(2) =~= wire::u48_bytes(b.sequence_number));
    wire::law_u16_is_read_back(a.epoch);
    wire::law_u16_is_read_back(b.epoch);
    wire::law_u48_injective(a.sequence_number, b.sequence_number);
}

/// The additional data of a record without a Connection ID has 13 bytes and binds the
/// content type, the epoch, the number, the version and the length.
pub proof fn law_dtls12_aad_binds_all(
    type_a: ContentType,
    a: Sequence,
    version_a: Seq<u8>,
    len_a: u16,
    type_b: ContentType,
    b: Sequence,
    version_b: Seq<u8>,
    len_b: u16,
)
    requires
        version_a.len() == 2,
        version_b.len() == 2,
        a.sequence_number < 0x1_0000_0000_0000,
        b.sequence_number < 0x1_0000_0000_0000,
    ensures
        dtls12_aad(type_a, a, version_a, len_a).len() == 13,
        dtls12_aad(type_a, a, version_a, len_a) == dtls12_aad(type_b, b, version_b, len_b) ==> a == b
            && type_a.code() == type_b.code() && version_a == version_b && len_a == len_b,
{
    let x = dtls12_aad(type_a, a, version_a, len_a);
    let y = dtls12_aad(type_b, b, version_b, len_b);
    if x == y {
        assert(x.take(8) =~= sequence_bytes(a));
        assert(y.take(8) =~= sequence_bytes(b));
        law_sequence_bytes_are_injective(a, b);
        assert(x[8] == type_a.code() && y[8] == type_b.code());
        assert(x.subrange(9, 11) =~= version_a);
        assert(y.subrange(9, 11) =~= version_b);
        assert(x.subrange(11, 13) =~= wire::u16_bytes(len_a));
        assert(y.subrange(11, 13) =~= wire::u16_bytes(len_b));
        wire::law_u16_is_read_back(len_a);
        wire::law_u16_is_read_back(len_b);
    }
}

/// The additional data of a record with a Connection ID has 23 bytes and those of the
/// Connection ID, and binds the epoch, the number, the version, the Connection ID and
/// the length of the plaintext.
pub proof fn law_cid_aad_binds_all(
    a: Sequence,
    version_a: Seq<u8>,
    cid_a: Seq<u8>,
    len_a: u16,
    b: Sequence,
    version_b: Seq<u8>,
    cid_b: Seq<u8>,
    len_b: u16,
)
    requires
        version_a.len() == 2,
        version_b.len() == 2,
        a.sequence_number < 0x1_0000_0000_0000,
        b.sequence_number < 0x1_0000_0000_0000,
    ensures
        dtls12_cid_aad(a, version_a, cid_a, len_a).len() == 23 + cid_a.len(),
        dtls12_cid_aad(a, version_a, cid_a, len_a) == dtls12_cid_aad(b, version_b, cid_b, len_b)
            ==> a == b && version_a == version_b && cid_a == cid_b && len_a == len_b,
{
    let x = dtls12_cid_aad(a, version_a, cid_a, len_a);
    let y = dtls12_cid_aad(b, version_b, cid_b, len_b);
    if x == y {
        let n = cid_a.len() as int;
        assert(x.len() == 23 + n && y.len() == 23 + cid_b.len());
        assert(x.subrange(11, 13) =~= version_a);
        assert(y.subrange(11, 13) =~= version_b);
        assert(x.subrange(13, 21) =~= sequence_bytes(a));
        assert(y.subrange(13, 21) =~= sequence_bytes(b));
        law_sequence_bytes_are_injective(a, b);
        assert(x.subrange(21, 21 + n) =~= cid_a);
        assert(y.subrange(21, 21 + n) =~= cid_b);
        assert(x.subrange(21 + n, 23 + n) =~= wire::u16_bytes(len_a));
        assert(y.subrange(21 + n, 23 + n) =~= wire::u16_bytes(len_b));
        wire::law_u16_is_read_back(len_a);
        wire::law_u16_is_read_back(len_b);
    }
}

/// A fragment is 24 bytes longer than its plaintext: 8 of explicit nonce and 16 of tag.
/// What is shorter than that has no plaintext.
pub proof fn law_overhead_is_nonce_and_tag(plaintext_len: nat, fragment_len: nat)
    ensures
        fragment_len_of(plaintext_len) == plaintext_len + 24,
        plaintext_len_of(fragment_len) is Some <==> fragment_len >= 24,
        plaintext_len_of(fragment_len) matches Some(n) ==> n + 24 == fragment_len,
{
}

/// The first 4 bytes of a nonce are those of the IV. The other 8, combined with the IV
/// by exclusive or, are the record number, most significant byte first.
pub proof fn law_xor_nonce_holds_the_number(iv: Seq<u8>, seq: u64)
    requires
        iv.len() == 12,
    ensures
        xor_nonce(iv, seq).len() == 12,
        forall|i: int| 0 <= i < 4 ==> #[trigger] xor_nonce(iv, seq)[i] == iv[i],
        (xor_nonce(iv, seq)[4] ^ iv[4]) * 72057594037927936 + (xor_nonce(iv, seq)[5] ^ iv[5])
            * 281474976710656 + (xor_nonce(iv, seq)[6] ^ iv[6]) * 1099511627776 + (xor_nonce(
            iv,
            seq,
        )[7] ^ iv[7]) * 4294967296 + (xor_nonce(iv, seq)[8] ^ iv[8]) * 16777216 + (xor_nonce(
            iv,
            seq,
        )[9] ^ iv[9]) * 65536 + (xor_nonce(iv, seq)[10] ^ iv[10]) * 256 + (xor_nonce(iv, seq)[11]
            ^ iv[11]) == seq,
{
    assert forall|i: int| 4 <= i < 12 implies #[trigger] xor_nonce(iv, seq)[i] ^ iv[i] == u64_byte(
        seq,
        i - 4,
    ) by {
        let v = iv[i];
        let x = u64_byte(seq, i - 4);
        assert((v ^ x) ^ v == x) by (bit_vector);
    }
    lemma_u64_from_bytes(seq);
}

/// The additional data of a record, field by field: the epoch, the 48-bit record number,
/// the code of the content type, the version as it was sent, and the length, each most
/// significant byte first.
pub proof fn law_dtls12_aad_by_field(
    content_type: ContentType,
    sequence: Sequence,
    version: Seq<u8>,
    length: u16,
)
    requires
        version.len() == 2,
    ensures
        ({
            let aad = dtls12_aad(content_type, sequence, version, length);
            &&& aad.len() == 13
            &&& aad[0] * 256 + aad[1] == sequence.epoch
            &&& aad[2] * 1099511627776 + aad[3] * 4294967296 + aad[4] * 16777216 + aad[5] * 65536
                + aad[6] * 256 + aad[7] == sequence.sequence_number as int % 281474976710656
            &&& aad[8] == content_type.code()
            &&& aad[9] == version[0]
            &&& aad[10] == version[1]
            &&& aad[11] * 256 + aad[12] == length
        }),
{
    let aad = dtls12_aad(content_type, sequence, version, length);
    let low = wire::u48_bytes(sequence.sequence_number);
    wire::law_u16_is_most_significant_first(aad, 0, sequence.epoch);
    wire::law_u16_is_most_significant_first(aad, 0, length);
    wire::law_u48_is_most_significant_first(aad, 0, sequence.sequence_number);
    assert(aad[0] == wire::u16_bytes(sequence.epoch)[0]);
    assert(aad[1] == wire::u16_bytes(sequence.epoch)[1]);
    assert(aad[2] == low[0] && aad[3] == low[1] && aad[4] == low[2]);
    assert(aad[5] == low[3] && aad[6] == low[4] && aad[7] == low[5]);
    assert(aad[11] == wire::u16_bytes(length)[0]);
    assert(aad[12] == wire::u16_bytes(length)[1]);
}

/// The additional data of a record with a Connection ID, field by field (RFC 9146 §5):
/// eight bytes 0xFF, the content type 25, the number of bytes of the Connection ID, the
/// content type again, the version as it was sent, the epoch and the 48-bit record number
/// as the record header carries them, the Connection ID, and the length of the inner
/// plaintext. Numbers stand most significant byte first.
pub proof fn law_cid_aad_by_field(
    sequence: Sequence,
    version: Seq<u8>,
    cid: Seq<u8>,
    inner_plaintext_len: u16,
)
    requires
        version.len() == 2,
        cid.len() <= 255,
    ensures
        ({
            let aad = dtls12_cid_aad(sequence, version, cid, inner_plaintext_len);
            let n = cid.len() as int;
            &&& aad.len() == 23 + n
            &&& forall|i: int| 0 <= i < 8 ==> #[trigger] aad[i] == 255
            &&& aad[8] == 25
            &&& aad[9] == n
            &&& aad[10] == 25
            &&& aad[11] == version[0]
            &&& aad[12] == version[1]
            &&& aad[13] * 256 + aad[14] == sequence.epoch
            &&& aad[15] * 1099511627776 + aad[16] * 4294967296 + aad[17] * 16777216 + aad[18] * 65536
                + aad[19] * 256 + aad[20] == sequence.sequence_number as int % 281474976710656
            &&& forall|i: int| 0 <= i < n ==> #[trigger] aad[21 + i] == cid[i]
            &&& aad[21 + n] * 256 + aad[22 + n] == inner_plaintext_len
        }),
{
    let aad = dtls12_cid_aad(sequence, version, cid, inner_plaintext_len);
    let n = cid.len() as int;
    let low = wire::u48_bytes(sequence.sequence_number);
    wire::law_u16_is_most_significant_first(aad, 0, sequence.epoch);
    wire::law_u16_is_most_significant_first(aad, 0, inner_plaintext_len);
    wire::law_u48_is_most_significant_first(aad, 0, sequence.sequence_number);
    assert(aad[13] == wire::u16_bytes(sequence.epoch)[0]);
    assert(aad[14] == wire::u16_bytes(sequence.epoch)[1]);
    assert(aad[15] == low[0] && aad[16] == low[1] && aad[17] == low[2]);
    assert(aad[18] == low[3] && aad[19] == low[4] && aad[20] == low[5]);
    assert(aad[21 + n] == wire::u16_bytes(inner_plaintext_len)[0]);
    assert(aad[22 + n] == wire::u16_bytes(inner_plaintext_len)[1]);
}

} // verus!
