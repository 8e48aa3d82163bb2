use dimpl::crypto::dtls_aead::{
    aad_len_from_plaintext_len, fragment_len_from_plaintext_len, plaintext_len_from_fragment_len,
    DTLS_AEAD_OVERHEAD, DTLS_EXPLICIT_NONCE_LEN, GCM_TAG_LEN,
};
use dimpl::crypto::{Aad, Iv, Nonce};
use dimpl::types::{ContentType, Sequence};


#[test]
fn aead_constants_and_length_helpers() {
    assert_eq!(DTLS_EXPLICIT_NONCE_LEN, 8);
    assert_eq!(GCM_TAG_LEN, 16);
    assert_eq!(DTLS_AEAD_OVERHEAD, 24);

    for &pt_len in &[0usize, 1, 37, 512, 1350, 16384] {
        let aad_len = aad_len_from_plaintext_len(pt_len as u16);
        assert_eq!(aad_len as usize, pt_len);

        let frag_len = fragment_len_from_plaintext_len(pt_len);
        assert_eq!(frag_len, DTLS_EXPLICIT_NONCE_LEN + pt_len + GCM_TAG_LEN);

        let roundtrip =
            plaintext_len_from_fragment_len(frag_len).expect("frag_len >= overhead");
        assert_eq!(roundtrip, pt_len);
    }

    assert!(plaintext_len_from_fragment_len(0).is_none());
    assert!(plaintext_len_from_fragment_len(3).is_none());
    assert!(plaintext_len_from_fragment_len(DTLS_AEAD_OVERHEAD - 1).is_none());
}

#[test]
fn aad_new_dtls12_cid_layout() {
    // RFC 9146 §5 AAD layout verification
    let sequence = Sequence {
        epoch: 1,
        sequence_number: 42,
    };
    let cid = b"test-cid";
    let inner_plaintext_len: u16 = 100;

    let aad = Aad::new_dtls12_cid(sequence, [0xFE, 0xFD], cid, inner_plaintext_len);
    let bytes = aad.as_slice();

    // Total: 8 + 1 + 1 + 1 + 2 + 2 + 6 + 8 + 2 = 31 bytes
    assert_eq!(bytes.len(), 23 + cid.len());

    // seq_num_placeholder: 8 bytes of 0xFF
    assert_eq!(&bytes[0..8], &[0xFF; 8]);
    // tls12_cid content type
    assert_eq!(bytes[8], 25);
    // cid_length
    assert_eq!(bytes[9], cid.len() as u8);
    // tls12_cid content type again
    assert_eq!(bytes[10], 25);
    // version: DTLS 1.2 = {0xFE, 0xFD}
    assert_eq!(&bytes[11..13], &[0xFE, 0xFD]);
    // epoch
    assert_eq!(&bytes[13..15], &[0x00, 0x01]);
    // sequence_number (6 bytes)
    assert_eq!(&bytes[15..21], &[0x00, 0x00, 0x00, 0x00, 0x00, 42]);
    // CID
    assert_eq!(&bytes[21..21 + cid.len()], cid);
    // inner_plaintext_len
    assert_eq!(&bytes[21 + cid.len()..], &inner_plaintext_len.to_be_bytes());
}

#[test]
fn lengths_at_the_overhead() {
    assert_eq!(plaintext_len_from_fragment_len(24), Some(0));
    assert_eq!(plaintext_len_from_fragment_len(25), Some(1));
    assert_eq!(fragment_len_from_plaintext_len(0), 24);
}

#[test]
fn iv_keeps_its_bytes() {
    let short = Iv::new(&[1, 2, 3, 4]);
    assert_eq!(short.len(), 4);
    assert_eq!(short.as_slice(), &[1, 2, 3, 4]);
    let full = Iv::new(&[1, 2, 3, 4, 5, 6, 7, 8, 9, 10, 11, 12]);
    assert_eq!(full.len(), 12);
    assert_eq!(full.as_12_bytes(), &[1, 2, 3, 4, 5, 6, 7, 8, 9, 10, 11, 12]);
    assert_eq!(Iv::new(&[]).len(), 0);
}

#[test]
fn ivs_are_equal_where_their_bytes_are() {
    assert_eq!(Iv::new(&[1, 2]), Iv::new(&[1, 2]));
    assert_eq!(Iv::new(&[]), Iv::new(&[]));
    assert_eq!(Iv::new(&[9; 12]), Iv::new(&[9; 12]));
    assert_ne!(Iv::new(&[1, 2]), Iv::new(&[1, 3]));
    assert_ne!(Iv::new(&[1, 2]), Iv::new(&[1, 2, 0]));
    assert_ne!(Iv::new(&[]), Iv::new(&[0; 12]));
}

#[test]
fn nonce_is_iv_and_explicit_nonce() {
    let nonce = Nonce::new(Iv::new(&[1, 2, 3, 4]), &[5, 6, 7, 8, 9, 10, 11, 12]);
    assert_eq!(nonce.0, [1, 2, 3, 4, 5, 6, 7, 8, 9, 10, 11, 12]);
    let nonce = Nonce::new(Iv::new(&[7u8; 12]), &[]);
    assert_eq!(nonce.0, [7u8; 12]);
}

#[test]
fn xor_nonce_combines_the_record_number() {
    let iv = [
        0xA0, 0xA1, 0xA2, 0xA3, 0xFF, 0x00, 0x0F, 0xF0, 0x11, 0x22, 0x33, 0x44,
    ];
    let nonce = Nonce::xor(&iv, 0x0102_0304_0506_0708);
    assert_eq!(
        nonce.0,
        [0xA0, 0xA1, 0xA2, 0xA3, 0xFE, 0x02, 0x0C, 0xF4, 0x14, 0x24, 0x34, 0x4C]
    );
    // Once more with the same number gives the IV back.
    assert_eq!(Nonce::xor(&nonce.0, 0x0102_0304_0506_0708).0, iv);
    // Another number gives another nonce.
    assert_ne!(Nonce::xor(&iv, 1), Nonce::xor(&iv, 2));
    assert_ne!(Nonce::xor(&iv, 0), Nonce::xor(&iv, 1 << 63));
    assert_eq!(Nonce::xor(&iv, 0).0, iv);
}

#[test]
fn aad_new_dtls12_layout() {
    let sequence = Sequence {
        epoch: 0x0102,
        sequence_number: 0x0304_0506_0708,
    };
    let aad = Aad::new_dtls12(ContentType::ApplicationData, sequence, [0xFE, 0xFF], 0x1234);
    assert_eq!(
        aad.as_slice(),
        &[1, 2, 3, 4, 5, 6, 7, 8, 23, 0xFE, 0xFF, 0x12, 0x34]
    );
    assert_eq!(aad.len(), 13);
    assert_eq!(aad.clone(), aad);
    assert_eq!(aad.0.len(), 13);
}

#[test]
fn aad_keeps_the_low_48_bits_of_the_number() {
    let sequence = Sequence {
        epoch: 1,
        sequence_number: 0xFFFF_0000_0000_0002,
    };
    let aad = Aad::new_dtls12(ContentType::Alert, sequence, [0xFE, 0xFD], 2);
    assert_eq!(aad.as_slice(), &[0, 1, 0, 0, 0, 0, 0, 2, 21, 0xFE, 0xFD, 0, 2]);
}

#[test]
fn aad_holds_the_longest_connection_id() {
    let sequence = Sequence {
        epoch: 1,
        sequence_number: 1,
    };
    let cid = [0x5Au8; 255];
    let aad = Aad::new_dtls12_cid(sequence, [0xFE, 0xFD], &cid, 0xFFFF);
    assert_eq!(aad.as_slice().len(), 278);
    assert_eq!(aad.as_slice()[9], 255);
    assert_eq!(&aad.as_slice()[21..276], &cid[..]);
    assert_eq!(&aad.as_slice()[276..], &[0xFF, 0xFF]);
    // Another Connection ID, or another length of the plaintext, is other data.
    let mut other = cid;
    other[254] = 0;
    assert_ne!(aad, Aad::new_dtls12_cid(sequence, [0xFE, 0xFD], &other, 0xFFFF));
    assert_ne!(aad, Aad::new_dtls12_cid(sequence, [0xFE, 0xFD], &cid, 0xFFFE));
    assert_ne!(aad, Aad::new_dtls12_cid(sequence, [0xFE, 0xFF], &cid, 0xFFFF));
}

#[test]
fn aad_new_dtls13_is_the_header() {
    assert_eq!(Aad::new_dtls13(&[0x2F, 1, 2]).as_slice(), &[0x2F, 1, 2]);
    assert_eq!(Aad::new_dtls13(&[]).as_slice(), &[] as &[u8]);
}
