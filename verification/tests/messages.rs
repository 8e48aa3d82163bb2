use dimpl::buffer::Buf;
use dimpl::dtls12::message::extensions::connection_id::ConnectionIdExtension;
use dimpl::dtls12::message::extensions::use_srtp::SrtpProfileId;
use dimpl::dtls12::message::{
    CompressionMethod, Dtls12CipherSuite, ExtensionType, ProtocolVersion, Random, ServerHello,
    SessionId,
};
use dimpl::error::{ErrorKind, Severity};


#[test]
fn connection_id_roundtrip() {
    let cid = [0x01, 0x02, 0x03, 0x04];
    let ext = ConnectionIdExtension::new(&cid);

    let mut serialized = Buf::new();
    ext.serialize(&mut serialized);

    assert_eq!(
        &*serialized,
        &[0x04, 0x01, 0x02, 0x03, 0x04] // length(1) + cid(4)
    );

    let (rest, parsed) = ConnectionIdExtension::parse(&serialized).unwrap();
    assert!(rest.is_empty());
    assert_eq!(parsed, ext);
}

#[test]
fn empty_cid() {
    let ext = ConnectionIdExtension::new(&[]);

    let mut serialized = Buf::new();
    ext.serialize(&mut serialized);

    assert_eq!(&*serialized, &[0x00]); // length(1) only

    let (rest, parsed) = ConnectionIdExtension::parse(&serialized).unwrap();
    assert!(rest.is_empty());
    assert_eq!(parsed, ext);
}

/// RFC 9146 §3 defines the extension body as exactly a `ConnectionId`
/// structure. Trailing bytes must be rejected (RFC 5246 §7.2.2 decode_error).
#[test]
fn rejects_trailing_bytes() {
    // length(1) + cid(2) + trailing(1)
    let malformed = [0x02, 0xAA, 0xBB, 0xCC];
    assert!(ConnectionIdExtension::parse(&malformed).is_err());

    // Also check zero-length CID with trailing bytes.
    let malformed_zero = [0x00, 0xDE];
    assert!(ConnectionIdExtension::parse(&malformed_zero).is_err());
}


const MESSAGE: &[u8] = &[
    0xFE, 0xFD, // ProtocolVersion::DTLS1_2
    // Random
    0x01, 0x02, 0x03, 0x04, 0x05, 0x06, 0x07, 0x08, 0x09, 0x0A, 0x0B, 0x0C, 0x0D, 0x0E, 0x0F,
    0x10, 0x11, 0x12, 0x13, 0x14, 0x15, 0x16, 0x17, 0x18, 0x19, 0x1A, 0x1B, 0x1C, 0x1D, 0x1E,
    0x1F, 0x20, //
    0x01, // SessionId length
    0xAA, // SessionId
    0xC0, 0x2B, // Dtls12CipherSuite::ECDHE_ECDSA_AES128_GCM_SHA256
    0x00, // CompressionMethod::Null
    0x00, 0x0C, // Extensions length (12 bytes total: 2 type + 2 length + 8 data)
    0x00, 0x0A, // ExtensionType::SupportedGroups
    0x00, 0x08, // Extension data length (8 bytes)
    0x00, 0x06, // Extension data
    0x00, 0x17, // NamedGroup::Secp256r1
    0x00, 0x18, // NamedGroup::Secp384r1
    0x00, 0x19, // NamedGroup::Secp521r1
];

#[test]
fn server_hello_roundtrip() {
    // Parse the message first to get the Extension with proper ranges
    let (rest, parsed) = ServerHello::parse(MESSAGE, 0).unwrap();
    assert!(rest.is_empty());

    // Serialize and compare to MESSAGE
    let mut serialized = Buf::new();
    parsed.serialize(MESSAGE, &mut serialized);
    assert_eq!(&*serialized, MESSAGE);
}

#[test]
fn session_id_too_long() {
    let mut message = MESSAGE.to_vec();
    message[34] = 0x21; // SessionId length (33, which is too long)

    let result = ServerHello::parse(&message, 0);
    assert!(result.is_err());
}

/// RFC 5246 §7.4.1.4: duplicate Hello extensions are forbidden. A
/// ServerHello with two `connection_id` extensions must fail to
/// parse so the second value can't overwrite the first after the
/// client has stored `peer_cid`.
#[test]
fn duplicate_connection_id_extension_rejected() {
    // Build a fresh ServerHello: random + session_id + cipher_suite +
    // compression + extensions_length + two CID extensions.
    let mut msg: Vec<u8> = Vec::new();
    msg.extend_from_slice(&[0xFE, 0xFD]); // DTLS 1.2
    msg.extend_from_slice(&[0u8; 32]); // Random
    msg.push(0x00); // SessionId length = 0
    msg.extend_from_slice(&[0xC0, 0x2B]); // cipher suite
    msg.push(0x00); // compression method Null
    // extensions_length: two CID extensions, each 6 bytes → 12 bytes.
    msg.extend_from_slice(&0x000Cu16.to_be_bytes());
    // CID ext 1: type=0x0036, len=2, cid_len=1, cid=[0xAA]
    msg.extend_from_slice(&[0x00, 0x36, 0x00, 0x02, 0x01, 0xAA]);
    // CID ext 2: same type, different value → duplicate.
    msg.extend_from_slice(&[0x00, 0x36, 0x00, 0x02, 0x01, 0xBB]);

    let result = ServerHello::parse(&msg, 0);
    assert!(
        result.is_err(),
        "duplicate connection_id in ServerHello must fail to parse"
    );
}

fn hello_with(extensions: &[u8]) -> Vec<u8> {
    let mut msg: Vec<u8> = Vec::new();
    msg.extend_from_slice(&[0xFE, 0xFD]);
    msg.extend_from_slice(&[0u8; 32]);
    msg.push(0x00);
    msg.extend_from_slice(&[0xC0, 0x2B]);
    msg.push(0x00);
    msg.extend_from_slice(&(extensions.len() as u16).to_be_bytes());
    msg.extend_from_slice(extensions);
    msg
}

fn failure(msg: &[u8]) -> (Severity, ErrorKind, usize) {
    match ServerHello::parse(msg, 0) {
        Ok(_) => panic!("must fail to parse"),
        Err(f) => (f.severity, f.code, msg.len() - f.input.len()),
    }
}

#[test]
fn connection_id_failures_are_told_apart() {
    let eof = ConnectionIdExtension::parse(&[]).unwrap_err();
    assert_eq!((eof.severity, eof.code), (Severity::Error, ErrorKind::Eof));
    let short = ConnectionIdExtension::parse(&[3, 1, 2]).unwrap_err();
    assert_eq!((short.code, short.input), (ErrorKind::Eof, &[1u8, 2][..]));
    let long = ConnectionIdExtension::parse(&[1, 1, 2]).unwrap_err();
    assert_eq!((long.severity, long.code), (Severity::Error, ErrorKind::Verify));
    assert_eq!(long.input, &[2u8][..]);
}

#[test]
fn longest_connection_id_roundtrip() {
    let cid = [0xC1u8; 255];
    let ext = ConnectionIdExtension::new(&cid);
    let mut out = Buf::new();
    ext.clone().serialize(&mut out);
    assert_eq!(out.len(), 256);
    assert_eq!(out[0], 255);
    let (_, parsed) = ConnectionIdExtension::parse(&out).unwrap();
    assert_eq!(parsed, ext);
    assert_eq!(parsed.cid.as_slice(), &cid[..]);
}

#[test]
fn fields_of_a_server_hello() {
    let (_, hello) = ServerHello::parse(MESSAGE, 0).unwrap();
    assert_eq!(hello.server_version, ProtocolVersion::DTLS1_2);
    assert_eq!(hello.random.bytes[0], 1);
    assert_eq!(hello.random.bytes[31], 0x20);
    assert_eq!(hello.session_id.as_slice(), &[0xAA]);
    assert_eq!(hello.cipher_suite, Dtls12CipherSuite::ECDHE_ECDSA_AES128_GCM_SHA256);
    assert_eq!(hello.compression_method, CompressionMethod::Null);
    let extensions = hello.extensions.expect("extensions");
    assert_eq!(extensions.len(), 1);
    assert_eq!(extensions[0].extension_type, ExtensionType::SupportedGroups);
    assert_eq!(
        extensions[0].extension_data(MESSAGE),
        &[0x00, 0x06, 0x00, 0x17, 0x00, 0x18, 0x00, 0x19]
    );
}

#[test]
fn staged_extensions_are_read_back() {
    let (_, plain) = ServerHello::parse(&MESSAGE[..39], 0).unwrap();
    assert!(plain.extensions.is_none());
    let mut staged = Buf::new();
    staged.extend_from_slice(b"left over");
    let hello = plain.with_extensions(
        &mut staged,
        Some(SrtpProfileId::SRTP_AEAD_AES_128_GCM),
        Some(b"cid"),
    );
    assert_eq!(&*staged, &[0, 2, 0, 7, 0, 0, 3, b'c', b'i', b'd']);

    let mut out = Buf::new();
    hello.serialize(&staged, &mut out);
    assert_eq!(&out[..39], &MESSAGE[..39]);
    assert_eq!(
        &out[39..],
        &[
            0x00, 0x1A, // length of all extensions
            0x00, 0x0E, 0x00, 0x05, 0x00, 0x02, 0x00, 0x07, 0x00, // use_srtp
            0x00, 0x17, 0x00, 0x00, // extended_master_secret
            0xFF, 0x01, 0x00, 0x01, 0x00, // renegotiation_info
            0x00, 0x36, 0x00, 0x04, 0x03, b'c', b'i', b'd', // connection_id
        ]
    );

    // The message may stand anywhere in a buffer.
    let mut buf = vec![0xEE; 5];
    buf.extend_from_slice(&out);
    let (rest, read) = ServerHello::parse(&buf[5..], 5).unwrap();
    assert!(rest.is_empty());
    let extensions = read.extensions.as_ref().expect("extensions");
    let types: Vec<ExtensionType> = extensions.iter().map(|e| e.extension_type).collect();
    assert_eq!(
        types,
        &[
            ExtensionType::UseSrtp,
            ExtensionType::ExtendedMasterSecret,
            ExtensionType::RenegotiationInfo,
            ExtensionType::ConnectionId
        ]
    );
    assert_eq!(extensions[3].extension_data(&buf), &[3, b'c', b'i', b'd']);
    let mut again = Buf::new();
    read.serialize(&buf, &mut again);
    assert_eq!(again, out);
}

#[test]
fn only_mandatory_extensions() {
    let (_, plain) = ServerHello::parse(&MESSAGE[..39], 0).unwrap();
    let mut staged = Buf::new();
    let hello = plain.with_extensions(&mut staged, None, None);
    let mut out = Buf::new();
    hello.serialize(&staged, &mut out);
    assert_eq!(
        &out[39..],
        &[0x00, 0x09, 0x00, 0x17, 0x00, 0x00, 0xFF, 0x01, 0x00, 0x01, 0x00]
    );
}

#[test]
fn hello_built_from_its_fields() {
    let hello = ServerHello::new(
        ProtocolVersion::DTLS1_2,
        Random { bytes: [3; 32] },
        SessionId::new(&[1, 2]).expect("at most 32 bytes"),
        Dtls12CipherSuite::PSK_AES128_CCM_8,
        CompressionMethod::Null,
        None,
    );
    let mut out = Buf::new();
    hello.serialize(&[], &mut out);
    let (rest, read) = ServerHello::parse(&out, 0).unwrap();
    assert!(rest.is_empty());
    assert_eq!(read, hello);
    assert!(SessionId::new(&[0; 32]).is_some());
    assert!(SessionId::new(&[0; 33]).is_none());
}

#[test]
fn truncated_hello_is_refused_where_it_ends() {
    let ends = [
        (0, 0),
        (1, 0),
        (2, 2),
        (33, 2),
        (34, 34),
        (35, 35),
        (36, 36),
        (37, 36),
        (38, 38),
    ];
    for (len, at) in ends {
        assert_eq!(
            failure(&MESSAGE[..len]),
            (Severity::Error, ErrorKind::Eof, at),
            "{} bytes",
            len
        );
    }
    assert_eq!(failure(&MESSAGE[..40]), (Severity::Failure, ErrorKind::Eof, 39));
    assert_eq!(failure(&MESSAGE[..52]), (Severity::Failure, ErrorKind::Eof, 41));
}

#[test]
fn session_id_length_is_the_failure() {
    let mut message = MESSAGE.to_vec();
    message[34] = 0x21;
    assert_eq!(failure(&message), (Severity::Failure, ErrorKind::LengthValue, 35));
}

#[test]
fn bytes_behind_the_extensions_are_refused() {
    let mut message = MESSAGE.to_vec();
    message.push(0);
    assert_eq!(
        failure(&message),
        (Severity::Failure, ErrorKind::LengthValue, MESSAGE.len())
    );
}

#[test]
fn no_extensions_behind_their_length() {
    let mut message = hello_with(&[]);
    let (rest, hello) = ServerHello::parse(&message, 0).unwrap();
    assert!(rest.is_empty());
    assert!(hello.extensions.is_none());
    message.push(7);
    let (rest, _) = ServerHello::parse(&message, 0).unwrap();
    assert_eq!(rest, &[7]);
}

#[test]
fn duplicate_of_an_unsupported_type_is_refused() {
    let msg = hello_with(&[0x12, 0x34, 0x00, 0x00, 0x12, 0x34, 0x00, 0x00]);
    assert_eq!(failure(&msg), (Severity::Failure, ErrorKind::Verify, 44));
    // Once it is passed over.
    let msg = hello_with(&[0x12, 0x34, 0x00, 0x00, 0x00, 0x17, 0x00, 0x00]);
    let (_, hello) = ServerHello::parse(&msg, 0).unwrap();
    let extensions = hello.extensions.expect("extensions");
    assert_eq!(extensions.len(), 1);
    assert_eq!(extensions[0].extension_type, ExtensionType::ExtendedMasterSecret);
}

#[test]
fn malformed_extension_is_refused_where_it_ends() {
    assert_eq!(
        failure(&hello_with(&[0x00])),
        (Severity::Error, ErrorKind::Eof, 40)
    );
    assert_eq!(
        failure(&hello_with(&[0x00, 0x17, 0x00])),
        (Severity::Error, ErrorKind::Eof, 42)
    );
    assert_eq!(
        failure(&hello_with(&[0x00, 0x17, 0x00, 0x02, 0xAA])),
        (Severity::Error, ErrorKind::Eof, 44)
    );
}

#[test]
fn at_most_64_extensions() {
    let mut extensions: Vec<u8> = Vec::new();
    for i in 0..64u16 {
        extensions.extend_from_slice(&(0x2000 + i).to_be_bytes());
        extensions.extend_from_slice(&[0, 0]);
    }
    let (_, hello) = ServerHello::parse(&hello_with(&extensions), 0).unwrap();
    assert_eq!(hello.extensions.expect("extensions").len(), 0);
    extensions.extend_from_slice(&[0x30, 0x00, 0x00, 0x00]);
    assert_eq!(
        failure(&hello_with(&extensions)),
        (Severity::Failure, ErrorKind::TooLarge, 40 + 64 * 4)
    );
}

#[test]
fn all_supported_types_fit() {
    let codes: [u16; 7] = [0x000A, 0x000B, 0x000D, 0x000E, 0x0017, 0x0036, 0xFF01];
    let mut extensions: Vec<u8> = Vec::new();
    for code in codes {
        extensions.extend_from_slice(&code.to_be_bytes());
        extensions.extend_from_slice(&[0, 1, 9]);
        assert!(ExtensionType::from_u16(code).is_supported());
        assert_eq!(ExtensionType::from_u16(code).as_u16(), code);
    }
    let msg = hello_with(&extensions);
    let (_, hello) = ServerHello::parse(&msg, 0).unwrap();
    let read = hello.extensions.as_ref().expect("extensions");
    let found: Vec<u16> = read.iter().map(|e| e.extension_type.as_u16()).collect();
    assert_eq!(found, codes);
    let mut out = Buf::new();
    hello.serialize(&msg, &mut out);
    assert_eq!(out, msg);
}

#[test]
fn code_points_that_are_not_known_are_kept() {
    let mut msg = MESSAGE[..39].to_vec();
    msg[0] = 0x12;
    msg[1] = 0x34;
    msg[36] = 0x56;
    msg[37] = 0x78;
    msg[38] = 0x09;
    let (_, hello) = ServerHello::parse(&msg, 0).unwrap();
    assert_eq!(hello.server_version, ProtocolVersion::Unknown(0x1234));
    assert_eq!(hello.cipher_suite, Dtls12CipherSuite::Unknown(0x5678));
    assert_eq!(hello.compression_method, CompressionMethod::Unknown(9));
    let mut out = Buf::new();
    hello.serialize(&[], &mut out);
    assert_eq!(out, msg);
}
