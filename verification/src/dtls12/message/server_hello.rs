//! The `ServerHello` message.

use std::ops::Range;
use vstd::prelude::*;

use super::cipher_suite::Dtls12CipherSuite;
use super::extension::{Extension, ExtensionType, ExtensionVec};
use super::extensions::connection_id::ConnectionIdExtension;
use super::extensions::use_srtp::{SrtpProfileId, UseSrtpExtension};
use super::hello_fields::{CompressionMethod, Random, SessionId};
use super::version::ProtocolVersion;
use crate::arrays;
use crate::buffer::Buf;
use crate::error::{ErrorKind, FailAt, ParseFailure, ParseResult, Severity};
use crate::wire;

verus! {

/// The answer of a server to a `ClientHello`. The data of the extensions lies in the
/// buffer that the message was read from, or that they were staged in.
#[derive(Debug, PartialEq, Eq)]
pub struct ServerHello {
    pub server_version: ProtocolVersion,
    pub random: Random,
    pub session_id: SessionId,
    pub cipher_suite: Dtls12CipherSuite,
    pub compression_method: CompressionMethod,
    pub extensions: Option<ExtensionVec>,
}

/// What a [`ServerHello`] holds.
#[verifier::ext_equal]
pub struct HelloView {
    pub server_version: ProtocolVersion,
    pub random: Seq<u8>,
    pub session_id: Seq<u8>,
    pub cipher_suite: Dtls12CipherSuite,
    pub compression_method: CompressionMethod,
    pub extensions: Option<Seq<Extension>>,
}

impl View for ServerHello {
    type V = HelloView;

    open spec fn view(&self) -> HelloView {
        HelloView {
            server_version: self.server_version,
            random: self.random.bytes@,
            session_id: self.session_id@,
            cipher_suite: self.cipher_suite,
            compression_method: self.compression_method,
            extensions: listed(self.extensions),
        }
    }
}

/// The items of a list, where there is one.
pub open spec fn listed(v: Option<ExtensionVec>) -> Option<Seq<Extension>> {
    match v {
        Some(list) => Some(arrays::extension_items(list)),
        None => None,
    }
}

/// The extensions of `list` as they are written, one behind the other.
pub open spec fn extensions_bytes(list: Seq<Extension>, source: Seq<u8>) -> Seq<u8>
    decreases list.len(),
{
    if list.len() == 0 {
        Seq::empty()
    } else {
        extensions_bytes(list.drop_last(), source) + list.last().bytes(source)
    }
}

/// The message: version, random, session identifier, cipher suite, compression
/// method and, where there are any, the extensions behind their total length.
pub open spec fn hello_bytes(h: HelloView, source: Seq<u8>) -> Seq<u8> {
    let fixed = wire::u16_bytes(h.server_version.code()) + h.random + seq![
        h.session_id.len() as u8,
    ] + h.session_id + wire::u16_bytes(h.cipher_suite.code()) + seq![h.compression_method.code()];
    match h.extensions {
        Some(list) => {
            let body = extensions_bytes(list, source);
            fixed + wire::u16_bytes(super::extension::low16(body.len())) + body
        },
        None => fixed,
    }
}

/// The supported extensions from `pos` of `s` to its end, where the codes `seen` came
/// before. A code may occur once only, whether it is supported or not (RFC 5246
/// §7.4.1.4), and at most 64 extensions are accepted.
pub open spec fn extensions_from(s: Seq<u8>, pos: nat, base: nat, seen: Seq<u16>) -> Result<
    Seq<Extension>,
    FailAt,
>
    decreases s.len() - pos,
{
    if pos >= s.len() {
        Ok(Seq::empty())
    } else {
        match super::extension::extension_at(s, pos, base) {
            Err(f) => Err(f),
            Ok(e) => {
                let code = wire::u16_at(s, pos as int);
                let next = pos + 4 + wire::u16_at(s, pos as int + 2);
                if seen.contains(code) {
                    Err(FailAt { severity: Severity::Failure, at: pos, code: ErrorKind::Verify })
                } else if seen.len() >= 64 {
                    Err(FailAt { severity: Severity::Failure, at: pos, code: ErrorKind::TooLarge })
                } else {
                    match extensions_from(s, next as nat, base, seen.push(code)) {
                        Err(f) => Err(f),
                        Ok(tail) => Ok(
                            if e.extension_type.supported() {
                                seq![e] + tail
                            } else {
                                tail
                            },
                        ),
                    }
                }
            },
        }
    }
}

/// Where the extensions of a message start: behind the fixed fields, whose length
/// depends on the session identifier.
pub open spec fn extensions_start(s: Seq<u8>) -> nat {
    (38 + s[34]) as nat
}

/// The extensions of the message `s`, and how many of its bytes are read.
pub open spec fn extension_block(s: Seq<u8>, base: nat) -> Result<
    (Option<Seq<Extension>>, nat),
    FailAt,
> {
    let start = extensions_start(s);
    let len = wire::u16_at(s, start as int);
    if s.len() == start {
        Ok((None, start))
    } else if s.len() < start + 2 {
        Err(FailAt { severity: Severity::Failure, at: start, code: ErrorKind::Eof })
    } else if s.len() < start + 2 + len {
        Err(FailAt { severity: Severity::Failure, at: start + 2, code: ErrorKind::Eof })
    } else if len == 0 {
        Ok((None, start + 2))
    } else if s.len() > start + 2 + len {
        Err(
            FailAt {
                severity: Severity::Failure,
                at: (start + 2 + len) as nat,
                code: ErrorKind::LengthValue,
            },
        )
    } else {
        match extensions_from(s, start + 2, base, Seq::empty()) {
            Err(f) => Err(f),
            Ok(list) => Ok((Some(list), s.len())),
        }
    }
}

/// The message in `s`, and how many of its bytes are read, where `s` itself starts at
/// `base` of a larger buffer.
pub open spec fn hello_in(s: Seq<u8>, base: nat) -> Result<(HelloView, nat), FailAt> {
    if s.len() < 2 {
        Err(crate::error::eof_at(0))
    } else if s.len() < 34 {
        Err(crate::error::eof_at(2))
    } else if s.len() < 35 {
        Err(crate::error::eof_at(34))
    } else if s[34] > 32 {
        Err(FailAt { severity: Severity::Failure, at: 35, code: ErrorKind::LengthValue })
    } else if s.len() < 35 + s[34] {
        Err(crate::error::eof_at(35))
    } else if s.len() < 37 + s[34] {
        Err(crate::error::eof_at((35 + s[34]) as nat))
    } else if s.len() < 38 + s[34] {
        Err(crate::error::eof_at((37 + s[34]) as nat))
    } else {
        match extension_block(s, base) {
            Err(f) => Err(f),
            Ok((extensions, used)) => Ok(
                (
                    HelloView {
                        server_version: ProtocolVersion::of_code(wire::u16_at(s, 0)),
                        random: s.subrange(2, 34),
                        session_id: s.subrange(35, 35 + s[34]),
                        cipher_suite: Dtls12CipherSuite::of_code(wire::u16_at(s, 35 + s[34])),
                        compression_method: CompressionMethod::of_code(s[37 + s[34]]),
                        extensions,
                    },
                    used,
                ),
            ),
        }
    }
}

/// The bodies that [`ServerHello::with_extensions`] stages, one behind the other.
pub open spec fn staged_bytes(srtp_profile: Option<SrtpProfileId>, cid: Option<Seq<u8>>) -> Seq<
    u8,
> {
    (match srtp_profile {
        Some(p) => super::extensions::use_srtp::srtp_body(p),
        None => Seq::empty(),
    }) + seq![0u8] + (match cid {
        Some(c) => super::extensions::connection_id::cid_body(c),
        None => Seq::empty(),
    })
}

/// The extension of type `t` with its data from `start` to `end`.
pub open spec fn extension_of(t: ExtensionType, start: nat, end: nat) -> Extension {
    Extension {
        extension_type: t,
        extension_data_range: Range { start: start as usize, end: end as usize },
    }
}

/// The extensions that [`ServerHello::with_extensions`] adds, in order: `use_srtp`
/// where a profile was chosen, `extended_master_secret`, `renegotiation_info`, and
/// `connection_id` where there is one.
pub open spec fn staged_extensions(
    srtp_profile: Option<SrtpProfileId>,
    cid: Option<Seq<u8>>,
) -> Seq<Extension> {
    let n: nat = if srtp_profile is Some {
        5
    } else {
        0
    };
    (match srtp_profile {
        Some(_) => seq![extension_of(ExtensionType::UseSrtp, 0, n)],
        None => Seq::empty(),
    }) + seq![
        extension_of(ExtensionType::ExtendedMasterSecret, n, n),
        extension_of(ExtensionType::RenegotiationInfo, n, n + 1),
    ] + (match cid {
        Some(c) => seq![extension_of(ExtensionType::ConnectionId, n + 1, n + 2 + c.len())],
        None => Seq::empty(),
    })
}

impl ServerHello {
    pub fn new(
        server_version: ProtocolVersion,
        random: Random,
        session_id: SessionId,
        cipher_suite: Dtls12CipherSuite,
        compression_method: CompressionMethod,
        extensions: Option<ExtensionVec>,
    ) -> (r: ServerHello)
        ensures
            r == (ServerHello {
                server_version,
                random,
                session_id,
                cipher_suite,
                compression_method,
                extensions,
            }),
    {
        ServerHello {
            server_version,
            random,
            session_id,
            cipher_suite,
            compression_method,
            extensions,
        }
    }

    /// Add extensions to ServerHello using a builder-style API.
    ///
    /// - Uses the provided buffer to stage extension bytes and then stores Range references
    /// - Includes UseSRTP if a profile is provided
    /// - Includes the Connection ID if one is provided
    #[verifier::rlimit(30)]
    pub fn with_extensions(
        self,
        buf: &mut Buf,
        srtp_profile: Option<SrtpProfileId>,
        connection_id: Option<&[u8]>,
    ) -> (r: ServerHello)
        requires
            connection_id matches Some(cid) ==> cid@.len() <= 255,
        ensures
            final(buf)@ == staged_bytes(
                srtp_profile,
                match connection_id {
                    Some(cid) => Some(cid@),
                    None => None,
                },
            ),
            r@ == (HelloView {
                extensions: Some(
                    staged_extensions(
                        srtp_profile,
                        match connection_id {
                            Some(cid) => Some(cid@),
                            None => None,
                        },
                    ),
                ),
                ..self@
            }),
    {
        buf.clear();
        let mut extensions = arrays::extension_new();
        // UseSRTP (if negotiated)
        if let Some(pid) = srtp_profile {
            UseSrtpExtension::new(pid).serialize(buf);
            let _ = arrays::extension_push(
                &mut extensions,
                Extension { extension_type: ExtensionType::UseSrtp, extension_data_range: 0..buf.len() },
            );
        }
        // Extended Master Secret (mandatory)
        let start: usize = buf.len();
        let _ = arrays::extension_push(
            &mut extensions,
            Extension {
                extension_type: ExtensionType::ExtendedMasterSecret,
                extension_data_range: start..start,
            },
        );
        // Renegotiation Info (RFC 5746) - empty for initial handshake
        buf.push(0);
        let _ = arrays::extension_push(
            &mut extensions,
            Extension {
                extension_type: ExtensionType::RenegotiationInfo,
                extension_data_range: start..buf.len(),
            },
        );
        // Connection ID (RFC 9146) - echo our CID if the client offered CID
        if let Some(cid) = connection_id {
            let start: usize = buf.len();
            ConnectionIdExtension::new(cid).serialize(buf);
            let _ = arrays::extension_push(
                &mut extensions,
                Extension {
                    extension_type: ExtensionType::ConnectionId,
                    extension_data_range: start..buf.len(),
                },
            );
        }
        proof {
            let cid = match connection_id {
                Some(cid) => Some(cid@),
                None => None,
            };
            assert(buf@ =~= staged_bytes(srtp_profile, cid));
            assert(arrays::extension_items(extensions) =~= staged_extensions(srtp_profile, cid));
        }
        ServerHello {
            server_version: self.server_version,
            random: self.random,
            session_id: self.session_id,
            cipher_suite: self.cipher_suite,
            compression_method: self.compression_method,
            extensions: Some(extensions),
        }
    }

    /// Reads the extensions from `pos` of `input` to its end; see [`extensions_from`].
    #[verifier::rlimit(30)]
    fn parse_extensions(input: &[u8], pos: usize, base_offset: usize) -> (r: Result<
        ExtensionVec,
        ParseFailure<'_>,
    >)
        requires
            pos <= input@.len(),
            base_offset + input@.len() <= usize::MAX,
        ensures
            match extensions_from(input@, pos as nat, base_offset as nat, Seq::empty()) {
                Ok(list) => r matches Ok(v) && arrays::extension_items(v) == list,
                Err(f) => r matches Err(e) && crate::error::fails_at(e, input@, f),
            },
    {
        let ghost all = extensions_from(input@, pos as nat, base_offset as nat, Seq::empty());
        let mut extensions = arrays::extension_new();
        let mut seen_types = arrays::code_new();
        let mut at: usize = pos;
        proof {
            let acc = arrays::extension_items(extensions);
            assert(all matches Ok(tail) ==> acc + tail =~= tail);
        }
        while at < input.len()
            invariant
                at <= input@.len(),
                base_offset + input@.len() <= usize::MAX,
                listed_in(arrays::extension_items(extensions), arrays::code_items(seen_types)),
                all == extensions_from(input@, pos as nat, base_offset as nat, Seq::empty()),
                match extensions_from(
                    input@,
                    at as nat,
                    base_offset as nat,
                    arrays::code_items(seen_types),
                ) {
                    Ok(tail) => all == Ok::<Seq<Extension>, FailAt>(
                        arrays::extension_items(extensions) + tail,
                    ),
                    Err(f) => all == Err::<Seq<Extension>, FailAt>(f),
                },
            decreases input@.len() - at,
        {
            let ghost acc = arrays::extension_items(extensions);
            let ghost seen = arrays::code_items(seen_types);
            let ghost s = input@;
            let current = &input[at..input.len()];
            proof {
                assert(current@ =~= s.skip(at as int));
                lemma_extension_at(s, at as nat, base_offset as nat);
            }
            let (ext, parsed_len) = match Extension::parse(current, base_offset + at) {
                Ok((rest, ext)) => (ext, current.len() - rest.len()),
                Err(e) => {
                    proof {
                        lemma_skip_skip(s, at as int);
                    }
                    return Err(e);
                },
            };
            let ty: u16 = ext.extension_type.as_u16();
            // RFC 5246 §7.4.1.4: no two extensions of the same type. The rule applies to
            // every code point, not only to those that are kept.
            if contains_code(arrays::code_slice(&seen_types), ty) {
                return Err(
                    ParseFailure {
                        severity: Severity::Failure,
                        input: current,
                        code: ErrorKind::Verify,
                    },
                );
            }
            if !arrays::code_push(&mut seen_types, ty) {
                return Err(
                    ParseFailure {
                        severity: Severity::Failure,
                        input: current,
                        code: ErrorKind::TooLarge,
                    },
                );
            }
            proof {
                assert(seen.push(ty).last() == ty);
                assert forall|k: int| 0 <= k < acc.len() implies seen.push(ty).contains(
                    #[trigger] acc[k].extension_type.code(),
                ) by {
                    let j = choose|j: int|
                        0 <= j < seen.len() && seen[j] == acc[k].extension_type.code();
                    assert(seen.push(ty)[j] == acc[k].extension_type.code());
                }
            }
            if ext.extension_type.is_supported() {
                proof {
                    assert(seen.push(ty)[seen.len() as int] == ty);
                    assert(listed_in(acc.push(ext), seen.push(ty)));
                    lemma_supported_fit(acc.push(ext), seen.push(ty));
                    let tail = extensions_from(
                        s,
                        (at + parsed_len) as nat,
                        base_offset as nat,
                        seen.push(ty),
                    );
                    if let Ok(tail) = tail {
                        assert(acc + (seq![ext] + tail) =~= acc.push(ext) + tail);
                    }
                }
                let _ = arrays::extension_push(&mut extensions, ext);
            }
            at = at + parsed_len;
        }
        proof {
            let acc = arrays::extension_items(extensions);
            assert(acc + Seq::<Extension>::empty() =~= acc);
        }
        Ok(extensions)
    }

    /// Reads the extensions of the message `input`, which start at `start`, and says how
    /// many bytes of the message are read; see [`extension_block`].
    fn parse_extension_block(input: &[u8], start: usize, base_offset: usize) -> (r: Result<
        (Option<ExtensionVec>, usize),
        ParseFailure<'_>,
    >)
        requires
            input@.len() > 34,
            start == extensions_start(input@) <= input@.len(),
            base_offset + input@.len() <= usize::MAX,
        ensures
            match extension_block(input@, base_offset as nat) {
                Ok((list, used)) => r matches Ok((v, n)) && n == used && used <= input@.len()
                    && listed(v) == list,
                Err(f) => r matches Err(e) && crate::error::fails_at(e, input@, f),
            },
    {
        let rest = &input[start..input.len()];
        if rest.len() == 0 {
            return Ok((None, start));
        }
        if rest.len() < 2 {
            return Err(
                ParseFailure { severity: Severity::Failure, input: rest, code: ErrorKind::Eof },
            );
        }
        let extensions_len: usize = wire::read_u16(rest, 0) as usize;
        let pos: usize = start + 2;
        let body = &input[pos..input.len()];
        if body.len() < extensions_len {
            return Err(
                ParseFailure { severity: Severity::Failure, input: body, code: ErrorKind::Eof },
            );
        }
        if extensions_len == 0 {
            return Ok((None, pos));
        }
        if body.len() > extensions_len {
            let after = &input[pos + extensions_len..input.len()];
            return Err(
                ParseFailure {
                    severity: Severity::Failure,
                    input: after,
                    code: ErrorKind::LengthValue,
                },
            );
        }
        match ServerHello::parse_extensions(input, pos, base_offset) {
            Ok(list) => Ok((Some(list), input.len())),
            Err(e) => Err(e),
        }
    }

    #[verifier::rlimit(30)]
    pub fn parse(input: &[u8], base_offset: usize) -> (r: ParseResult<'_, ServerHello>)
        requires
            base_offset + input@.len() <= usize::MAX,
        ensures
            match hello_in(input@, base_offset as nat) {
                Ok((v, used)) => r matches Ok((rest, h)) && h@ == v && rest@ == input@.skip(
                    used as int,
                ),
                Err(f) => crate::error::fails_as(r, input@, f),
            },
    {
        let ghost s = input@;
        assert(s.skip(0) =~= s);
        let (rest, server_version) = match ProtocolVersion::parse(input) {
            Ok(v) => v,
            Err(e) => return Err(e),
        };
        let (rest, random) = match Random::parse(rest) {
            Ok(v) => v,
            Err(e) => return Err(e),
        };
        assert(random.bytes@ =~= s.subrange(2, 34));
        assert(rest@ =~= s.skip(34));
        let (rest, session_id) = match SessionId::parse(rest) {
            Ok(v) => v,
            Err(e) => {
                proof {
                    lemma_skip_skip(s, 34);
                }
                return Err(e);
            },
        };
        let ghost n = s[34] as int;
        assert(session_id@ =~= s.subrange(35, 35 + n));
        assert(rest@ =~= s.skip(35 + n));
        let (rest, cipher_suite) = match Dtls12CipherSuite::parse(rest) {
            Ok(v) => v,
            Err(e) => return Err(e),
        };
        assert(rest@ =~= s.skip(37 + n));
        let (rest, compression_method) = match CompressionMethod::parse(rest) {
            Ok(v) => v,
            Err(e) => return Err(e),
        };
        assert(rest@ =~= s.skip(38 + n));
        let start: usize = input.len() - rest.len();
        let (extensions, used) = match ServerHello::parse_extension_block(input, start, base_offset) {
            Ok(v) => v,
            Err(e) => return Err(e),
        };
        let rest = &input[used..input.len()];
        Ok(
            (
                rest,
                ServerHello {
                    server_version,
                    random,
                    session_id,
                    cipher_suite,
                    compression_method,
                    extensions,
                },
            ),
        )
    }
}

impl ServerHello {
    /// The data of all extensions lies in `source`, and the message fits into memory.
    pub open spec fn staged_in(&self, source: Seq<u8>) -> bool {
        self@.extensions matches Some(list) ==> {
            &&& forall|i: int| 0 <= i < list.len() ==> (#[trigger] list[i]).lies_in(source)
            &&& extensions_bytes(list, source).len() <= usize::MAX
        }
    }

    /// Writes the message; `source_buf` holds the data of the extensions.
    #[verifier::rlimit(30)]
    pub fn serialize(&self, source_buf: &[u8], output: &mut Buf)
        requires
            self.staged_in(source_buf@),
        ensures
            final(output)@ == old(output)@ + hello_bytes(self@, source_buf@),
    {
        let ghost src = source_buf@;
        wire::push_u16(output, self.server_version.as_u16());
        self.random.serialize(output);
        let session_id = self.session_id.as_slice();
        output.push(session_id.len() as u8);
        output.extend_from_slice(session_id);
        wire::push_u16(output, self.cipher_suite.as_u16());
        output.push(self.compression_method.as_u8());
        assert(output@ =~= old(output)@ + hello_bytes((HelloView { extensions: None, ..self@ }), src));
        if let Some(extensions) = &self.extensions {
            let list: &[Extension] = arrays::extension_slice(extensions);
            let ghost fixed = output@;
            // For each extension: type (2) + length (2) + data
            let mut extensions_len: usize = 0;
            let mut i: usize = 0;
            while i < list.len()
                invariant
                    i <= list@.len(),
                    src == source_buf@,
                    forall|k: int| 0 <= k < list@.len() ==> (#[trigger] list@[k]).lies_in(src),
                    extensions_bytes(list@, src).len() <= usize::MAX,
                    extensions_len == extensions_bytes(list@.take(i as int), src).len(),
                decreases list@.len() - i,
            {
                proof {
                    lemma_extensions_bytes_step(list@, src, i as int);
                    lemma_extensions_bytes_grow(list@, src, i + 1);
                }
                let ext_data = list[i].extension_data(source_buf);
                extensions_len = extensions_len + 2 + 2 + ext_data.len();
                i = i + 1;
            }
            assert(list@.take(i as int) =~= list@);
            wire::push_u16(output, (extensions_len % 0x1_0000) as u16);
            let ghost head = output@;
            let mut i: usize = 0;
            assert(output@ =~= head + extensions_bytes(list@.take(0), src));
            while i < list.len()
                invariant
                    i <= list@.len(),
                    src == source_buf@,
                    forall|k: int| 0 <= k < list@.len() ==> (#[trigger] list@[k]).lies_in(src),
                    output@ == head + extensions_bytes(list@.take(i as int), src),
                decreases list@.len() - i,
            {
                proof {
                    lemma_extensions_bytes_step(list@, src, i as int);
                }
                list[i].serialize(source_buf, output);
                i = i + 1;
                assert(output@ =~= head + extensions_bytes(list@.take(i as int), src));
            }
            assert(list@.take(i as int) =~= list@);
            assert(output@ =~= old(output)@ + hello_bytes(self@, src));
        }
    }
}

/// One more extension is written behind those before it.
proof fn lemma_extensions_bytes_step(list: Seq<Extension>, source: Seq<u8>, i: int)
    requires
        0 <= i < list.len(),
    ensures
        extensions_bytes(list.take(i + 1), source) == extensions_bytes(list.take(i), source)
            + list[i].bytes(source),
{
    assert(list.take(i + 1).drop_last() =~= list.take(i));
}

/// The first extensions of a list are not longer than all of them.
proof fn lemma_extensions_bytes_grow(list: Seq<Extension>, source: Seq<u8>, i: int)
    requires
        0 <= i <= list.len(),
    ensures
        extensions_bytes(list.take(i), source).len() <= extensions_bytes(list, source).len(),
    decreases list.len() - i,
{
    if i < list.len() {
        lemma_extensions_bytes_grow(list, source, i + 1);
        lemma_extensions_bytes_step(list, source, i);
    } else {
        assert(list.take(i) =~= list);
    }
}

/// All of `list` are supported, no type occurs twice, and the codes of all are in
/// `codes`.
pub open spec fn listed_in(list: Seq<Extension>, codes: Seq<u16>) -> bool {
    &&& forall|i: int|
        0 <= i < list.len() ==> (#[trigger] list[i]).extension_type.supported()
    &&& forall|i: int|
        0 <= i < list.len() ==> codes.contains(#[trigger] list[i].extension_type.code())
    &&& forall|i: int, j: int|
        0 <= i < j < list.len() ==> list[i].extension_type != list[j].extension_type
}

/// Extensions of distinct supported types fit into an [`ExtensionVec`].
proof fn lemma_supported_fit(list: Seq<Extension>, codes: Seq<u16>)
    requires
        listed_in(list, codes),
    ensures
        list.len() <= 7,
{
    let types = list.map_values(|e: Extension| e.extension_type);
    let known = set![
        ExtensionType::SupportedGroups,
        ExtensionType::EcPointFormats,
        ExtensionType::SignatureAlgorithms,
        ExtensionType::UseSrtp,
        ExtensionType::ExtendedMasterSecret,
        ExtensionType::ConnectionId,
        ExtensionType::RenegotiationInfo,
    ];
    assert(types.no_duplicates());
    types.unique_seq_to_set();
    assert forall|t: ExtensionType| types.to_set().contains(t) implies known.contains(t) by {
        let i = choose|i: int| 0 <= i < types.len() && types[i] == t;
        assert(list[i].extension_type.supported());
    }
    vstd::set_lib::lemma_len_subset(types.to_set(), known);
}

/// Two steps into a buffer are one longer step.
proof fn lemma_skip_skip(s: Seq<u8>, at: int)
    requires
        0 <= at <= s.len(),
    ensures
        forall|n: int|
            #![trigger s.skip(at).skip(n)]
            0 <= n && at + n <= s.len() ==> s.skip(at).skip(n) == s.skip(at + n),
{
    assert forall|n: int|
        #![trigger s.skip(at).skip(n)]
        0 <= n && at + n <= s.len() implies s.skip(at).skip(n) == s.skip(at + n) by {
        assert(s.skip(at).skip(n) =~= s.skip(at + n));
    }
}

/// The extension at a place of a buffer is the one at the start of what follows.
proof fn lemma_extension_at(s: Seq<u8>, pos: nat, base: nat)
    requires
        pos <= s.len(),
    ensures
        match super::extension::extension_at(s.skip(pos as int), 0, base + pos) {
            Ok(e) => super::extension::extension_at(s, pos, base) == Ok::<Extension, FailAt>(e),
            Err(f) => super::extension::extension_at(s, pos, base) == Err::<Extension, FailAt>(
                FailAt { at: f.at + pos, ..f },
            ),
        },
        s.len() >= pos + 4 ==> wire::u16_at(s.skip(pos as int), 2) == wire::u16_at(
            s,
            pos as int + 2,
        ),
{
}

/// Whether `code` is one of `codes`.
fn contains_code(codes: &[u16], code: u16) -> (b: bool)
    ensures
        b == codes@.contains(code),
{
    let mut i: usize = 0;
    while i < codes.len()
        invariant
            i <= codes@.len(),
            forall|k: int| 0 <= k < i ==> codes@[k] != code,
        decreases codes@.len() - i,
    {
        if codes[i] == code {
            return true;
        }
        i = i + 1;
    }
    false
}

/// A hello that is written without loss: the fields have their lengths on the wire,
/// each known code point stands under its own name, and the extensions, one at least
/// where there is a list of them, are of distinct supported types and fit behind a
/// 16-bit length.
pub open spec fn writable(h: HelloView, source: Seq<u8>) -> bool {
    &&& h.random.len() == 32
    &&& h.session_id.len() <= 32
    &&& ProtocolVersion::of_code(h.server_version.code()) == h.server_version
    &&& Dtls12CipherSuite::of_code(h.cipher_suite.code()) == h.cipher_suite
    &&& CompressionMethod::of_code(h.compression_method.code()) == h.compression_method
    &&& h.extensions matches Some(list) ==> {
        &&& list.len() > 0
        &&& forall|i: int| 0 <= i < list.len() ==> (#[trigger] list[i]).lies_in(source)
        &&& forall|i: int| 0 <= i < list.len() ==> (#[trigger] list[i]).extension_type.supported()
        &&& forall|i: int, j: int|
            0 <= i < j < list.len() ==> list[i].extension_type != list[j].extension_type
        &&& extensions_bytes(list, source).len() <= 0xFFFF
    }
}

/// `a` with its data in `buf_a`, and `b` with its data in `buf_b`, are the same
/// extensions.
pub open spec fn same_extensions(
    a: Seq<Extension>,
    buf_a: Seq<u8>,
    b: Seq<Extension>,
    buf_b: Seq<u8>,
) -> bool {
    &&& a.len() == b.len()
    &&& forall|i: int|
        #![trigger a[i]]
        #![trigger b[i]]
        0 <= i < a.len() ==> a[i].extension_type == b[i].extension_type && a[i].lies_in(buf_a)
            && a[i].data(buf_a) == b[i].data(buf_b)
}

/// The bytes of the first extensions are the first bytes of all of them.
proof fn lemma_extensions_bytes_prefix(list: Seq<Extension>, source: Seq<u8>, i: int)
    requires
        0 <= i <= list.len(),
    ensures
        extensions_bytes(list.take(i), source).len() <= extensions_bytes(list, source).len(),
        extensions_bytes(list, source).take(extensions_bytes(list.take(i), source).len() as int)
            == extensions_bytes(list.take(i), source),
    decreases list.len() - i,
{
    let all = extensions_bytes(list, source);
    let part = extensions_bytes(list.take(i), source);
    if i < list.len() {
        lemma_extensions_bytes_prefix(list, source, i + 1);
        lemma_extensions_bytes_step(list, source, i);
        let more = extensions_bytes(list.take(i + 1), source);
        assert(all.take(part.len() as int) =~= more.take(part.len() as int));
        assert(more.take(part.len() as int) =~= part);
    } else {
        assert(list.take(i) =~= list);
        assert(all.take(part.len() as int) =~= part);
    }
}

/// The bytes of one extension stand where those before it end.
proof fn lemma_extension_bytes_at(list: Seq<Extension>, source: Seq<u8>, i: int)
    requires
        0 <= i < list.len(),
    ensures
        ({
            let from = extensions_bytes(list.take(i), source).len() as int;
            let to = extensions_bytes(list.take(i + 1), source).len() as int;
            &&& to == from + list[i].bytes(source).len()
            &&& to <= extensions_bytes(list, source).len()
            &&& extensions_bytes(list, source).subrange(from, to) == list[i].bytes(source)
        }),
{
    let all = extensions_bytes(list, source);
    let from = extensions_bytes(list.take(i), source).len() as int;
    let to = extensions_bytes(list.take(i + 1), source).len() as int;
    lemma_extensions_bytes_step(list, source, i);
    lemma_extensions_bytes_prefix(list, source, i + 1);
    assert(all.subrange(from, to) =~= all.take(to).subrange(from, to));
    assert((extensions_bytes(list.take(i), source) + list[i].bytes(source)).subrange(from, to)
        =~= list[i].bytes(source));
}

/// The codes of a list of extensions.
pub open spec fn codes_of(list: Seq<Extension>) -> Seq<u16> {
    list.map_values(|e: Extension| e.extension_type.code())
}

/// An extension is read from the bytes that were written for it.
proof fn lemma_read_extension(e: Extension, source: Seq<u8>, s: Seq<u8>, pos: nat, before: Seq<u8>)
    requires
        e.lies_in(source),
        e.extension_type.supported(),
        e.data(source).len() <= 0xFFFF,
        pos + e.bytes(source).len() <= s.len(),
        s.subrange(pos as int, (pos + e.bytes(source).len()) as int) == e.bytes(source),
        before.len() + s.len() <= usize::MAX,
    ensures
        wire::u16_at(s, pos as int) == e.extension_type.code(),
        wire::u16_at(s, pos as int + 2) == e.data(source).len(),
        super::extension::extension_at(s, pos, before.len()) matches Ok(v) && v.extension_type
            == e.extension_type && v.lies_in(before + s) && v.data(before + s) == e.data(source),
{
    let b = e.bytes(source);
    let data = e.data(source);
    let len = super::extension::low16(data.len());
    assert(len == data.len());
    wire::law_u16_is_read_back(e.extension_type.code());
    wire::law_u16_is_read_back(len);
    let part = s.subrange(pos as int, (pos + b.len()) as int);
    assert(part[0] == s[pos as int] && part[1] == s[pos as int + 1]);
    assert(part[2] == s[pos as int + 2] && part[3] == s[pos as int + 3]);
    assert(b[0] == wire::u16_bytes(e.extension_type.code())[0]);
    assert(b[1] == wire::u16_bytes(e.extension_type.code())[1]);
    assert(b[2] == wire::u16_bytes(len)[0]);
    assert(b[3] == wire::u16_bytes(len)[1]);
    let from = before.len() + pos + 4;
    assert((before + s).subrange(from as int, from + len) =~= part.skip(4));
    assert(b.skip(4) =~= data);
}

/// Reading from the `k`-th of the extensions that were written gives the `k`-th and
/// all that follow.
#[verifier::rlimit(30)]
proof fn lemma_read_extensions(
    list: Seq<Extension>,
    source: Seq<u8>,
    s: Seq<u8>,
    start: nat,
    before: Seq<u8>,
    k: int,
)
    requires
        0 <= k <= list.len(),
        list.len() <= 7,
        forall|i: int| 0 <= i < list.len() ==> (#[trigger] list[i]).lies_in(source),
        forall|i: int| 0 <= i < list.len() ==> (#[trigger] list[i]).extension_type.supported(),
        forall|i: int, j: int|
            0 <= i < j < list.len() ==> list[i].extension_type != list[j].extension_type,
        extensions_bytes(list, source).len() <= 0xFFFF,
        start <= s.len(),
        s.skip(start as int) == extensions_bytes(list, source),
        before.len() + s.len() <= usize::MAX,
    ensures
        extensions_from(
            s,
            start + extensions_bytes(list.take(k), source).len(),
            before.len(),
            codes_of(list.take(k)),
        ) matches Ok(tail) && same_extensions(tail, before + s, list.skip(k), source),
    decreases list.len() - k,
{
    let pos = start + extensions_bytes(list.take(k), source).len();
    let seen = codes_of(list.take(k));
    if k < list.len() {
        let e = list[k];
        lemma_extension_bytes_at(list, source, k);
        lemma_read_extensions(list, source, s, start, before, k + 1);
        let next = start + extensions_bytes(list.take(k + 1), source).len();
        assert(s.subrange(pos as int, next as int) =~= s.skip(start as int).subrange(
            pos - start,
            next - start,
        ));
        assert(e.bytes(source).len() == 4 + e.data(source).len());
        lemma_read_extension(e, source, s, pos, before);
        assert(seen.push(e.extension_type.code()) =~= codes_of(list.take(k + 1)));
        assert(!seen.contains(e.extension_type.code())) by {
            if seen.contains(e.extension_type.code()) {
                let j = choose|j: int| 0 <= j < seen.len() && seen[j] == e.extension_type.code();
                assert(list[j].extension_type.supported() && list[j].extension_type
                    != list[k].extension_type);
            }
        }
        let head = super::extension::extension_at(s, pos, before.len())->Ok_0;
        let tail = extensions_from(s, next, before.len(), codes_of(list.take(k + 1)))->Ok_0;
        let both = seq![head] + tail;
        assert forall|i: int| 0 <= i < both.len() implies (#[trigger] both[i]).extension_type
            == list.skip(k)[i].extension_type && both[i].lies_in(before + s) && both[i].data(
            before + s,
        ) == list.skip(k)[i].data(source) by {
            if i > 0 {
                assert(both[i] == tail[i - 1]);
                assert(list.skip(k)[i] == list.skip(k + 1)[i - 1]);
            }
        }
    } else {
        assert(list.take(k) =~= list);
        assert(s.skip(start as int).len() == s.len() - start);
    }
}

/// Reading a hello that was written without loss gives its fields and its extensions
/// back, wherever in a buffer the message stands.
#[verifier::rlimit(30)]
pub proof fn law_parse_undoes_serialize(h: HelloView, source: Seq<u8>, before: Seq<u8>)
    requires
        writable(h, source),
        before.len() + hello_bytes(h, source).len() <= usize::MAX,
    ensures
        ({
            let s = hello_bytes(h, source);
            &&& hello_in(s, before.len()) matches Ok((p, used))
            &&& used == s.len()
            &&& p == (HelloView { extensions: p.extensions, ..h })
            &&& match h.extensions {
                Some(list) => p.extensions matches Some(found) && same_extensions(
                    found,
                    before + s,
                    list,
                    source,
                ),
                None => p.extensions is None,
            }
        }),
{
    let s = hello_bytes(h, source);
    let n = h.session_id.len() as int;
    wire::law_u16_is_read_back(h.server_version.code());
    wire::law_u16_is_read_back(h.cipher_suite.code());
    assert(s[0] == wire::u16_bytes(h.server_version.code())[0]);
    assert(s[1] == wire::u16_bytes(h.server_version.code())[1]);
    assert(s[34] == n);
    assert(s[35 + n] == wire::u16_bytes(h.cipher_suite.code())[0]);
    assert(s[36 + n] == wire::u16_bytes(h.cipher_suite.code())[1]);
    assert(s[37 + n] == h.compression_method.code());
    assert(s.subrange(2, 34) =~= h.random);
    assert(s.subrange(35, 35 + n) =~= h.session_id);
    if let Some(list) = h.extensions {
        let body = extensions_bytes(list, source);
        let len = super::extension::low16(body.len());
        assert(len == body.len());
        wire::law_u16_is_read_back(len);
        assert(s[38 + n] == wire::u16_bytes(len)[0]);
        assert(s[39 + n] == wire::u16_bytes(len)[1]);
        assert(s.skip(40 + n) =~= body);
        assert(listed_in(list, codes_of(list))) by {
            assert forall|i: int| 0 <= i < list.len() implies codes_of(list).contains(
                #[trigger] list[i].extension_type.code(),
            ) by {
                assert(codes_of(list)[i] == list[i].extension_type.code());
            }
        }
        lemma_supported_fit(list, codes_of(list));
        lemma_read_extensions(list, source, s, (40 + n) as nat, before, 0);
        assert(list.take(0) =~= Seq::empty());
        assert(codes_of(list.take(0)) =~= Seq::empty());
        assert(list.skip(0) =~= list);
        lemma_extension_bytes_at(list, source, 0);
    }
}

/// The bytes of a list are those of its first extension and of the others.
proof fn lemma_extensions_bytes_cons(e: Extension, tail: Seq<Extension>, source: Seq<u8>)
    ensures
        extensions_bytes(seq![e] + tail, source) == e.bytes(source) + extensions_bytes(
            tail,
            source,
        ),
    decreases tail.len(),
{
    let list = seq![e] + tail;
    if tail.len() == 0 {
        assert(list.drop_last() =~= tail);
        assert(list.last() == e);
        assert(extensions_bytes(list, source) =~= e.bytes(source) + extensions_bytes(tail, source));
    } else {
        lemma_extensions_bytes_cons(e, tail.drop_last(), source);
        assert(list.drop_last() =~= seq![e] + tail.drop_last());
        assert(list.last() == tail.last());
        assert(extensions_bytes(list, source) =~= e.bytes(source) + extensions_bytes(tail, source));
    }
}

/// An extension that was read is written as it stood there.
proof fn lemma_extension_written_as_read(s: Seq<u8>, pos: nat, before: Seq<u8>)
    requires
        before.len() + s.len() <= usize::MAX,
        super::extension::extension_at(s, pos, before.len()) is Ok,
    ensures
        ({
            let e = super::extension::extension_at(s, pos, before.len())->Ok_0;
            let next = pos + 4 + wire::u16_at(s, pos as int + 2);
            &&& next <= s.len()
            &&& e.bytes(before + s) == s.subrange(pos as int, next)
        }),
{
    let buf = before + s;
    let e = super::extension::extension_at(s, pos, before.len())->Ok_0;
    let code = wire::u16_at(s, pos as int);
    let len = wire::u16_at(s, pos as int + 2);
    let next = pos + 4 + len;
    let head = s.subrange(pos as int, pos as int + 2);
    let size = s.subrange(pos as int + 2, pos as int + 4);
    let data = s.subrange(pos as int + 4, next);
    assert(e.data(buf) =~= data);
    wire::law_u16_is_written_back(head);
    wire::law_u16_is_written_back(size);
    assert(wire::u16_at(head, 0) == code);
    assert(wire::u16_at(size, 0) == len);
    assert(super::extension::low16(data.len()) == len);
    assert(head + size + data =~= s.subrange(pos as int, next));
}

/// The extensions that were read do not take more bytes than they were read from, and
/// where they take as many, they are written as they stood there.
#[verifier::rlimit(30)]
proof fn lemma_written_as_read(s: Seq<u8>, pos: nat, before: Seq<u8>, seen: Seq<u16>)
    requires
        pos <= s.len(),
        before.len() + s.len() <= usize::MAX,
    ensures
        extensions_from(s, pos, before.len(), seen) matches Ok(list) ==> {
            &&& extensions_bytes(list, before + s).len() <= s.len() - pos
            &&& extensions_bytes(list, before + s).len() == s.len() - pos ==> extensions_bytes(
                list,
                before + s,
            ) == s.skip(pos as int)
        },
    decreases s.len() - pos,
{
    let buf = before + s;
    if pos < s.len() && extensions_from(s, pos, before.len(), seen) is Ok {
        let e = super::extension::extension_at(s, pos, before.len())->Ok_0;
        let code = wire::u16_at(s, pos as int);
        let next = (pos + 4 + wire::u16_at(s, pos as int + 2)) as nat;
        lemma_extension_written_as_read(s, pos, before);
        lemma_written_as_read(s, next, before, seen.push(code));
        let tail = extensions_from(s, next, before.len(), seen.push(code))->Ok_0;
        let list = extensions_from(s, pos, before.len(), seen)->Ok_0;
        if e.extension_type.supported() {
            assert(list == seq![e] + tail);
            lemma_extensions_bytes_cons(e, tail, buf);
            assert(s.subrange(pos as int, next as int) + s.skip(next as int) =~= s.skip(
                pos as int,
            ));
        } else {
            assert(list == tail);
        }
    } else {
        assert(s.skip(pos as int) =~= s.subrange(pos as int, s.len() as int));
        if pos == s.len() {
            assert(s.skip(pos as int) =~= Seq::empty());
        }
    }
}

/// Writing what was read gives the message back, wherever in a buffer it stood,
/// unless the message holds an extension that is not kept, or a length of extensions
/// without any.
#[verifier::rlimit(30)]
pub proof fn law_serialize_undoes_parse(s: Seq<u8>, before: Seq<u8>)
    requires
        before.len() + s.len() <= usize::MAX,
        hello_in(s, before.len()) is Ok,
        match hello_in(s, before.len())->Ok_0.0.extensions {
            Some(list) => extensions_bytes(list, before + s).len() == s.len() - extensions_start(s)
                - 2,
            None => s.len() == extensions_start(s),
        },
    ensures
        hello_bytes(hello_in(s, before.len())->Ok_0.0, before + s) == s,
{
    let p = hello_in(s, before.len())->Ok_0.0;
    let n = s[34] as int;
    let v = s.subrange(0, 2);
    let c = s.subrange(35 + n, 37 + n);
    wire::law_u16_is_written_back(v);
    wire::law_u16_is_written_back(c);
    assert(wire::u16_at(v, 0) == wire::u16_at(s, 0));
    assert(wire::u16_at(c, 0) == wire::u16_at(s, 35 + n));
    assert(p.session_id.len() == n);
    match p.extensions {
        Some(list) => {
            let z = s.subrange(38 + n, 40 + n);
            wire::law_u16_is_written_back(z);
            assert(wire::u16_at(z, 0) == wire::u16_at(s, 38 + n));
            lemma_written_as_read(s, (40 + n) as nat, before, Seq::empty());
            assert(extensions_bytes(list, before + s) == s.skip(40 + n));
            assert(super::extension::low16((s.len() - 40 - n) as nat) == wire::u16_at(s, 38 + n));
        },
        None => {},
    }
    assert(hello_bytes(p, before + s) =~= s);
}

/// No extension type occurs twice in a hello that was read (RFC 5246 §7.4.1.4).
pub proof fn law_no_duplicate_extensions(s: Seq<u8>, base: nat)
    requires
        base + s.len() <= usize::MAX,
    ensures
        hello_in(s, base) matches Ok((p, _)) ==> (p.extensions matches Some(list) ==> forall|
            i: int,
            j: int,
        |
            0 <= i < j < list.len() ==> list[i].extension_type != list[j].extension_type),
{
    if let Ok((p, _)) = hello_in(s, base) {
        if let Some(list) = p.extensions {
            lemma_distinct_from(s, extensions_start(s) + 2, base, Seq::empty());
        }
    }
}

/// The extensions that are read are supported, of distinct types, and of none of the
/// types that came before.
proof fn lemma_distinct_from(s: Seq<u8>, pos: nat, base: nat, seen: Seq<u16>)
    ensures
        extensions_from(s, pos, base, seen) matches Ok(list) ==> {
            &&& forall|i: int, j: int|
                0 <= i < j < list.len() ==> list[i].extension_type != list[j].extension_type
            &&& forall|i: int|
                0 <= i < list.len() ==> !seen.contains(#[trigger] list[i].extension_type.code())
        },
    decreases s.len() - pos,
{
    if pos < s.len() && extensions_from(s, pos, base, seen) is Ok {
        let e = super::extension::extension_at(s, pos, base)->Ok_0;
        let code = wire::u16_at(s, pos as int);
        let next = (pos + 4 + wire::u16_at(s, pos as int + 2)) as nat;
        lemma_distinct_from(s, next, base, seen.push(code));
        let tail = extensions_from(s, next, base, seen.push(code))->Ok_0;
        assert forall|i: int| 0 <= i < tail.len() implies !seen.contains(
            #[trigger] tail[i].extension_type.code(),
        ) && tail[i].extension_type.code() != code by {
            let x = tail[i].extension_type.code();
            assert(seen.push(code)[seen.len() as int] == code);
            if seen.contains(x) {
                let j = choose|j: int| 0 <= j < seen.len() && seen[j] == x;
                assert(seen.push(code)[j] == x);
            }
        }
        let list = extensions_from(s, pos, base, seen)->Ok_0;
        assert(e.extension_type.code() == code);
        if e.extension_type.supported() {
            assert(list == seq![e] + tail);
            assert forall|i: int| 0 <= i < list.len() implies !seen.contains(
                #[trigger] list[i].extension_type.code(),
            ) by {
                if i > 0 {
                    assert(list[i] == tail[i - 1]);
                }
            }
            assert forall|i: int, j: int| 0 <= i < j < list.len() implies list[i].extension_type
                != list[j].extension_type by {
                assert(list[j] == tail[j - 1]);
                if i > 0 {
                    assert(list[i] == tail[i - 1]);
                }
            }
        }
    }
}

/// The hello that [`ServerHello::with_extensions`] makes is written without loss, and
/// its extensions hold what was staged for them: the chosen profile, nothing for
/// `extended_master_secret`, an empty `renegotiation_info`, and the Connection ID.
#[verifier::rlimit(30)]
pub proof fn law_staged_hello_is_writable(
    h: HelloView,
    srtp_profile: Option<SrtpProfileId>,
    cid: Option<Seq<u8>>,
)
    requires
        writable((HelloView { extensions: None, ..h }), Seq::empty()),
        cid matches Some(c) ==> c.len() <= 255,
    ensures
        ({
            let source = staged_bytes(srtp_profile, cid);
            let list = staged_extensions(srtp_profile, cid);
            let n: int = if srtp_profile is Some {
                1
            } else {
                0
            };
            &&& writable((HelloView { extensions: Some(list), ..h }), source)
            &&& srtp_profile matches Some(p) ==> list[0].extension_type is UseSrtp
                && list[0].data(source) == super::extensions::use_srtp::srtp_body(p)
            &&& list[n].extension_type is ExtendedMasterSecret
            &&& list[n].data(source) == Seq::<u8>::empty()
            &&& list[n + 1].extension_type is RenegotiationInfo
            &&& list[n + 1].data(source) == seq![0u8]
            &&& cid matches Some(c) ==> list[n + 2].extension_type is ConnectionId
                && list[n + 2].data(source) == super::extensions::connection_id::cid_body(c)
        }),
{
    let source = staged_bytes(srtp_profile, cid);
    let list = staged_extensions(srtp_profile, cid);
    let n: int = if srtp_profile is Some {
        1
    } else {
        0
    };
    let m: int = if cid is Some {
        1
    } else {
        0
    };
    assert(list.len() == n + 2 + m);
    assert(list[n].extension_type is ExtendedMasterSecret);
    assert(list[n + 1].extension_type is RenegotiationInfo);
    if let Some(p) = srtp_profile {
        assert(list[0].extension_type is UseSrtp);
        assert(list[0].data(source) =~= super::extensions::use_srtp::srtp_body(p));
    }
    assert(list[n].data(source) =~= Seq::<u8>::empty());
    assert(list[n + 1].data(source) =~= seq![0u8]);
    if let Some(c) = cid {
        assert(list[n + 2].extension_type is ConnectionId);
        assert(list[n + 2].data(source) =~= super::extensions::connection_id::cid_body(c));
    }
    assert forall|i: int| 0 <= i < list.len() implies (#[trigger] list[i]).lies_in(source)
        && list[i].extension_type.supported() && list[i].data(source).len() <= 262 by {
        assert(i == n || i == n + 1 || i == n + 2 || (i == 0 && n == 1));
    }
    assert forall|i: int, j: int| 0 <= i < j < list.len() implies list[i].extension_type
        != list[j].extension_type by {
        assert(i == n || i == n + 1 || (i == 0 && n == 1));
        assert(j == n || j == n + 1 || j == n + 2);
    }
    lemma_extensions_bytes_bound(list, source, 262);
    assert(list.len() * 266 <= 4 * 266);
}

/// Extensions with at most `most` bytes of data each.
proof fn lemma_extensions_bytes_bound(list: Seq<Extension>, source: Seq<u8>, most: nat)
    requires
        forall|i: int| 0 <= i < list.len() ==> (#[trigger] list[i]).data(source).len() <= most,
    ensures
        extensions_bytes(list, source).len() <= list.len() * (most + 4),
    decreases list.len(),
{
    if list.len() > 0 {
        let front = list.drop_last();
        assert forall|i: int| 0 <= i < front.len() implies (#[trigger] front[i]).data(source).len()
            <= most by {
            assert(front[i] == list[i]);
        }
        lemma_extensions_bytes_bound(front, source, most);
        assert(list[list.len() - 1].data(source).len() <= most);
        assert((list.len() - 1) * (most + 4) + (most + 4) == list.len() * (most + 4))
            by (nonlinear_arith);
    }
}

/// The data of every extension that was read lies in the message, and the extensions
/// are not longer than the message when they are written again.
pub proof fn law_extensions_lie_in_the_message(s: Seq<u8>, before: Seq<u8>)
    requires
        before.len() + s.len() <= usize::MAX,
    ensures
        hello_in(s, before.len()) matches Ok((p, _)) ==> (p.extensions matches Some(list) ==> {
            &&& forall|i: int|
                0 <= i < list.len() ==> (#[trigger] list[i]).lies_in(before + s)
                    && list[i].extension_data_range.start >= before.len()
            &&& extensions_bytes(list, before + s).len() <= s.len()
        }),
{
    if let Ok((p, _)) = hello_in(s, before.len()) {
        if let Some(list) = p.extensions {
            lemma_extensions_lie_in(s, extensions_start(s) + 2, before, Seq::empty());
            lemma_written_as_read(s, extensions_start(s) + 2, before, Seq::empty());
        }
    }
}

proof fn lemma_extensions_lie_in(s: Seq<u8>, pos: nat, before: Seq<u8>, seen: Seq<u16>)
    requires
        before.len() + s.len() <= usize::MAX,
    ensures
        extensions_from(s, pos, before.len(), seen) matches Ok(list) ==> forall|i: int|
            0 <= i < list.len() ==> (#[trigger] list[i]).lies_in(before + s)
                && list[i].extension_data_range.start >= before.len(),
    decreases s.len() - pos,
{
    if pos < s.len() && extensions_from(s, pos, before.len(), seen) is Ok {
        let e = super::extension::extension_at(s, pos, before.len())->Ok_0;
        let code = wire::u16_at(s, pos as int);
        let next = (pos + 4 + wire::u16_at(s, pos as int + 2)) as nat;
        lemma_extensions_lie_in(s, next, before, seen.push(code));
        let tail = extensions_from(s, next, before.len(), seen.push(code))->Ok_0;
        let list = extensions_from(s, pos, before.len(), seen)->Ok_0;
        if e.extension_type.supported() {
            assert(list == seq![e] + tail);
            assert forall|i: int| 0 <= i < list.len() implies (#[trigger] list[i]).lies_in(
                before + s,
            ) && list[i].extension_data_range.start >= before.len() by {
                if i > 0 {
                    assert(list[i] == tail[i - 1]);
                }
            }
        }
    }
}

} // verus!
