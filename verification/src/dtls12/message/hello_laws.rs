//! What holds of every `ServerHello`, in terms of its bytes.

use std::ops::Range;
use vstd::prelude::*;

use super::cipher_suite::Dtls12CipherSuite;
use super::extension::{Extension, ExtensionType};
use super::extensions::use_srtp::SrtpProfileId;
use super::server_hello;
use super::server_hello::HelloView;
use crate::error::{ErrorKind, FailAt, Severity};

verus! {

/// The number in the two bytes of `s` at `i`, the more significant one first.
pub open spec fn number_at(s: Seq<u8>, i: int) -> int {
    s[i] * 256 + s[i + 1]
}

/// The two bytes of `s` at `i` are the registered code of `suite`. The code of one that is
/// not known is none of those of the known ones, and is what the two bytes hold.
pub open spec fn is_suite(suite: Dtls12CipherSuite, s: Seq<u8>, i: int) -> bool {
    &&& suite is ECDHE_ECDSA_AES256_GCM_SHA384 <==> s[i] == 0xC0 && s[i + 1] == 0x2C
    &&& suite is ECDHE_ECDSA_AES128_GCM_SHA256 <==> s[i] == 0xC0 && s[i + 1] == 0x2B
    &&& suite is ECDHE_ECDSA_CHACHA20_POLY1305_SHA256 <==> s[i] == 0xCC && s[i + 1] == 0xA9
    &&& suite is ECDHE_PSK_CHACHA20_POLY1305_SHA256 <==> s[i] == 0xCC && s[i + 1] == 0xAC
    &&& suite is PSK_AES128_CCM_8 <==> s[i] == 0xC0 && s[i + 1] == 0xA8
    &&& suite matches Dtls12CipherSuite::Unknown(x) ==> x == number_at(s, i)
}

/// The fixed fields of a message are there in full.
pub open spec fn has_fixed_fields(s: Seq<u8>) -> bool {
    s.len() >= 35 && s[34] <= 32 && s.len() >= 38 + s[34]
}

/// The fields of a message that is read are those in its bytes: the version, 32 bytes of
/// random, the session identifier behind its length, the cipher suite by its registered
/// code, and the compression method.
pub proof fn law_hello_fields_by_bytes(s: Seq<u8>, base: nat)
    ensures
        server_hello::hello_in(s, base) matches Ok((h, _)) ==> {
            let n = s[34] as int;
            &&& has_fixed_fields(s)
            &&& h.server_version.code() == number_at(s, 0)
            &&& h.server_version is DTLS1_0 <==> s[0] == 0xFE && s[1] == 0xFF
            &&& h.server_version is DTLS1_2 <==> s[0] == 0xFE && s[1] == 0xFD
            &&& h.server_version is DTLS1_3 <==> s[0] == 0xFE && s[1] == 0xFC
            &&& h.random.len() == 32
            &&& forall|i: int| 0 <= i < 32 ==> #[trigger] h.random[i] == s[2 + i]
            &&& h.session_id.len() == n
            &&& forall|i: int| 0 <= i < n ==> #[trigger] h.session_id[i] == s[35 + i]
            &&& is_suite(h.cipher_suite, s, 35 + n)
            &&& h.compression_method.code() == s[37 + n]
            &&& h.compression_method is Null <==> s[37 + n] == 0
            &&& h.compression_method is Deflate <==> s[37 + n] == 1
        },
{
}

/// A message whose fixed fields are cut short is incomplete from the field on that is not
/// there in full. A session identifier of more than 32 bytes is refused as such.
pub proof fn law_cut_hello_is_incomplete(s: Seq<u8>, base: nat)
    ensures
        s.len() >= 35 && s[34] > 32 ==> server_hello::hello_in(s, base) == Err::<
            (HelloView, nat),
            FailAt,
        >(FailAt { severity: Severity::Failure, at: 35, code: ErrorKind::LengthValue }),
        s.len() < 35 || s[34] <= 32 && s.len() < 38 + s[34] ==> server_hello::hello_in(s, base)
            == Err::<(HelloView, nat), FailAt>(
            FailAt {
                severity: Severity::Error,
                at: if s.len() < 2 {
                    0
                } else if s.len() < 34 {
                    2
                } else if s.len() < 35 {
                    34
                } else if s.len() < 35 + s[34] {
                    35
                } else if s.len() < 37 + s[34] {
                    (35 + s[34]) as nat
                } else {
                    (37 + s[34]) as nat
                },
                code: ErrorKind::Eof,
            },
        ),
{
}

/// Behind the fixed fields nothing may follow, or the extensions behind their length, which
/// has to count all of them. A length of 0 is no list, and what follows it is not read. A
/// message with a list is read to its end, one without to where the list would start.
pub proof fn law_extensions_are_counted(s: Seq<u8>, base: nat)
    requires
        has_fixed_fields(s),
    ensures
        ({
            let start = 38 + s[34];
            let count = number_at(s, start);
            let r = server_hello::hello_in(s, base);
            &&& s.len() == start ==> (r matches Ok((h, used)) && h.extensions is None && used == start)
            &&& s.len() == start + 1 ==> r == Err::<(HelloView, nat), FailAt>(
                FailAt { severity: Severity::Failure, at: start as nat, code: ErrorKind::Eof },
            )
            &&& s.len() >= start + 2 && count > s.len() - start - 2 ==> r == Err::<
                (HelloView, nat),
                FailAt,
            >(FailAt { severity: Severity::Failure, at: (start + 2) as nat, code: ErrorKind::Eof })
            &&& s.len() >= start + 2 && count == 0 ==> (r matches Ok((h, used)) && h.extensions
                is None && used == start + 2)
            &&& s.len() >= start + 2 && 0 < count < s.len() - start - 2 ==> r == Err::<
                (HelloView, nat),
                FailAt,
            >(
                FailAt {
                    severity: Severity::Failure,
                    at: (start + 2 + count) as nat,
                    code: ErrorKind::LengthValue,
                },
            )
            &&& s.len() >= start + 2 && 0 < count == s.len() - start - 2 ==> (r matches Ok((h, used))
                ==> h.extensions is Some && used == s.len())
        }),
{
}

/// Extensions start at each of `at` but the last, each right behind the data of the one
/// before it.
pub open spec fn is_chain(s: Seq<u8>, at: Seq<int>) -> bool {
    &&& at.len() > 0
    &&& 0 <= at[0]
    &&& at.last() <= s.len()
    &&& forall|j: int, k: int|
        0 <= j < at.len() && 0 <= k < at.len() && k == j + 1 ==> #[trigger] at[k] == (
        #[trigger] at[j]) + 4 + number_at(s, at[j] + 2)
}

/// No two of the extensions at `at` have the same code, and none has one of `seen`.
pub open spec fn distinct_codes(s: Seq<u8>, at: Seq<int>, seen: Seq<u16>) -> bool {
    &&& forall|j: int, k: int|
        0 <= j < k < at.len() - 1 ==> number_at(s, #[trigger] at[j]) != number_at(
            s,
            #[trigger] at[k],
        )
    &&& forall|j: int, i: int|
        0 <= j < at.len() - 1 && 0 <= i < seen.len() ==> number_at(s, #[trigger] at[j])
            != #[trigger] seen[i]
}

/// The extension types that are kept, by their registered codes.
pub open spec fn kept_type(code: int) -> Option<ExtensionType> {
    if code == 10 {
        Some(ExtensionType::SupportedGroups)
    } else if code == 11 {
        Some(ExtensionType::EcPointFormats)
    } else if code == 13 {
        Some(ExtensionType::SignatureAlgorithms)
    } else if code == 14 {
        Some(ExtensionType::UseSrtp)
    } else if code == 23 {
        Some(ExtensionType::ExtendedMasterSecret)
    } else if code == 54 {
        Some(ExtensionType::ConnectionId)
    } else if code == 0xFF01 {
        Some(ExtensionType::RenegotiationInfo)
    } else {
        None
    }
}

/// Those of the extensions at `at` that are kept, in order, each with the place of its data,
/// where `s` itself starts at `base` of a larger buffer.
pub open spec fn kept_extensions(s: Seq<u8>, base: nat, at: Seq<int>) -> Seq<Extension>
    decreases at.len(),
{
    if at.len() <= 1 {
        Seq::empty()
    } else {
        let rest = kept_extensions(s, base, at.skip(1));
        match kept_type(number_at(s, at[0])) {
            Some(extension_type) => seq![
                Extension {
                    extension_type,
                    extension_data_range: Range {
                        start: (base + at[0] + 4) as usize,
                        end: (base + at[1]) as usize,
                    },
                },
            ] + rest,
            None => rest,
        }
    }
}

proof fn lemma_chain_step(s: Seq<u8>, base: nat, at: Seq<int>, seen: Seq<u16>)
    requires
        is_chain(s, at),
        at.len() > 1,
    ensures
        is_chain(s, at.skip(1)),
        at[0] + 4 <= at[1] <= s.len(),
        at[1] == at[0] + 4 + number_at(s, at[0] + 2),
        super::extension::extension_at(s, at[0] as nat, base) matches Ok(e) && {
            &&& e.extension_type.supported() <==> kept_type(number_at(s, at[0])) is Some
            &&& kept_type(number_at(s, at[0])) matches Some(t) ==> e.extension_type == t
            &&& e.extension_data_range.start == (base + at[0] + 4) as usize
            &&& e.extension_data_range.end == (base + at[1]) as usize
        },
        distinct_codes(s, at, seen) ==> distinct_codes(
            s,
            at.skip(1),
            seen.push(number_at(s, at[0]) as u16),
        ) && !seen.contains(number_at(s, at[0]) as u16),
{
    let rest = at.skip(1);
    let code = number_at(s, at[0]) as u16;
    lemma_chain_grows(s, at, 1);
    assert forall|j: int, k: int|
        0 <= j < rest.len() && 0 <= k < rest.len() && k == j + 1 implies #[trigger] rest[k] == (
    #[trigger] rest[j]) + 4 + number_at(s, rest[j] + 2) by {
        assert(rest[k] == at[k + 1] && rest[j] == at[j + 1]);
    }
    assert(rest.last() == at.last());
    if distinct_codes(s, at, seen) {
        let more = seen.push(code);
        assert forall|j: int, k: int| 0 <= j < k < rest.len() - 1 implies number_at(
            s,
            #[trigger] rest[j],
        ) != number_at(s, #[trigger] rest[k]) by {
            assert(rest[j] == at[j + 1] && rest[k] == at[k + 1]);
        }
        assert forall|j: int, i: int| 0 <= j < rest.len() - 1 && 0 <= i < more.len() implies
            number_at(s, #[trigger] rest[j]) != #[trigger] more[i] by {
            assert(rest[j] == at[j + 1]);
            if i < seen.len() {
                assert(more[i] == seen[i]);
            } else {
                assert(number_at(s, at[0]) != number_at(s, at[j + 1]));
            }
        }
    }
}

/// The places of a chain do not lie behind its end.
proof fn lemma_chain_grows(s: Seq<u8>, at: Seq<int>, k: int)
    requires
        is_chain(s, at),
        0 <= k < at.len(),
    ensures
        0 <= at[0] <= at[k] <= s.len(),
    decreases at.len() - k,
{
    lemma_chain_from_start(s, at, k);
    if k < at.len() - 1 {
        lemma_chain_grows(s, at, k + 1);
        assert(at[k + 1] == at[k] + 4 + number_at(s, at[k] + 2));
    }
}

proof fn lemma_chain_from_start(s: Seq<u8>, at: Seq<int>, k: int)
    requires
        is_chain(s, at),
        0 <= k < at.len(),
    ensures
        0 <= at[0] <= at[k],
    decreases k,
{
    if k > 0 {
        lemma_chain_from_start(s, at, k - 1);
        assert(at[k] == at[k - 1] + 4 + number_at(s, at[k - 1] + 2));
    }
}

proof fn lemma_chain_is_read(s: Seq<u8>, base: nat, at: Seq<int>, seen: Seq<u16>)
    requires
        is_chain(s, at),
        at.last() == s.len(),
        distinct_codes(s, at, seen),
        seen.len() + at.len() - 1 <= 64,
    ensures
        server_hello::extensions_from(s, at[0] as nat, base, seen) == Ok::<Seq<Extension>, FailAt>(
            kept_extensions(s, base, at),
        ),
    decreases at.len(),
{
    if at.len() > 1 {
        lemma_chain_step(s, base, at, seen);
        let code = number_at(s, at[0]) as u16;
        lemma_chain_is_read(s, base, at.skip(1), seen.push(code));
        assert(at.skip(1)[0] == at[1]);
    }
}

proof fn lemma_repeated_code(s: Seq<u8>, base: nat, at: Seq<int>, seen: Seq<u16>)
    requires
        is_chain(s, at),
        at.last() == s.len(),
        !distinct_codes(s, at, seen),
        seen.len() + at.len() - 1 <= 64,
    ensures
        server_hello::extensions_from(s, at[0] as nat, base, seen) matches Err(f) && f.severity
            == Severity::Failure && f.code == ErrorKind::Verify,
    decreases at.len(),
{
    if at.len() > 1 {
        lemma_chain_step(s, base, at, seen);
        let code = number_at(s, at[0]) as u16;
        let rest = at.skip(1);
        let more = seen.push(code);
        assert(rest[0] == at[1]);
        if !seen.contains(code) {
            assert(!distinct_codes(s, rest, more)) by {
                if distinct_codes(s, rest, more) {
                    assert forall|j: int, k: int| 0 <= j < k < at.len() - 1 implies number_at(
                        s,
                        #[trigger] at[j],
                    ) != number_at(s, #[trigger] at[k]) by {
                        assert(rest[k - 1] == at[k]);
                        if j == 0 {
                            assert(number_at(s, rest[k - 1]) != more[seen.len() as int]);
                        } else {
                            assert(rest[j - 1] == at[j]);
                        }
                    }
                    assert forall|j: int, i: int|
                        0 <= j < at.len() - 1 && 0 <= i < seen.len() implies number_at(
                        s,
                        #[trigger] at[j],
                    ) != #[trigger] seen[i] by {
                        if j == 0 {
                            assert(seen.contains(seen[i]));
                        } else {
                            assert(rest[j - 1] == at[j]);
                            assert(more[i] == seen[i]);
                        }
                    }
                }
            }
            lemma_repeated_code(s, base, rest, more);
        }
    }
}

proof fn lemma_too_many(s: Seq<u8>, base: nat, at: Seq<int>, seen: Seq<u16>)
    requires
        is_chain(s, at),
        at.last() == s.len(),
        distinct_codes(s, at, seen),
        seen.len() <= 64,
        seen.len() + at.len() - 1 > 64,
    ensures
        server_hello::extensions_from(s, at[0] as nat, base, seen) == Err::<Seq<Extension>, FailAt>(
            FailAt {
                severity: Severity::Failure,
                at: at[64 - seen.len()] as nat,
                code: ErrorKind::TooLarge,
            },
        ),
    decreases at.len(),
{
    lemma_chain_step(s, base, at, seen);
    let code = number_at(s, at[0]) as u16;
    assert(at.skip(1)[0] == at[1]);
    if seen.len() < 64 {
        lemma_too_many(s, base, at.skip(1), seen.push(code));
        assert(at.skip(1)[63 - seen.len()] == at[64 - seen.len()]);
    }
}

proof fn lemma_cut_extension(s: Seq<u8>, base: nat, at: Seq<int>, seen: Seq<u16>)
    requires
        is_chain(s, at),
        at.last() < s.len(),
        s.len() < at.last() + 4 || s.len() < at.last() + 4 + number_at(s, at.last() + 2),
        distinct_codes(s, at, seen),
        seen.len() + at.len() - 1 <= 64,
    ensures
        server_hello::extensions_from(s, at[0] as nat, base, seen) == Err::<Seq<Extension>, FailAt>(
            FailAt {
                severity: Severity::Error,
                at: (if s.len() < at.last() + 2 {
                    at.last()
                } else if s.len() < at.last() + 4 {
                    at.last() + 2
                } else {
                    at.last() + 4
                }) as nat,
                code: ErrorKind::Eof,
            },
        ),
    decreases at.len(),
{
    if at.len() > 1 {
        lemma_chain_step(s, base, at, seen);
        let code = number_at(s, at[0]) as u16;
        assert(at.skip(1)[0] == at[1]);
        assert(at.skip(1).last() == at.last());
        lemma_cut_extension(s, base, at.skip(1), seen.push(code));
    }
}

/// The extensions of a message, by their bytes. `at` are the places where they start, the
/// first behind the length of all of them, and the place where the last one ends.
///
/// Where they end with the message, at most 64, no code twice, the message is read, and its
/// list are those of a type that is kept, in order, each with the place of its data. A code
/// that comes twice is refused, and so is a 65th extension. Where one is cut short, the
/// message is incomplete.
pub proof fn law_extensions_by_bytes(s: Seq<u8>, base: nat, at: Seq<int>)
    requires
        has_fixed_fields(s),
        s.len() > 40 + s[34],
        number_at(s, 38 + s[34]) == s.len() - 40 - s[34],
        is_chain(s, at),
        at[0] == 40 + s[34],
    ensures
        at.last() == s.len() && at.len() <= 65 && distinct_codes(s, at, Seq::empty()) ==> (
        server_hello::hello_in(s, base) matches Ok((h, used)) && used == s.len() && h.extensions
            == Some(kept_extensions(s, base, at))),
        at.last() == s.len() && at.len() <= 65 && !distinct_codes(s, at, Seq::empty()) ==> (
        server_hello::hello_in(s, base) matches Err(f) && f.severity == Severity::Failure && f.code
            == ErrorKind::Verify),
        at.last() == s.len() && at.len() > 65 && distinct_codes(s, at, Seq::empty()) ==> (
        server_hello::hello_in(s, base) matches Err(f) && f.severity == Severity::Failure && f.code
            == ErrorKind::TooLarge && f.at == at[64]),
        at.last() < s.len() && at.len() <= 65 && distinct_codes(s, at, Seq::empty()) && (s.len()
            < at.last() + 4 || s.len() < at.last() + 4 + number_at(s, at.last() + 2)) ==> (
        server_hello::hello_in(s, base) matches Err(f) && f.severity == Severity::Error && f.code
            == ErrorKind::Eof && at.last() <= f.at <= s.len()),
{
    let none = Seq::<u16>::empty();
    if at.last() == s.len() && at.len() <= 65 && distinct_codes(s, at, none) {
        lemma_chain_is_read(s, base, at, none);
    }
    if at.last() == s.len() && at.len() <= 65 && !distinct_codes(s, at, none) {
        lemma_repeated_code(s, base, at, none);
    }
    if at.last() == s.len() && at.len() > 65 && distinct_codes(s, at, none) {
        lemma_too_many(s, base, at, none);
        lemma_chain_from_start(s, at, 64);
    }
    if at.last() < s.len() && at.len() <= 65 && distinct_codes(s, at, none) && (s.len() < at.last()
        + 4 || s.len() < at.last() + 4 + number_at(s, at.last() + 2)) {
        lemma_cut_extension(s, base, at, none);
        lemma_chain_from_start(s, at, at.len() - 1);
    }
}

/// A message is written field by field: the version, the random, the session identifier
/// behind its length, the cipher suite by its registered code, the compression method and,
/// where there is a list of extensions, the number of their bytes and these.
pub proof fn law_hello_is_written_by_field(h: HelloView, source: Seq<u8>)
    requires
        h.random.len() == 32,
        h.session_id.len() <= 32,
        h.cipher_suite matches Dtls12CipherSuite::Unknown(x) ==> x != 0xC02C && x != 0xC02B && x
            != 0xCCA9 && x != 0xCCAC && x != 0xC0A8,
    ensures
        ({
            let out = server_hello::hello_bytes(h, source);
            let n = h.session_id.len() as int;
            &&& out.len() >= 38 + n
            &&& number_at(out, 0) == h.server_version.code()
            &&& forall|i: int| 0 <= i < 32 ==> out[2 + i] == #[trigger] h.random[i]
            &&& out[34] == n
            &&& forall|i: int| 0 <= i < n ==> out[35 + i] == #[trigger] h.session_id[i]
            &&& is_suite(h.cipher_suite, out, 35 + n)
            &&& out[37 + n] == h.compression_method.code()
            &&& h.extensions is None ==> out.len() == 38 + n
            &&& h.extensions matches Some(list) ==> {
                let body = server_hello::extensions_bytes(list, source);
                &&& out.len() == 40 + n + body.len()
                &&& number_at(out, 38 + n) == body.len() % 65536
                &&& out.skip(40 + n) == body
            }
        }),
{
    let out = server_hello::hello_bytes(h, source);
    let n = h.session_id.len() as int;
    let version = h.server_version.code();
    let suite = h.cipher_suite.code();
    assert(out[0] == (version / 256) as u8 && out[1] == (version % 256) as u8);
    assert(out[35 + n] == (suite / 256) as u8 && out[36 + n] == (suite % 256) as u8);
    if let Some(list) = h.extensions {
        let body = server_hello::extensions_bytes(list, source);
        let count = super::extension::low16(body.len());
        assert(out[38 + n] == (count / 256) as u8 && out[39 + n] == (count % 256) as u8);
        assert(out.skip(40 + n) =~= body);
    }
}

/// Extensions are written one behind the other.
pub proof fn law_extensions_are_written_in_order(
    list: Seq<Extension>,
    e: Extension,
    source: Seq<u8>,
)
    ensures
        server_hello::extensions_bytes(Seq::empty(), source).len() == 0,
        server_hello::extensions_bytes(list.push(e), source) == server_hello::extensions_bytes(
            list,
            source,
        ) + e.bytes(source),
{
    assert(list.push(e).drop_last() =~= list);
}

/// A server answers with these extensions, in this order: `use_srtp` with the chosen
/// profile, where there is one; `extended_master_secret` without data; an empty
/// `renegotiation_info`; and `connection_id` with the Connection ID behind its length, where
/// there is one.
pub proof fn law_staged_extensions_by_bytes(srtp: Option<SrtpProfileId>, cid: Option<Seq<u8>>)
    requires
        cid matches Some(c) ==> c.len() <= 255,
    ensures
        ({
            let source = server_hello::staged_bytes(srtp, cid);
            let list = server_hello::staged_extensions(srtp, cid);
            let k: int = if srtp is Some {
                1
            } else {
                0
            };
            &&& list.len() == k + 2 + (if cid is Some {
                1int
            } else {
                0
            })
            &&& srtp matches Some(p) ==> {
                &&& list[0].extension_type is UseSrtp
                &&& list[0].data(source).len() == 5
                &&& list[0].data(source)[0] == 0 && list[0].data(source)[1] == 2
                &&& list[0].data(source)[2] == 0
                &&& list[0].data(source)[3] == (match p {
                    SrtpProfileId::SRTP_AES128_CM_SHA1_80 => 1u8,
                    SrtpProfileId::SRTP_AEAD_AES_128_GCM => 7u8,
                    SrtpProfileId::SRTP_AEAD_AES_256_GCM => 8u8,
                })
                &&& list[0].data(source)[4] == 0
            }
            &&& list[k].extension_type is ExtendedMasterSecret
            &&& list[k].data(source).len() == 0
            &&& list[k + 1].extension_type is RenegotiationInfo
            &&& list[k + 1].data(source) == seq![0u8]
            &&& cid matches Some(c) ==> {
                &&& list[k + 2].extension_type is ConnectionId
                &&& list[k + 2].data(source).len() == 1 + c.len()
                &&& list[k + 2].data(source)[0] == c.len()
                &&& forall|i: int|
                    0 <= i < c.len() ==> list[k + 2].data(source)[1 + i] == #[trigger] c[i]
            }
        }),
{
    let source = server_hello::staged_bytes(srtp, cid);
    let list = server_hello::staged_extensions(srtp, cid);
    let n: int = if srtp is Some {
        5
    } else {
        0
    };
    let k: int = if srtp is Some {
        1
    } else {
        0
    };
    assert(source[n] == 0);
    assert(list[k + 1].data(source) =~= seq![0u8]);
}

} // verus!
