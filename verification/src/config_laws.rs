//! When settings are accepted, and what of a provider they leave, said of the settings and
//! the provider themselves.

use vstd::prelude::*;

use crate::config;
use crate::config::{Config, ConfigBuilder, Psk, Settings};
use crate::config_rules as rules;
use crate::config_rules::Request;
use crate::crypto::provider::Offer;
use crate::dtls12::message::Dtls12CipherSuite;
use crate::error::Error;
use crate::types::{Dtls13CipherSuite, NamedGroup};

verus! {

/// The suite authenticates by a pre-shared key.
pub open spec fn by_psk(x: Dtls12CipherSuite) -> bool {
    x == Dtls12CipherSuite::ECDHE_PSK_CHACHA20_POLY1305_SHA256 || x
        == Dtls12CipherSuite::PSK_AES128_CCM_8
}

/// The DTLS 1.2 suite `x` is offered, and on the allow-list where there is one.
pub open spec fn listed12(q: Request, p: Offer, x: Dtls12CipherSuite) -> bool {
    p.cipher_suites.contains(x) && (q.dtls12_cipher_suites matches Some(list) ==> list.contains(x))
}

/// The DTLS 1.2 suite `x` is used: it is listed, and needs no PSK where none is configured.
pub open spec fn used12(q: Request, p: Offer, x: Dtls12CipherSuite) -> bool {
    listed12(q, p, x) && (q.psk || !by_psk(x))
}

/// The DTLS 1.3 suite `x` is used: it is offered, and on the allow-list where there is one.
pub open spec fn used13(q: Request, p: Offer, x: Dtls13CipherSuite) -> bool {
    p.dtls13_cipher_suites.contains(x) && (q.dtls13_cipher_suites matches Some(list)
        ==> list.contains(x))
}

/// The group `x` is used: it is offered, and on the allow-list where there is one.
pub open spec fn used_group(q: Request, p: Offer, x: NamedGroup) -> bool {
    p.kx_groups.contains(x) && (q.kx_groups matches Some(list) ==> list.contains(x))
}

/// Some cipher suite is used.
pub open spec fn some_suite(q: Request, p: Offer) -> bool {
    (exists|x: Dtls12CipherSuite| used12(q, p, x)) || (exists|x: Dtls13CipherSuite| used13(q, p, x))
}

/// Some suite is used whose handshake needs a key exchange group.
pub open spec fn needs_group(q: Request, p: Offer) -> bool {
    (exists|x: Dtls12CipherSuite| used12(q, p, x) && x != Dtls12CipherSuite::PSK_AES128_CCM_8) || (
    exists|x: Dtls13CipherSuite| used13(q, p, x))
}

/// All that settings and a provider have to keep.
pub open spec fn sound(q: Request, p: Offer) -> bool {
    &&& p.defect is None
    &&& q.mtu >= 64
    &&& q.connection_id_len matches Some(n) ==> n <= 255
    &&& q.connection_id_len is Some ==> exists|x: Dtls12CipherSuite| listed12(q, p, x)
    &&& q.aead_encryption_limit >= 1
    &&& some_suite(q, p)
    &&& q.psk ==> exists|x: Dtls12CipherSuite| used12(q, p, x) && by_psk(x)
    &&& needs_group(q, p) ==> exists|x: NamedGroup| used_group(q, p, x)
}

/// What the filters leave is what is used.
proof fn lemma_filters(q: Request, p: Offer)
    ensures
        forall|x: Dtls12CipherSuite| #[trigger]
            rules::dtls12_suites(q, p.cipher_suites).contains(x) <==> used12(q, p, x),
        forall|x: Dtls13CipherSuite| #[trigger]
            rules::dtls13_suites(q, p.dtls13_cipher_suites).contains(x) <==> used13(q, p, x),
        forall|x: NamedGroup| #[trigger]
            rules::groups(q, p.kx_groups).contains(x) <==> used_group(q, p, x),
{
    assert forall|x: Dtls12CipherSuite| #[trigger]
        rules::dtls12_suites(q, p.cipher_suites).contains(x) <==> used12(q, p, x) by {
        rules::law_dtls12_suites(q, p.cipher_suites, x);
    }
    assert forall|x: Dtls13CipherSuite| #[trigger]
        rules::dtls13_suites(q, p.dtls13_cipher_suites).contains(x) <==> used13(q, p, x) by {
        rules::law_dtls13_suites(q, p.dtls13_cipher_suites, x);
    }
    if let Some(wanted) = q.kx_groups {
        rules::law_group_preference(wanted, p.kx_groups);
    }
}

/// What the rules ask of lists, said of their members.
proof fn lemma_rules(q: Request, p: Offer)
    ensures
        (exists|i: int|
            0 <= i < p.cipher_suites.len() && rules::allowed(
                q.dtls12_cipher_suites,
                #[trigger] p.cipher_suites[i],
            )) <==> (exists|x: Dtls12CipherSuite| listed12(q, p, x)),
        ({
            let suites12 = rules::dtls12_suites(q, p.cipher_suites);
            let suites13 = rules::dtls13_suites(q, p.dtls13_cipher_suites);
            let kx = rules::groups(q, p.kx_groups);
            &&& suites12.len() + suites13.len() > 0 <==> some_suite(q, p)
            &&& suites13.len() > 0 <==> exists|x: Dtls13CipherSuite| used13(q, p, x)
            &&& kx.len() > 0 <==> exists|x: NamedGroup| used_group(q, p, x)
            &&& (exists|i: int| 0 <= i < suites12.len() && (#[trigger] suites12[i]).psk()) <==> (
            exists|x: Dtls12CipherSuite| used12(q, p, x) && by_psk(x))
            &&& (exists|i: int| 0 <= i < suites12.len() && (#[trigger] suites12[i]).ecdhe()) <==> (
            exists|x: Dtls12CipherSuite|
                used12(q, p, x) && x != Dtls12CipherSuite::PSK_AES128_CCM_8)
        }),
{
    lemma_filters(q, p);
    let suites12 = rules::dtls12_suites(q, p.cipher_suites);
    let suites13 = rules::dtls13_suites(q, p.dtls13_cipher_suites);
    let kx = rules::groups(q, p.kx_groups);
    if exists|i: int|
        0 <= i < p.cipher_suites.len() && rules::allowed(
            q.dtls12_cipher_suites,
            #[trigger] p.cipher_suites[i],
        ) {
        let i = choose|i: int|
            0 <= i < p.cipher_suites.len() && rules::allowed(
                q.dtls12_cipher_suites,
                #[trigger] p.cipher_suites[i],
            );
        assert(listed12(q, p, p.cipher_suites[i]));
    }
    if exists|x: Dtls12CipherSuite| listed12(q, p, x) {
        let x = choose|x: Dtls12CipherSuite| listed12(q, p, x);
        let i = choose|i: int| 0 <= i < p.cipher_suites.len() && p.cipher_suites[i] == x;
        assert(rules::allowed(q.dtls12_cipher_suites, p.cipher_suites[i]));
    }
    if suites12.len() > 0 {
        assert(suites12.contains(suites12[0]));
        assert(used12(q, p, suites12[0]));
    }
    if exists|x: Dtls12CipherSuite| used12(q, p, x) {
        let x = choose|x: Dtls12CipherSuite| used12(q, p, x);
        assert(suites12.contains(x));
    }
    if suites13.len() > 0 {
        assert(suites13.contains(suites13[0]));
        assert(used13(q, p, suites13[0]));
    }
    if exists|x: Dtls13CipherSuite| used13(q, p, x) {
        let x = choose|x: Dtls13CipherSuite| used13(q, p, x);
        assert(suites13.contains(x));
    }
    if kx.len() > 0 {
        assert(kx.contains(kx[0]));
        assert(used_group(q, p, kx[0]));
    }
    if exists|x: NamedGroup| used_group(q, p, x) {
        let x = choose|x: NamedGroup| used_group(q, p, x);
        assert(kx.contains(x));
    }
    if exists|i: int| 0 <= i < suites12.len() && (#[trigger] suites12[i]).psk() {
        let i = choose|i: int| 0 <= i < suites12.len() && (#[trigger] suites12[i]).psk();
        assert(suites12.contains(suites12[i]));
        assert(used12(q, p, suites12[i]) && by_psk(suites12[i]));
    }
    if exists|x: Dtls12CipherSuite| used12(q, p, x) && by_psk(x) {
        let x = choose|x: Dtls12CipherSuite| used12(q, p, x) && by_psk(x);
        assert(suites12.contains(x));
        let i = choose|i: int| 0 <= i < suites12.len() && suites12[i] == x;
        assert(suites12[i].psk());
    }
    if exists|i: int| 0 <= i < suites12.len() && (#[trigger] suites12[i]).ecdhe() {
        let i = choose|i: int| 0 <= i < suites12.len() && (#[trigger] suites12[i]).ecdhe();
        assert(suites12.contains(suites12[i]));
        assert(used12(q, p, suites12[i]) && suites12[i] != Dtls12CipherSuite::PSK_AES128_CCM_8);
    }
    if exists|x: Dtls12CipherSuite| used12(q, p, x) && x != Dtls12CipherSuite::PSK_AES128_CCM_8 {
        let x = choose|x: Dtls12CipherSuite|
            used12(q, p, x) && x != Dtls12CipherSuite::PSK_AES128_CCM_8;
        assert(suites12.contains(x));
        let i = choose|i: int| 0 <= i < suites12.len() && suites12[i] == x;
        assert(suites12[i].ecdhe());
    }
}

/// Settings are accepted exactly where they and the provider keep all rules: the provider
/// has no defect, the MTU is 64 bytes at least, a Connection ID has 255 bytes at most and
/// comes with a DTLS 1.2 suite of the provider on the allow-list, the AEAD limit is 1 at
/// least, some suite is used, a PSK suite where a PSK is configured, and some group where a
/// suite that is used needs one.
pub proof fn law_sound_settings_are_accepted(q: Request, p: Offer)
    ensures
        rules::rejection(q, p) is None <==> sound(q, p),
{
    lemma_rules(q, p);
}

/// The first rule that is broken is the one that is reported, each by its own message.
pub proof fn law_first_broken_rule_is_reported(q: Request, p: Offer)
    ensures
        ({
            let m = rules::rejection(q, p);
            let cid_fits = q.connection_id_len matches Some(n) ==> n <= 255;
            let cid_served = q.connection_id_len is Some ==> exists|x: Dtls12CipherSuite|
                listed12(q, p, x);
            let psk_served = q.psk ==> exists|x: Dtls12CipherSuite| used12(q, p, x) && by_psk(x);
            let base = p.defect is None && q.mtu >= 64 && cid_fits && cid_served;
            let no_group = !exists|x: NamedGroup| used_group(q, p, x);
            let ecdhe12 = exists|x: Dtls12CipherSuite|
                used12(q, p, x) && x != Dtls12CipherSuite::PSK_AES128_CCM_8;
            &&& p.defect is Some ==> m == p.defect
            &&& p.defect is None && q.mtu < 64 ==> m == Some(
                "MTU "@ + crate::text::decimal(q.mtu) + " is too small (minimum 64)"@,
            )
            &&& p.defect is None && q.mtu >= 64 && !cid_fits ==> m == Some(
                "Connection ID length "@ + crate::text::decimal(q.connection_id_len->0)
                    + " exceeds maximum 255"@,
            )
            &&& p.defect is None && q.mtu >= 64 && cid_fits && !cid_served ==> m == Some(
                "Connection ID is configured (RFC 9146, DTLS 1.2) but no DTLS 1.2 cipher suite survives the filter. Either include a DTLS 1.2 suite in `dtls12_cipher_suites` or drop `with_connection_id`."@,
            )
            &&& base && q.aead_encryption_limit == 0 ==> m == Some(
                "aead_encryption_limit must be at least 1"@,
            )
            &&& base && q.aead_encryption_limit > 0 && !some_suite(q, p) ==> m == Some(
                "No cipher suites remain after filtering. At least one DTLS 1.2 or DTLS 1.3 cipher suite must be available."@,
            )
            &&& base && q.aead_encryption_limit > 0 && some_suite(q, p) && !psk_served ==> m == Some(
                "PSK is configured but no PSK cipher suite remains after filtering DTLS 1.2 suites. Include at least one PSK suite in dtls12_cipher_suites."@,
            )
            &&& base && q.aead_encryption_limit > 0 && some_suite(q, p) && psk_served && no_group
                && ecdhe12 ==> m == Some(
                "DTLS 1.2 cipher suites are enabled but no compatible key exchange groups remain after filtering."@,
            )
            &&& base && q.aead_encryption_limit > 0 && some_suite(q, p) && psk_served && no_group
                && !ecdhe12 && (exists|x: Dtls13CipherSuite| used13(q, p, x)) ==> m == Some(
                "DTLS 1.3 cipher suites are enabled but no key exchange groups remain after filtering."@,
            )
        }),
{
    lemma_rules(q, p);
}

/// What decides is read from the settings of the same name: the MTU, the number of bytes of
/// the Connection ID, the AEAD limit, the allow-lists, and whether there is a PSK.
pub proof fn law_request_is_read_from_the_settings(s: Settings)
    ensures
        s.request().mtu == s.mtu,
        s.connection_id is None <==> s.request().connection_id_len is None,
        s.connection_id matches Some(c) ==> s.request().connection_id_len == Some(c@.len()),
        s.request().aead_encryption_limit == s.aead_encryption_limit,
        s.dtls12_cipher_suites is None <==> s.request().dtls12_cipher_suites is None,
        s.dtls12_cipher_suites matches Some(l) ==> s.request().dtls12_cipher_suites == Some(l@),
        s.dtls13_cipher_suites is None <==> s.request().dtls13_cipher_suites is None,
        s.dtls13_cipher_suites matches Some(l) ==> s.request().dtls13_cipher_suites == Some(l@),
        s.kx_groups is None <==> s.request().kx_groups is None,
        s.kx_groups matches Some(l) ==> s.request().kx_groups == Some(l@),
        s.request().psk <==> s.psk is Some,
{
}

/// Sound settings build, as they are and with the provider that was chosen. All others are
/// refused with an error of configuration.
pub proof fn law_sound_settings_build(s: Settings, p: Offer, r: Result<Config, Error>)
    requires
        config::built(s, p, r),
    ensures
        sound(s.request(), p) ==> (r matches Ok(c) && c.chosen() == s && c.provider()@ == p),
        !sound(s.request(), p) ==> (r matches Err(e) && e is ConfigError),
{
    law_sound_settings_are_accepted(s.request(), p);
}

/// The provider that was set comes first, then the installed default, then the built-in one.
pub proof fn law_provider_priority(b: ConfigBuilder)
    ensures
        b.provider() matches Some(p) ==> b.offer() == p@,
        b.provider() is None && b.installed() is Some ==> b.offer() == b.installed()->0@,
        b.provider() is None && b.installed() is None ==> b.offer()
            == crate::crypto::provider::built_in(),
{
}

/// The suites that are used keep the order of the provider, and come as often: one more that
/// is offered is one more behind the others where it may be used, and none elsewhere.
pub proof fn law_suites_keep_the_order_of_the_provider(
    q: Request,
    offered12: Seq<Dtls12CipherSuite>,
    x: Dtls12CipherSuite,
    offered13: Seq<Dtls13CipherSuite>,
    y: Dtls13CipherSuite,
)
    ensures
        rules::dtls12_suites(q, Seq::empty()).len() == 0,
        rules::dtls12_suites(q, offered12.push(x)) == if (q.dtls12_cipher_suites matches Some(list)
            ==> list.contains(x)) && (q.psk || !by_psk(x)) {
            rules::dtls12_suites(q, offered12).push(x)
        } else {
            rules::dtls12_suites(q, offered12)
        },
        rules::dtls13_suites(q, Seq::empty()).len() == 0,
        rules::dtls13_suites(q, offered13.push(y)) == if (q.dtls13_cipher_suites matches Some(list)
            ==> list.contains(y)) {
            rules::dtls13_suites(q, offered13).push(y)
        } else {
            rules::dtls13_suites(q, offered13)
        },
{
    reveal(Seq::filter);
    assert(offered12.push(x).drop_last() =~= offered12);
    assert(offered13.push(y).drop_last() =~= offered13);
}

/// Without an allow-list all groups of the provider are used, in its order. With one, a
/// group is used as often as the provider offers it.
pub proof fn law_groups_are_used_as_offered(q: Request, offered: Seq<NamedGroup>, x: NamedGroup)
    ensures
        q.kx_groups is None ==> rules::groups(q, offered) == offered,
        q.kx_groups matches Some(list) ==> rules::groups(q, offered).to_multiset().count(x) == (
        if list.contains(x) {
            offered.to_multiset().count(x)
        } else {
            0
        }),
{
    if let Some(list) = q.kx_groups {
        let all = rules::groups(q, offered);
        rules::law_group_preference(list, offered);
        assert(all.contains(x) <==> list.contains(x) && offered.contains(x));
        if list.contains(x) {
            assert(rules::mentions(all, x) == rules::mentions(offered, x));
            lemma_mentions_count(all, x);
            lemma_mentions_count(offered, x);
        } else {
            all.to_multiset_ensures();
            assert(!all.contains(x));
        }
    }
}

/// With an allow-list, a group that comes before another one is named on the list before any
/// mention of that one: the first is the most preferred.
pub proof fn law_groups_follow_the_list(
    q: Request,
    offered: Seq<NamedGroup>,
    i: int,
    j: int,
    k: int,
)
    requires
        q.kx_groups is Some,
        0 <= i < j < rules::groups(q, offered).len(),
        rules::groups(q, offered)[i] != rules::groups(q, offered)[j],
        0 <= k < q.kx_groups->0.len(),
        q.kx_groups->0[k] == rules::groups(q, offered)[j],
    ensures
        exists|m: int| 0 <= m < k && q.kx_groups->0[m] == rules::groups(q, offered)[i],
{
    let list = q.kx_groups->0;
    let all = rules::groups(q, offered);
    rules::law_group_preference(list, offered);
    assert(all.contains(all[i]) && all.contains(all[j]));
    rules::lemma_first_index(list, all[i]);
    rules::lemma_first_index(list, all[j]);
    let m = rules::first_index(list, all[i]);
    assert(m <= rules::first_index(list, all[j]) <= k);
    assert(list[m] == all[i]);
}

/// A list mentions a group as often as it holds it.
proof fn lemma_mentions_count(s: Seq<NamedGroup>, x: NamedGroup)
    ensures
        rules::mentions(s, x).len() == s.to_multiset().count(x),
    decreases s.len(),
{
    reveal(Seq::filter);
    s.to_multiset_ensures();
    if s.len() == 0 {
        assert(!s.contains(x));
    } else {
        let front = s.drop_last();
        lemma_mentions_count(front, x);
        assert(s =~= front.push(s.last()));
        vstd::seq_lib::to_multiset_build(front, s.last());
    }
}

/// The same settings have the same values, the same lists and bytes, and the same shared
/// objects, so that they are accepted alike.
pub proof fn law_same_settings_agree(a: Settings, b: Settings)
    requires
        config::same_settings(a, b),
    ensures
        a.mtu == b.mtu,
        a.max_queue_rx == b.max_queue_rx,
        a.max_queue_tx == b.max_queue_tx,
        a.require_client_certificate == b.require_client_certificate,
        a.use_server_cookie == b.use_server_cookie,
        a.flight_start_rto == b.flight_start_rto,
        a.flight_retries == b.flight_retries,
        a.handshake_timeout == b.handshake_timeout,
        a.rng_seed == b.rng_seed,
        a.aead_encryption_limit == b.aead_encryption_limit,
        a.dtls12_cipher_suites is Some == b.dtls12_cipher_suites is Some,
        a.dtls12_cipher_suites is Some ==> a.dtls12_cipher_suites->0@ == b.dtls12_cipher_suites->0@,
        a.dtls13_cipher_suites is Some == b.dtls13_cipher_suites is Some,
        a.dtls13_cipher_suites is Some ==> a.dtls13_cipher_suites->0@ == b.dtls13_cipher_suites->0@,
        a.kx_groups is Some == b.kx_groups is Some,
        a.kx_groups is Some ==> a.kx_groups->0@ == b.kx_groups->0@,
        a.connection_id is Some == b.connection_id is Some,
        a.connection_id is Some ==> a.connection_id->0@ == b.connection_id->0@,
        a.offered_session_id is Some == b.offered_session_id is Some,
        a.offered_session_id is Some ==> a.offered_session_id->0@ == b.offered_session_id->0@,
        a.session_store is Some == b.session_store is Some,
        a.session_store is Some ==> a.session_store->0.target() == b.session_store->0.target(),
        a.psk is Some == b.psk is Some,
        a.psk is Some ==> a.psk->0.same(&b.psk->0),
        a.request() == b.request(),
{
    assert(a.request() =~= b.request());
}

/// The same PSK has the same role, the same identity or hint, and the same resolver.
pub proof fn law_same_psk_agrees(a: Psk, b: Psk)
    requires
        a.same(&b),
    ensures
        a is Client == b is Client,
        a matches Psk::Client { identity: x, .. } ==> b matches Psk::Client { identity: y, .. } ==> x@
            == y@,
        a matches Psk::Server { hint: x, .. } ==> b matches Psk::Server { hint: y, .. } ==> (x
            is Some == y is Some) && (x is Some ==> x->0@ == y->0@),
        a.handle().target() == b.handle().target(),
{
}

/// The resolver of a PSK is the one that it was configured with, in either role.
pub proof fn law_psk_has_its_resolver(p: Psk)
    ensures
        p matches Psk::Client { resolver, .. } ==> p.handle() == resolver,
        p matches Psk::Server { resolver, .. } ==> p.handle() == resolver,
{
}

} // verus!
