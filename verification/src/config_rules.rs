//! Which settings can be used with a provider, and what they leave of it.

use vstd::prelude::*;
use vstd::string::StringExecFns;

use crate::config::Settings;
use crate::crypto::provider::Offer;
use crate::crypto::{CryptoProvider, DTLS12_CID_MAX_LEN};
use crate::dtls12::message::Dtls12CipherSuite;
use crate::error::Error;
use crate::text;
use crate::types::{Dtls13CipherSuite, NamedGroup};

verus! {

/// The items of an optional list.
pub open spec fn items_of<T>(v: Option<Vec<T>>) -> Option<Seq<T>> {
    match v {
        Some(list) => Some(list@),
        None => None,
    }
}

/// What of the settings decides whether they can be used.
#[verifier::ext_equal]
pub struct Request {
    pub mtu: nat,
    pub connection_id_len: Option<nat>,
    pub aead_encryption_limit: nat,
    pub dtls12_cipher_suites: Option<Seq<Dtls12CipherSuite>>,
    pub dtls13_cipher_suites: Option<Seq<Dtls13CipherSuite>>,
    pub kx_groups: Option<Seq<NamedGroup>>,
    pub psk: bool,
}

/// `x` passes an allow-list; where there is none, everything does.
pub open spec fn allowed<T>(list: Option<Seq<T>>, x: T) -> bool {
    match list {
        Some(l) => l.contains(x),
        None => true,
    }
}

/// The DTLS 1.2 suites of the provider that are used, in its order: those on the
/// allow-list and, where no PSK is configured, only those that authenticate by
/// certificate.
pub open spec fn dtls12_suites(
    q: Request,
    offered: Seq<Dtls12CipherSuite>,
) -> Seq<Dtls12CipherSuite> {
    offered.filter(|x: Dtls12CipherSuite| allowed(q.dtls12_cipher_suites, x) && (q.psk || !x.psk()))
}

/// The DTLS 1.3 suites of the provider that are used, in its order: those on the
/// allow-list.
pub open spec fn dtls13_suites(
    q: Request,
    offered: Seq<Dtls13CipherSuite>,
) -> Seq<Dtls13CipherSuite> {
    offered.filter(|x: Dtls13CipherSuite| allowed(q.dtls13_cipher_suites, x))
}

/// The test for the group `x`.
pub open spec fn same(x: NamedGroup) -> spec_fn(NamedGroup) -> bool {
    |y: NamedGroup| y == x
}

/// Each mention of the group `x` in `offered`.
pub open spec fn mentions(offered: Seq<NamedGroup>, x: NamedGroup) -> Seq<NamedGroup> {
    offered.filter(same(x))
}

/// The groups of `wanted` that are `offered`, in the order in which `wanted` first names
/// them, each as often as it is offered.
pub open spec fn preferred(wanted: Seq<NamedGroup>, offered: Seq<NamedGroup>) -> Seq<NamedGroup>
    decreases wanted.len(),
{
    if wanted.len() == 0 {
        Seq::empty()
    } else {
        let front = wanted.drop_last();
        if front.contains(wanted.last()) {
            preferred(front, offered)
        } else {
            preferred(front, offered) + mentions(offered, wanted.last())
        }
    }
}

/// The key exchange groups that are used: those of the provider, in its order, or
/// those of an allow-list that the provider has, in the order of the list.
pub open spec fn groups(q: Request, offered: Seq<NamedGroup>) -> Seq<NamedGroup> {
    match q.kx_groups {
        Some(wanted) => preferred(wanted, offered),
        None => offered,
    }
}

/// Why settings cannot be used with a provider: the message for the error, `None`
/// where they can. The reasons are tried in this order:
///
/// - the provider itself cannot be used;
/// - the MTU is below 64 bytes;
/// - the Connection ID is longer than 255 bytes;
/// - there is a Connection ID, which is of DTLS 1.2, but no DTLS 1.2 suite of the
///   provider is on the allow-list;
/// - the AEAD encryption limit is 0;
/// - no cipher suite is left;
/// - a PSK is configured, but no PSK suite is left;
/// - a DTLS 1.2 suite that negotiates a key exchange group is left, but no group is;
/// - a DTLS 1.3 suite is left, but no group is.
pub open spec fn rejection(q: Request, p: Offer) -> Option<Seq<char>> {
    let suites12 = dtls12_suites(q, p.cipher_suites);
    let suites13 = dtls13_suites(q, p.dtls13_cipher_suites);
    let kx = groups(q, p.kx_groups);
    if p.defect is Some {
        p.defect
    } else if q.mtu < 64 {
        Some("MTU "@ + text::decimal(q.mtu) + " is too small (minimum 64)"@)
    } else if q.connection_id_len is Some && q.connection_id_len->0 > DTLS12_CID_MAX_LEN {
        Some(
            "Connection ID length "@ + text::decimal(q.connection_id_len->0)
                + " exceeds maximum 255"@,
        )
    } else if q.connection_id_len is Some && !exists|i: int|
        0 <= i < p.cipher_suites.len() && allowed(
            q.dtls12_cipher_suites,
            #[trigger] p.cipher_suites[i],
        ) {
        Some(
            "Connection ID is configured (RFC 9146, DTLS 1.2) but no DTLS 1.2 cipher suite survives the filter. Either include a DTLS 1.2 suite in `dtls12_cipher_suites` or drop `with_connection_id`."@,
        )
    } else if q.aead_encryption_limit == 0 {
        Some("aead_encryption_limit must be at least 1"@)
    } else if suites12.len() + suites13.len() == 0 {
        Some(
            "No cipher suites remain after filtering. At least one DTLS 1.2 or DTLS 1.3 cipher suite must be available."@,
        )
    } else if q.psk && !exists|i: int| 0 <= i < suites12.len() && (#[trigger] suites12[i]).psk() {
        Some(
            "PSK is configured but no PSK cipher suite remains after filtering DTLS 1.2 suites. Include at least one PSK suite in dtls12_cipher_suites."@,
        )
    } else if kx.len() == 0 && exists|i: int|
        0 <= i < suites12.len() && (#[trigger] suites12[i]).ecdhe() {
        Some(
            "DTLS 1.2 cipher suites are enabled but no compatible key exchange groups remain after filtering."@,
        )
    } else if kx.len() == 0 && suites13.len() > 0 {
        Some(
            "DTLS 1.3 cipher suites are enabled but no key exchange groups remain after filtering."@,
        )
    } else {
        None
    }
}

fn allows_dtls12(list: &Option<Vec<Dtls12CipherSuite>>, x: Dtls12CipherSuite) -> (b: bool)
    ensures
        b == allowed(items_of(*list), x),
{
    match list {
        Some(l) => {
            let mut i: usize = 0;
            while i < l.len()
                invariant
                    items_of(*list) == Some(l@),
                    i <= l@.len(),
                    forall|k: int| 0 <= k < i ==> l@[k] != x,
                decreases l@.len() - i,
            {
                if l[i] == x {
                    return true;
                }
                i = i + 1;
            }
            false
        },
        None => true,
    }
}

fn allows_dtls13(list: &Option<Vec<Dtls13CipherSuite>>, x: Dtls13CipherSuite) -> (b: bool)
    ensures
        b == allowed(items_of(*list), x),
{
    match list {
        Some(l) => {
            let mut i: usize = 0;
            while i < l.len()
                invariant
                    items_of(*list) == Some(l@),
                    i <= l@.len(),
                    forall|k: int| 0 <= k < i ==> l@[k] != x,
                decreases l@.len() - i,
            {
                if l[i] == x {
                    return true;
                }
                i = i + 1;
            }
            false
        },
        None => true,
    }
}

/// Whether `x` is among the first `n` groups of a list.
fn named_before(list: &Vec<NamedGroup>, n: usize, x: NamedGroup) -> (b: bool)
    requires
        n <= list@.len(),
    ensures
        b == list@.take(n as int).contains(x),
{
    let mut i: usize = 0;
    while i < n
        invariant
            i <= n <= list@.len(),
            forall|k: int| 0 <= k < i ==> list@[k] != x,
        decreases n - i,
    {
        if list[i] == x {
            assert(list@.take(n as int)[i as int] == x);
            return true;
        }
        i = i + 1;
    }
    false
}

/// Adds `x` as often as it is offered; see [`mentions`].
fn push_mentions(v: &mut Vec<NamedGroup>, offered: &Vec<NamedGroup>, x: NamedGroup)
    ensures
        final(v)@ == old(v)@ + mentions(offered@, x),
{
    let mut i: usize = 0;
    assert(v@ + offered@.take(0).filter(same(x)) =~= v@) by {
        reveal(Seq::filter);
    }
    while i < offered.len()
        invariant
            i <= offered@.len(),
            v@ == old(v)@ + offered@.take(i as int).filter(same(x)),
        decreases offered@.len() - i,
    {
        proof {
            reveal(Seq::filter);
            assert(offered@.take(i + 1).drop_last() =~= offered@.take(i as int));
            assert(offered@.take(i + 1).last() == offered@[i as int]);
        }
        if offered[i] == x {
            v.push(x);
        }
        i = i + 1;
        assert(v@ =~= old(v)@ + offered@.take(i as int).filter(same(x)));
    }
    assert(offered@.take(i as int) =~= offered@);
}

/// See [`dtls12_suites`].
pub(crate) fn usable_dtls12(settings: &Settings, provider: &CryptoProvider) -> (v: Vec<Dtls12CipherSuite>)
    ensures
        v@ == dtls12_suites(settings.request(), provider@.cipher_suites),
{
    let offered: &Vec<Dtls12CipherSuite> = &provider.cipher_suites;
    let ghost q = settings.request();
    let ghost keep = |x: Dtls12CipherSuite|
        allowed(q.dtls12_cipher_suites, x) && (q.psk || !x.psk());
    let has_psk: bool = settings.psk.is_some();
    let mut v: Vec<Dtls12CipherSuite> = Vec::new();
    let mut i: usize = 0;
    assert(offered@.take(0).filter(keep) =~= Seq::empty()) by {
        reveal(Seq::filter);
    }
    while i < offered.len()
        invariant
            i <= offered@.len(),
            q == settings.request(),
            has_psk == q.psk,
            keep == (|x: Dtls12CipherSuite|
                allowed(q.dtls12_cipher_suites, x) && (q.psk || !x.psk())),
            v@ == offered@.take(i as int).filter(keep),
        decreases offered@.len() - i,
    {
        let x: Dtls12CipherSuite = offered[i];
        proof {
            reveal(Seq::filter);
            assert(offered@.take(i + 1).drop_last() =~= offered@.take(i as int));
            assert(offered@.take(i + 1).last() == x);
        }
        if allows_dtls12(&settings.dtls12_cipher_suites, x) && (has_psk || !x.is_psk()) {
            v.push(x);
        }
        i = i + 1;
    }
    assert(offered@.take(i as int) =~= offered@);
    v
}

/// See [`dtls13_suites`].
pub(crate) fn usable_dtls13(settings: &Settings, provider: &CryptoProvider) -> (v: Vec<Dtls13CipherSuite>)
    ensures
        v@ == dtls13_suites(settings.request(), provider@.dtls13_cipher_suites),
{
    let offered: &Vec<Dtls13CipherSuite> = &provider.dtls13_cipher_suites;
    let ghost q = settings.request();
    let ghost keep = |x: Dtls13CipherSuite| allowed(q.dtls13_cipher_suites, x);
    let mut v: Vec<Dtls13CipherSuite> = Vec::new();
    let mut i: usize = 0;
    assert(offered@.take(0).filter(keep) =~= Seq::empty()) by {
        reveal(Seq::filter);
    }
    while i < offered.len()
        invariant
            i <= offered@.len(),
            q == settings.request(),
            keep == (|x: Dtls13CipherSuite| allowed(q.dtls13_cipher_suites, x)),
            v@ == offered@.take(i as int).filter(keep),
        decreases offered@.len() - i,
    {
        let x: Dtls13CipherSuite = offered[i];
        proof {
            reveal(Seq::filter);
            assert(offered@.take(i + 1).drop_last() =~= offered@.take(i as int));
            assert(offered@.take(i + 1).last() == x);
        }
        if allows_dtls13(&settings.dtls13_cipher_suites, x) {
            v.push(x);
        }
        i = i + 1;
    }
    assert(offered@.take(i as int) =~= offered@);
    v
}

/// See [`groups`].
pub(crate) fn usable_groups(settings: &Settings, provider: &CryptoProvider) -> (v: Vec<NamedGroup>)
    ensures
        v@ == groups(settings.request(), provider@.kx_groups),
{
    match &settings.kx_groups {
        None => vstd::slice::slice_to_vec(provider.kx_groups.as_slice()),
        Some(wanted) => {
            let mut v: Vec<NamedGroup> = Vec::new();
            let mut i: usize = 0;
            assert(wanted@.take(0) =~= Seq::empty());
            while i < wanted.len()
                invariant
                    i <= wanted@.len(),
                    v@ == preferred(wanted@.take(i as int), provider@.kx_groups),
                decreases wanted@.len() - i,
            {
                let x: NamedGroup = wanted[i];
                proof {
                    assert(wanted@.take(i + 1).drop_last() =~= wanted@.take(i as int));
                    assert(wanted@.take(i + 1).last() == x);
                }
                if !named_before(wanted, i, x) {
                    push_mentions(&mut v, &provider.kx_groups, x);
                }
                i = i + 1;
            }
            assert(wanted@.take(i as int) =~= wanted@);
            v
        },
    }
}

fn any_psk(suites: &Vec<Dtls12CipherSuite>) -> (b: bool)
    ensures
        b == exists|i: int| 0 <= i < suites@.len() && (#[trigger] suites@[i]).psk(),
{
    let mut i: usize = 0;
    while i < suites.len()
        invariant
            i <= suites@.len(),
            forall|k: int| 0 <= k < i ==> !(#[trigger] suites@[k]).psk(),
        decreases suites@.len() - i,
    {
        if suites[i].is_psk() {
            return true;
        }
        i = i + 1;
    }
    false
}

fn any_needs_group(suites: &Vec<Dtls12CipherSuite>) -> (b: bool)
    ensures
        b == exists|i: int| 0 <= i < suites@.len() && (#[trigger] suites@[i]).ecdhe(),
{
    let mut i: usize = 0;
    while i < suites.len()
        invariant
            i <= suites@.len(),
            forall|k: int| 0 <= k < i ==> !(#[trigger] suites@[k]).ecdhe(),
        decreases suites@.len() - i,
    {
        if suites[i].needs_kx_group() {
            return true;
        }
        i = i + 1;
    }
    false
}

/// Whether a DTLS 1.2 suite of the provider is on the allow-list, whatever
/// authentication it uses.
fn any_dtls12(settings: &Settings, provider: &CryptoProvider) -> (b: bool)
    ensures
        b == exists|i: int|
            0 <= i < provider@.cipher_suites.len() && allowed(
                settings.request().dtls12_cipher_suites,
                #[trigger] provider@.cipher_suites[i],
            ),
{
    let offered: &Vec<Dtls12CipherSuite> = &provider.cipher_suites;
    let mut i: usize = 0;
    while i < offered.len()
        invariant
            i <= offered@.len(),
            offered@ == provider@.cipher_suites,
            forall|k: int|
                0 <= k < i ==> !allowed(
                    settings.request().dtls12_cipher_suites,
                    #[trigger] offered@[k],
                ),
        decreases offered@.len() - i,
    {
        if allows_dtls12(&settings.dtls12_cipher_suites, offered[i]) {
            assert(allowed(
                settings.request().dtls12_cipher_suites,
                provider@.cipher_suites[i as int],
            ));
            return true;
        }
        i = i + 1;
    }
    false
}

/// Checks settings against a provider; see [`rejection`].
pub(crate) fn check(settings: &Settings, provider: &CryptoProvider) -> (r: Result<(), Error>)
    ensures
        match rejection(settings.request(), provider@) {
            Some(m) => r matches Err(Error::ConfigError(e)) && e@ == m,
            None => r is Ok,
        },
{
    match provider.validate() {
        Ok(()) => {},
        Err(e) => return Err(e),
    }
    // Must be large enough for DTLS record + handshake headers
    if settings.mtu < 64 {
        return Err(
            Error::ConfigError(
                "MTU ".to_owned().concat(text::decimal_string(settings.mtu).as_str()).concat(
                    " is too small (minimum 64)",
                ),
            ),
        );
    }
    if let Some(cid) = &settings.connection_id {
        if cid.len() > DTLS12_CID_MAX_LEN {
            return Err(
                Error::ConfigError(
                    "Connection ID length ".to_owned().concat(
                        text::decimal_string(cid.len()).as_str(),
                    ).concat(" exceeds maximum 255"),
                ),
            );
        }
        // A Connection ID is of RFC 9146 (DTLS 1.2): without a DTLS 1.2 suite the
        // handshake could only succeed as DTLS 1.3, where it means nothing.
        if !any_dtls12(settings, provider) {
            return Err(
                Error::ConfigError(
                    "Connection ID is configured (RFC 9146, DTLS 1.2) but no DTLS 1.2 cipher suite survives the filter. Either include a DTLS 1.2 suite in `dtls12_cipher_suites` or drop `with_connection_id`.".to_owned(),
                ),
            );
        }
    }
    if settings.aead_encryption_limit == 0 {
        return Err(Error::ConfigError("aead_encryption_limit must be at least 1".to_owned()));
    }
    let suites12 = usable_dtls12(settings, provider);
    let suites13 = usable_dtls13(settings, provider);
    if suites12.len() == 0 && suites13.len() == 0 {
        return Err(
            Error::ConfigError(
                "No cipher suites remain after filtering. At least one DTLS 1.2 or DTLS 1.3 cipher suite must be available.".to_owned(),
            ),
        );
    }
    // All PSK suites are of DTLS 1.2, so a DTLS 1.3 suite that is left is no fallback.
    if settings.psk.is_some() && !any_psk(&suites12) {
        return Err(
            Error::ConfigError(
                "PSK is configured but no PSK cipher suite remains after filtering DTLS 1.2 suites. Include at least one PSK suite in dtls12_cipher_suites.".to_owned(),
            ),
        );
    }
    let kx = usable_groups(settings, provider);
    if kx.len() == 0 {
        if any_needs_group(&suites12) {
            return Err(
                Error::ConfigError(
                    "DTLS 1.2 cipher suites are enabled but no compatible key exchange groups remain after filtering.".to_owned(),
                ),
            );
        }
        if suites13.len() > 0 {
            return Err(
                Error::ConfigError(
                    "DTLS 1.3 cipher suites are enabled but no key exchange groups remain after filtering.".to_owned(),
                ),
            );
        }
    }
    Ok(())
}

/// Settings that can be used keep all of this: an MTU of 64 bytes at least, a Connection
/// ID of 255 bytes at most, an AEAD encryption limit other than 0, some cipher suite, a
/// PSK suite where a PSK is configured, and some key exchange group where a suite that is
/// left negotiates one. With a Connection ID there is a DTLS 1.2 suite on the allow-list.
pub proof fn law_usable_settings(q: Request, p: Offer)
    requires
        rejection(q, p) is None,
    ensures
        p.defect is None,
        q.mtu >= 64,
        q.connection_id_len matches Some(n) ==> n <= 255,
        q.aead_encryption_limit >= 1,
        dtls12_suites(q, p.cipher_suites).len() + dtls13_suites(q, p.dtls13_cipher_suites).len() > 0,
        q.psk ==> exists|x: Dtls12CipherSuite|
            x.psk() && #[trigger] dtls12_suites(q, p.cipher_suites).contains(x),
        dtls13_suites(q, p.dtls13_cipher_suites).len() > 0 ==> groups(q, p.kx_groups).len() > 0,
        forall|x: Dtls12CipherSuite|
            x.ecdhe() && #[trigger] dtls12_suites(q, p.cipher_suites).contains(x) ==> groups(
                q,
                p.kx_groups,
            ).len() > 0,
        q.connection_id_len is Some ==> exists|x: Dtls12CipherSuite|
            #[trigger] p.cipher_suites.contains(x) && allowed(q.dtls12_cipher_suites, x),
{
    let suites12 = dtls12_suites(q, p.cipher_suites);
    if q.psk {
        let i = choose|i: int| 0 <= i < suites12.len() && (#[trigger] suites12[i]).psk();
        assert(suites12.contains(suites12[i]));
    }
    if groups(q, p.kx_groups).len() == 0 {
        assert forall|x: Dtls12CipherSuite| #[trigger] suites12.contains(x) implies !x.ecdhe() by {
            let i = choose|i: int| 0 <= i < suites12.len() && suites12[i] == x;
            assert(!suites12[i].ecdhe());
        }
    }
    if q.connection_id_len is Some {
        let i = choose|i: int|
            0 <= i < p.cipher_suites.len() && allowed(
                q.dtls12_cipher_suites,
                #[trigger] p.cipher_suites[i],
            );
        assert(p.cipher_suites.contains(p.cipher_suites[i]));
    }
}

/// A DTLS 1.2 suite is used exactly where the provider offers it, it is on the
/// allow-list, and a PSK is configured or it authenticates by certificate.
pub proof fn law_dtls12_suites(q: Request, offered: Seq<Dtls12CipherSuite>, x: Dtls12CipherSuite)
    ensures
        dtls12_suites(q, offered).contains(x) <==> offered.contains(x) && allowed(
            q.dtls12_cipher_suites,
            x,
        ) && (q.psk || !x.psk()),
{
    let keep = |x: Dtls12CipherSuite| allowed(q.dtls12_cipher_suites, x) && (q.psk || !x.psk());
    lemma_filter_members(offered, keep, x);
}

/// A DTLS 1.3 suite is used exactly where the provider offers it and it is on the
/// allow-list.
pub proof fn law_dtls13_suites(q: Request, offered: Seq<Dtls13CipherSuite>, x: Dtls13CipherSuite)
    ensures
        dtls13_suites(q, offered).contains(x) <==> offered.contains(x) && allowed(
            q.dtls13_cipher_suites,
            x,
        ),
{
    let keep = |x: Dtls13CipherSuite| allowed(q.dtls13_cipher_suites, x);
    lemma_filter_members(offered, keep, x);
}

/// What a filter keeps are the items that pass it.
proof fn lemma_filter_members<T>(s: Seq<T>, keep: spec_fn(T) -> bool, x: T)
    ensures
        s.filter(keep).contains(x) <==> s.contains(x) && keep(x),
    decreases s.len(),
{
    reveal(Seq::filter);
    if s.len() > 0 {
        let front = s.drop_last();
        lemma_filter_members(front, keep, x);
        let kept = front.filter(keep);
        assert(s.contains(x) <==> front.contains(x) || s.last() == x) by {
            if front.contains(x) {
                let i = choose|i: int| 0 <= i < front.len() && front[i] == x;
                assert(s[i] == x);
            }
            if s.contains(x) && s.last() != x {
                let i = choose|i: int| 0 <= i < s.len() && s[i] == x;
                assert(front[i] == x);
            }
            if s.last() == x {
                assert(s[s.len() - 1] == x);
            }
        }
        if keep(s.last()) {
            let more = kept.push(s.last());
            assert(s.filter(keep) == more);
            assert(more.contains(x) <==> kept.contains(x) || s.last() == x) by {
                if kept.contains(x) {
                    let i = choose|i: int| 0 <= i < kept.len() && kept[i] == x;
                    assert(more[i] == x);
                }
                if s.last() == x {
                    assert(more[kept.len() as int] == x);
                }
                if more.contains(x) && s.last() != x {
                    let i = choose|i: int| 0 <= i < more.len() && more[i] == x;
                    assert(kept[i] == x);
                }
            }
        }
    }
}

/// An empty allow-list disables its version, and an allow-list without a group that the
/// provider has leaves none.
pub proof fn law_empty_lists_disable(q: Request, p: Offer)
    ensures
        q.dtls12_cipher_suites == Some(Seq::<Dtls12CipherSuite>::empty()) ==> dtls12_suites(
            q,
            p.cipher_suites,
        ).len() == 0,
        q.dtls13_cipher_suites == Some(Seq::<Dtls13CipherSuite>::empty()) ==> dtls13_suites(
            q,
            p.dtls13_cipher_suites,
        ).len() == 0,
        q.kx_groups == Some(Seq::<NamedGroup>::empty()) ==> groups(q, p.kx_groups).len() == 0,
{
    if q.dtls12_cipher_suites == Some(Seq::<Dtls12CipherSuite>::empty()) {
        let s = dtls12_suites(q, p.cipher_suites);
        if s.len() > 0 {
            law_dtls12_suites(q, p.cipher_suites, s[0]);
            assert(s.contains(s[0]));
        }
    }
    if q.dtls13_cipher_suites == Some(Seq::<Dtls13CipherSuite>::empty()) {
        let s = dtls13_suites(q, p.dtls13_cipher_suites);
        if s.len() > 0 {
            law_dtls13_suites(q, p.dtls13_cipher_suites, s[0]);
            assert(s.contains(s[0]));
        }
    }
}

/// A group of an allow-list is used exactly where the provider offers it too, and as
/// often. A group that stands before another on the list is preferred to it.
pub proof fn law_group_preference(wanted: Seq<NamedGroup>, offered: Seq<NamedGroup>)
    ensures
        forall|x: NamedGroup| #[trigger]
            preferred(wanted, offered).contains(x) <==> wanted.contains(x) && offered.contains(x),
        forall|x: NamedGroup|
            wanted.contains(x) ==> #[trigger] mentions(preferred(wanted, offered), x) == mentions(
                offered,
                x,
            ),
        forall|i: int, j: int|
            0 <= i < j < preferred(wanted, offered).len() ==> first_index(
                wanted,
                #[trigger] preferred(wanted, offered)[i],
            ) <= first_index(wanted, #[trigger] preferred(wanted, offered)[j]),
    decreases wanted.len(),
{
    let all = preferred(wanted, offered);
    if wanted.len() > 0 {
        let front = wanted.drop_last();
        let last = wanted.last();
        law_group_preference(front, offered);
        let before = preferred(front, offered);
        assert forall|x: NamedGroup| #[trigger] wanted.contains(x) <==> front.contains(x) || last
            == x by {
            if front.contains(x) {
                let i = choose|i: int| 0 <= i < front.len() && front[i] == x;
                assert(wanted[i] == x);
            }
            if wanted.contains(x) && last != x {
                let i = choose|i: int| 0 <= i < wanted.len() && wanted[i] == x;
                assert(front[i] == x);
            }
            if last == x {
                assert(wanted[wanted.len() - 1] == x);
            }
        }
        assert forall|x: NamedGroup| front.contains(x) implies first_index(wanted, x)
            == #[trigger] first_index(front, x) && first_index(front, x) < front.len() by {
            lemma_first_index(front, x);
        }
        let more = if front.contains(last) {
            Seq::empty()
        } else {
            mentions(offered, last)
        };
        assert(all =~= before + more);
        assert forall|x: NamedGroup| #[trigger] more.contains(x) <==> x == last && offered.contains(
            x,
        ) && !front.contains(x) by {
            lemma_filter_members(offered, same(last), x);
        }
        assert forall|x: NamedGroup| #[trigger] all.contains(x) <==> wanted.contains(x)
            && offered.contains(x) by {
            lemma_in_either(before, more, x);
            assert(before.contains(x) <==> front.contains(x) && offered.contains(x));
        }
        assert forall|x: NamedGroup| wanted.contains(x) implies #[trigger] mentions(all, x)
            == mentions(offered, x) by {
            Seq::filter_distributes_over_add(before, more, same(x));
            assert(before.contains(x) <==> front.contains(x) && offered.contains(x));
            if front.contains(x) {
                assert(!more.contains(x));
                lemma_no_mention(more, x);
                assert(mentions(before, x) == mentions(offered, x));
            } else {
                lemma_no_mention(before, x);
                lemma_mentions_twice(offered, x);
            }
            assert(mentions(all, x) =~= mentions(offered, x));
        }
        assert forall|i: int, j: int| 0 <= i < j < all.len() implies first_index(
            wanted,
            #[trigger] all[i],
        ) <= first_index(wanted, #[trigger] all[j]) by {
            if i < before.len() {
                assert(before.contains(before[i]));
                assert(front.contains(before[i]));
                assert(first_index(front, before[i]) < front.len());
            } else {
                assert(more.contains(more[i - before.len()]));
            }
            if j < before.len() {
                assert(before.contains(before[j]));
                assert(front.contains(before[j]));
                assert(first_index(front, before[i]) <= first_index(front, before[j]));
            } else {
                assert(more.contains(more[j - before.len()]));
            }
        }
    }
}

/// What two lists hold together is what either holds.
proof fn lemma_in_either(a: Seq<NamedGroup>, b: Seq<NamedGroup>, x: NamedGroup)
    ensures
        (a + b).contains(x) <==> a.contains(x) || b.contains(x),
{
    if a.contains(x) {
        let i = choose|i: int| 0 <= i < a.len() && a[i] == x;
        assert((a + b)[i] == x);
    }
    if b.contains(x) {
        let i = choose|i: int| 0 <= i < b.len() && b[i] == x;
        assert((a + b)[a.len() + i] == x);
    }
    if (a + b).contains(x) {
        let i = choose|i: int| 0 <= i < (a + b).len() && (a + b)[i] == x;
        if i < a.len() {
            assert(a[i] == x);
        } else {
            assert(b[i - a.len()] == x);
        }
    }
}

/// A list without a group does not mention it.
proof fn lemma_no_mention(s: Seq<NamedGroup>, x: NamedGroup)
    requires
        !s.contains(x),
    ensures
        mentions(s, x) == Seq::<NamedGroup>::empty(),
{
    let found = mentions(s, x);
    if found.len() > 0 {
        lemma_filter_members(s, same(x), found[0]);
        assert(found.contains(found[0]));
    }
    assert(found =~= Seq::empty());
}

/// The mentions of a group mention only it.
proof fn lemma_mentions_twice(s: Seq<NamedGroup>, x: NamedGroup)
    ensures
        mentions(mentions(s, x), x) == mentions(s, x),
    decreases s.len(),
{
    reveal(Seq::filter);
    if s.len() > 0 {
        lemma_mentions_twice(s.drop_last(), x);
        if s.last() == x {
            assert(mentions(s, x).drop_last() =~= mentions(s.drop_last(), x));
        }
    }
}

/// Where `x` stands first in `s`; its length where `x` does not stand in it.
pub open spec fn first_index(s: Seq<NamedGroup>, x: NamedGroup) -> int
    decreases s.len(),
{
    if s.len() == 0 {
        0
    } else if s.drop_last().contains(x) {
        first_index(s.drop_last(), x)
    } else if s.last() == x {
        s.len() - 1
    } else {
        s.len() as int
    }
}

/// A group stands in the list at its first index, and not before it.
pub proof fn lemma_first_index(s: Seq<NamedGroup>, x: NamedGroup)
    requires
        s.contains(x),
    ensures
        0 <= first_index(s, x) < s.len(),
        s[first_index(s, x)] == x,
        forall|k: int| 0 <= k < s.len() && #[trigger] s[k] == x ==> first_index(s, x) <= k,
    decreases s.len(),
{
    let front = s.drop_last();
    if front.contains(x) {
        lemma_first_index(front, x);
    } else {
        let i = choose|i: int| 0 <= i < s.len() && s[i] == x;
        if i < s.len() - 1 {
            assert(front[i] == x);
        }
    }
    assert forall|k: int| 0 <= k < s.len() && #[trigger] s[k] == x implies first_index(s, x) <= k by {
        if k < s.len() - 1 {
            assert(front[k] == x);
        }
    }
}

} // verus!
