//! Configuration shared by all connections of an endpoint.

use std::sync::Arc;
use std::time::Duration;
use vstd::prelude::*;

use crate::config_rules as rules;
use crate::config_rules::Request;
use crate::crypto::provider::{default_provider, Offer};
use crate::crypto::{CryptoProvider, DTLS12_CID_MAX_LEN};
use crate::dtls12::message::Dtls12CipherSuite;
use crate::error::Error;
use crate::session::SessionStore;
use crate::shared::Shared;
use crate::types::{Dtls13CipherSuite, NamedGroup};

verus! {

/// The duration that `Duration::from_secs` makes of a number of seconds.
pub uninterp spec fn duration_of_secs(secs: u64) -> Duration;

/// `Duration::from_secs`: the duration of that many whole seconds, named
/// [`duration_of_secs`].
pub assume_specification[ Duration::from_secs ](secs: u64) -> (d: Duration)
    ensures
        d == duration_of_secs(secs),
;

/// Callback for resolving PSK identities to shared secrets.
///
/// Implement this trait and provide it via [`ConfigBuilder::with_psk_client`]
/// or [`ConfigBuilder::with_psk_server`] to enable PSK cipher suites.
pub trait PskResolver: Send + Sync {
    /// Look up a pre-shared key by the peer's identity.
    ///
    /// Returns the shared secret bytes, or `None` if the identity is unknown.
    fn resolve(&self, identity: &[u8]) -> Option<Vec<u8>>;
}

/// PSK configuration for a DTLS endpoint.
///
/// Use [`Psk::Client`] for endpoints that initiate PSK handshakes (send identity),
/// and [`Psk::Server`] for endpoints that resolve incoming identities.
///
/// `#[non_exhaustive]` so new variants (e.g. DTLS 1.3 external PSKs) or new
/// fields can be added without a major version bump.
#[non_exhaustive]
pub enum Psk {
    /// Client-side PSK: sends `identity` during handshake, uses `resolver`
    /// to look up the shared secret.
    #[non_exhaustive]
    Client {
        /// The identity to send to the server.
        identity: Vec<u8>,
        /// Resolver for looking up shared secrets.
        resolver: Shared<dyn PskResolver>,
    },
    /// Server-side PSK: optionally sends a `hint` to help the client choose
    /// an identity, uses `resolver` to look up secrets by client identity.
    #[non_exhaustive]
    Server {
        /// Optional hint sent to the client in ServerKeyExchange.
        hint: Option<Vec<u8>>,
        /// Resolver for looking up shared secrets.
        resolver: Shared<dyn PskResolver>,
    },
}

impl Psk {
    /// The same PSK configuration: same role, bytes and resolver.
    pub open spec fn same(&self, other: &Psk) -> bool {
        match (self, other) {
            (Psk::Client { identity: a, resolver: r }, Psk::Client { identity: b, resolver: q }) => {
                a@ == b@ && r.target() == q.target()
            },
            (Psk::Server { hint: a, resolver: r }, Psk::Server { hint: b, resolver: q }) => {
                rules::items_of(*a) == rules::items_of(*b) && r.target() == q.target()
            },
            _ => false,
        }
    }

    /// The resolver of either role.
    pub open spec fn handle(&self) -> Shared<dyn PskResolver> {
        match *self {
            Psk::Client { resolver, .. } => resolver,
            Psk::Server { resolver, .. } => resolver,
        }
    }
}

impl Clone for Psk {
    fn clone(&self) -> (r: Psk)
        ensures
            self.same(&r),
    {
        match self {
            Psk::Client { identity, resolver } => Psk::Client {
                identity: vstd::slice::slice_to_vec(identity.as_slice()),
                resolver: resolver.clone(),
            },
            Psk::Server { hint, resolver } => Psk::Server {
                hint: copy_option(hint),
                resolver: resolver.clone(),
            },
        }
    }
}

/// Copies an optional list of plain values.
fn copy_option<T: Copy>(v: &Option<Vec<T>>) -> (r: Option<Vec<T>>)
    ensures
        rules::items_of(r) == rules::items_of(*v),
{
    match v {
        Some(list) => Some(vstd::slice::slice_to_vec(list.as_slice())),
        None => None,
    }
}

/// The settings of an endpoint. See each setter of [`ConfigBuilder`] for what they
/// mean.
pub struct Settings {
    pub mtu: usize,
    pub max_queue_rx: usize,
    pub max_queue_tx: usize,
    pub require_client_certificate: bool,
    pub use_server_cookie: bool,
    pub flight_start_rto: Duration,
    pub flight_retries: usize,
    pub handshake_timeout: Duration,
    pub rng_seed: Option<u64>,
    pub aead_encryption_limit: u64,
    pub dtls12_cipher_suites: Option<Vec<Dtls12CipherSuite>>,
    pub dtls13_cipher_suites: Option<Vec<Dtls13CipherSuite>>,
    pub kx_groups: Option<Vec<NamedGroup>>,
    pub psk: Option<Psk>,
    pub connection_id: Option<Vec<u8>>,
    pub session_store: Option<Shared<dyn SessionStore>>,
    pub offered_session_id: Option<Vec<u8>>,
}

impl Settings {
    pub open spec fn request(&self) -> Request {
        Request {
            mtu: self.mtu as nat,
            connection_id_len: match self.connection_id {
                Some(c) => Some(c@.len()),
                None => None,
            },
            aead_encryption_limit: self.aead_encryption_limit as nat,
            dtls12_cipher_suites: rules::items_of(self.dtls12_cipher_suites),
            dtls13_cipher_suites: rules::items_of(self.dtls13_cipher_suites),
            kx_groups: rules::items_of(self.kx_groups),
            psk: self.psk is Some,
        }
    }
}

/// Copies settings, with equal lists and bytes and the same shared objects.
fn copy_settings(s: &Settings) -> (r: Settings)
    ensures
        same_settings(*s, r),
{
    Settings {
        mtu: s.mtu,
        max_queue_rx: s.max_queue_rx,
        max_queue_tx: s.max_queue_tx,
        require_client_certificate: s.require_client_certificate,
        use_server_cookie: s.use_server_cookie,
        flight_start_rto: s.flight_start_rto,
        flight_retries: s.flight_retries,
        handshake_timeout: s.handshake_timeout,
        rng_seed: s.rng_seed,
        aead_encryption_limit: s.aead_encryption_limit,
        dtls12_cipher_suites: copy_option(&s.dtls12_cipher_suites),
        dtls13_cipher_suites: copy_option(&s.dtls13_cipher_suites),
        kx_groups: copy_option(&s.kx_groups),
        psk: match &s.psk {
            Some(p) => Some(p.clone()),
            None => None,
        },
        connection_id: copy_option(&s.connection_id),
        session_store: match &s.session_store {
            Some(p) => Some(p.clone()),
            None => None,
        },
        offered_session_id: copy_option(&s.offered_session_id),
    }
}

/// The same settings: equal values, equal lists and bytes, the same shared objects.
pub open spec fn same_settings(a: Settings, b: Settings) -> bool {
    &&& b == (Settings {
        dtls12_cipher_suites: b.dtls12_cipher_suites,
        dtls13_cipher_suites: b.dtls13_cipher_suites,
        kx_groups: b.kx_groups,
        psk: b.psk,
        connection_id: b.connection_id,
        session_store: b.session_store,
        offered_session_id: b.offered_session_id,
        ..a
    })
    &&& rules::items_of(a.dtls12_cipher_suites) == rules::items_of(b.dtls12_cipher_suites)
    &&& rules::items_of(a.dtls13_cipher_suites) == rules::items_of(b.dtls13_cipher_suites)
    &&& rules::items_of(a.kx_groups) == rules::items_of(b.kx_groups)
    &&& match (a.psk, b.psk) {
        (Some(p), Some(q)) => p.same(&q),
        (None, None) => true,
        _ => false,
    }
    &&& rules::items_of(a.connection_id) == rules::items_of(b.connection_id)
    &&& match (a.session_store, b.session_store) {
        (Some(p), Some(q)) => p.target() == q.target(),
        (None, None) => true,
        _ => false,
    }
    &&& rules::items_of(a.offered_session_id) == rules::items_of(b.offered_session_id)
}

/// DTLS configuration shared by all connections.
///
/// Build with [`Config::builder()`] or use [`Config::default()`].
pub struct Config {
    settings: Settings,
    crypto_provider: CryptoProvider,
}

impl Config {
    /// The settings can be used with the provider.
    #[verifier::type_invariant]
    spec fn usable(self) -> bool {
        rules::rejection(self.settings.request(), self.crypto_provider@) is None
    }

    pub closed spec fn chosen(&self) -> Settings {
        self.settings
    }

    pub closed spec fn provider(&self) -> CryptoProvider {
        self.crypto_provider
    }

    /// Create a new configuration builder.
    pub fn builder() -> (b: ConfigBuilder)
        ensures
            b.chosen() == default_settings(),
            b.provider() is None,
            b.installed() is None,
    {
        ConfigBuilder {
            settings: Settings {
                mtu: 1150,
                max_queue_rx: 30,
                max_queue_tx: 10,
                require_client_certificate: true,
                use_server_cookie: true,
                flight_start_rto: Duration::from_secs(1),
                flight_retries: 4,
                handshake_timeout: Duration::from_secs(40),
                rng_seed: None,
                aead_encryption_limit: 0x80_0000,
                dtls12_cipher_suites: None,
                dtls13_cipher_suites: None,
                kx_groups: None,
                psk: None,
                connection_id: None,
                session_store: None,
                offered_session_id: None,
            },
            crypto_provider: None,
            installed_default: None,
        }
    }

    /// Max transmission unit (coalescing target for outbound datagrams).
    ///
    /// The implementation packs multiple DTLS records into a single
    /// outbound datagram up to this size, and sizes encrypted handshake
    /// fragments so each handshake record fits. Application-data writes
    /// that exceed one record's plaintext capacity
    /// (`DTLS12_MAX_PLAINTEXT_LEN = 2^14` bytes) are rejected with
    /// [`Error::Oversized`]. Handshake fragmentation returns
    /// [`Error::MtuTooSmall`] when the configured MTU cannot fit even a
    /// single record of the required overhead (record header, negotiated
    /// CID bytes, AEAD, handshake header).
    ///
    /// This is **not** a hard ceiling on every individual record: a
    /// single outbound application-data record may exceed MTU when the
    /// plaintext plus DTLS + AEAD + CID overhead is larger than MTU.
    pub fn mtu(&self) -> (r: usize)
        ensures
            r == self.chosen().mtu,
            r >= 64,
    {
        proof {
            use_type_invariant(self);
        }
        self.settings.mtu
    }

    /// Max amount of incoming packets to buffer before rejecting more input.
    pub fn max_queue_rx(&self) -> (r: usize)
        ensures
            r == self.chosen().max_queue_rx,
    {
        self.settings.max_queue_rx
    }

    /// Max amount of outgoing packets to buffer.
    pub fn max_queue_tx(&self) -> (r: usize)
        ensures
            r == self.chosen().max_queue_tx,
    {
        self.settings.max_queue_tx
    }

    /// For a server, require a client certificate.
    ///
    /// This will cause the server to send a CertificateRequest message.
    /// Makes the server fail if the client does not send a certificate.
    ///
    /// Applies only to certificate-authenticated cipher suites. For RFC 4279
    /// PSK suites the client never sends a certificate, so this flag has no
    /// effect on a negotiated PSK handshake.
    pub fn require_client_certificate(&self) -> (r: bool)
        ensures
            r == self.chosen().require_client_certificate,
    {
        self.settings.require_client_certificate
    }

    /// Whether the server sends a cookie exchange before the handshake.
    ///
    /// When true (the default), the server requires a stateless cookie
    /// roundtrip for DoS protection: HelloVerifyRequest in DTLS 1.2,
    /// HelloRetryRequest with a cookie in DTLS 1.3.
    ///
    /// When false, the server proceeds directly to ServerHello without
    /// a cookie exchange.
    pub fn use_server_cookie(&self) -> (r: bool)
        ensures
            r == self.chosen().use_server_cookie,
    {
        self.settings.use_server_cookie
    }

    /// Time of first retry.
    ///
    /// Every flight restarts with this value.
    /// Doubled for every retry with a ±25% jitter.
    pub fn flight_start_rto(&self) -> (r: Duration)
        ensures
            r == self.chosen().flight_start_rto,
    {
        self.settings.flight_start_rto
    }

    /// Max number of retries per flight.
    pub fn flight_retries(&self) -> (r: usize)
        ensures
            r == self.chosen().flight_retries,
    {
        self.settings.flight_retries
    }

    /// Timeout for the entire handshake, regardless of flights.
    pub fn handshake_timeout(&self) -> (r: Duration)
        ensures
            r == self.chosen().handshake_timeout,
    {
        self.settings.handshake_timeout
    }

    /// Cryptographic provider.
    ///
    /// Provides all cryptographic operations (ciphers, key exchange, signing, etc.).
    pub fn crypto_provider(&self) -> (r: &CryptoProvider)
        ensures
            *r == self.provider(),
            r@.defect is None,
    {
        proof {
            use_type_invariant(self);
        }
        &self.crypto_provider
    }

    /// Optional seed for deterministic random number generation.
    ///
    /// When set, most non-cryptographic randomness (backoff jitter, TLS random bytes,
    /// AEAD nonces, cookie secrets) will be deterministic based on this seed.
    /// This is useful for testing and reproducibility.
    ///
    /// Note: Cryptographic operations (key exchange, signatures) always use
    /// secure system randomness regardless of this setting.
    pub fn rng_seed(&self) -> (r: Option<u64>)
        ensures
            r == self.chosen().rng_seed,
    {
        self.settings.rng_seed
    }

    /// Maximum number of AEAD encryptions before triggering a KeyUpdate.
    ///
    /// When the number of application-epoch ciphertext records reaches this
    /// limit, the endpoint automatically initiates a KeyUpdate to rotate keys.
    /// Defaults to 2^23 (8,388,608).
    pub fn aead_encryption_limit(&self) -> (r: u64)
        ensures
            r == self.chosen().aead_encryption_limit,
            r >= 1,
    {
        proof {
            use_type_invariant(self);
        }
        self.settings.aead_encryption_limit
    }

    /// PSK configuration, if any.
    pub fn psk(&self) -> (r: Option<&Psk>)
        ensures
            match self.chosen().psk {
                Some(p) => r == Some(&p),
                None => r is None,
            },
    {
        self.settings.psk.as_ref()
    }

    /// PSK identity for the client to send during handshake.
    pub fn psk_identity(&self) -> (r: Option<&[u8]>)
        ensures
            match self.chosen().psk {
                Some(Psk::Client { identity, .. }) => r matches Some(s) && s@ == identity@,
                _ => r is None,
            },
    {
        match &self.settings.psk {
            Some(Psk::Client { identity, .. }) => Some(identity.as_slice()),
            _ => None,
        }
    }

    /// PSK identity hint for the server to send during handshake.
    pub fn psk_identity_hint(&self) -> (r: Option<&[u8]>)
        ensures
            match self.chosen().psk {
                Some(Psk::Server { hint: Some(h), .. }) => r matches Some(s) && s@ == h@,
                _ => r is None,
            },
    {
        match &self.settings.psk {
            Some(Psk::Server { hint, .. }) => match hint {
                Some(h) => Some(h.as_slice()),
                None => None,
            },
            _ => None,
        }
    }

    /// PSK resolver for looking up shared secrets by identity.
    pub fn psk_resolver(&self) -> (r: Option<&dyn PskResolver>)
        ensures
            match self.chosen().psk {
                Some(p) => r matches Some(x) && x == p.handle().target(),
                None => r is None,
            },
    {
        let resolver = match &self.settings.psk {
            Some(Psk::Client { resolver, .. }) => resolver,
            Some(Psk::Server { resolver, .. }) => resolver,
            None => return None,
        };
        let target = resolver.get();
        let some = Some(target);
        some
    }

    /// Connection ID to advertise to the peer (RFC 9146, DTLS 1.2 only).
    ///
    /// When set on a DTLS 1.2 or DTLS 1.2 PSK association, the endpoint
    /// offers CID negotiation during the handshake and the peer includes
    /// this CID in encrypted records it sends to us, allowing
    /// demultiplexing by CID instead of the UDP 5-tuple.
    ///
    /// An empty slice is valid — per RFC 9146 §3 it negotiates the
    /// extension but leaves that direction on legacy RFC 6347 framing.
    pub fn connection_id(&self) -> (r: Option<&[u8]>)
        ensures
            match self.chosen().connection_id {
                Some(c) => r matches Some(s) && s@ == c@ && s@.len() <= DTLS12_CID_MAX_LEN,
                None => r is None,
            },
    {
        proof {
            use_type_invariant(self);
        }
        match &self.settings.connection_id {
            Some(c) => Some(c.as_slice()),
            None => None,
        }
    }

    /// Store of the sessions that can be resumed, if any.
    pub fn session_store(&self) -> (r: Option<&dyn SessionStore>)
        ensures
            match self.chosen().session_store {
                Some(p) => r matches Some(x) && x == p.target(),
                None => r is None,
            },
    {
        let store = match &self.settings.session_store {
            Some(store) => store.get(),
            None => return None,
        };
        let some = Some(store);
        some
    }

    /// Session ID for the client to offer, if any.
    pub fn offered_session_id(&self) -> (r: Option<&[u8]>)
        ensures
            match self.chosen().offered_session_id {
                Some(id) => r matches Some(s) && s@ == id@,
                None => r is None,
            },
    {
        match &self.settings.offered_session_id {
            Some(id) => Some(id.as_slice()),
            None => None,
        }
    }

    /// Allowed DTLS 1.2 cipher suites, filtered by the config's allow-list.
    ///
    /// Returns all provider-supported DTLS 1.2 cipher suites when no filter
    /// is set. When a filter is set via the builder's `dtls12_cipher_suites`
    /// method, only suites in both the provider and the filter are returned.
    ///
    /// PSK cipher suites are excluded when no [`PskResolver`] is configured,
    /// preventing a certificate-mode endpoint from negotiating a PSK suite
    /// and inadvertently skipping certificate authentication.
    pub fn dtls12_cipher_suites(&self) -> (v: Vec<Dtls12CipherSuite>)
        ensures
            v@ == rules::dtls12_suites(self.chosen().request(), self.provider()@.cipher_suites),
    {
        rules::usable_dtls12(&self.settings, &self.crypto_provider)
    }

    /// Allowed DTLS 1.3 cipher suites, filtered by the config's allow-list.
    ///
    /// Returns all provider DTLS 1.3 cipher suites when no filter is set.
    /// When a filter is set via the builder's `dtls13_cipher_suites` method,
    /// only suites in both the provider and the filter are returned.
    pub fn dtls13_cipher_suites(&self) -> (v: Vec<Dtls13CipherSuite>)
        ensures
            v@ == rules::dtls13_suites(self.chosen().request(), self.provider()@.dtls13_cipher_suites),
    {
        rules::usable_dtls13(&self.settings, &self.crypto_provider)
    }

    /// Allowed key exchange groups, filtered by the config's allow-list.
    ///
    /// Returns all provider-supported key exchange groups when no filter
    /// is set. When a filter is set via the builder's `kx_groups` method,
    /// only groups in both the provider and the filter are returned, the
    /// most preferred first.
    pub fn kx_groups(&self) -> (v: Vec<NamedGroup>)
        ensures
            v@ == rules::groups(self.chosen().request(), self.provider()@.kx_groups),
    {
        rules::usable_groups(&self.settings, &self.crypto_provider)
    }

    /// All settings of the configuration.
    pub fn settings(&self) -> (r: &Settings)
        ensures
            *r == self.chosen(),
    {
        &self.settings
    }
}

/// The settings that a builder starts with.
pub open spec fn default_settings() -> Settings {
    Settings {
        mtu: 1150,
        max_queue_rx: 30,
        max_queue_tx: 10,
        require_client_certificate: true,
        use_server_cookie: true,
        flight_start_rto: duration_of_secs(1),
        flight_retries: 4,
        handshake_timeout: duration_of_secs(40),
        rng_seed: None,
        aead_encryption_limit: 0x80_0000,
        dtls12_cipher_suites: None,
        dtls13_cipher_suites: None,
        kx_groups: None,
        psk: None,
        connection_id: None,
        session_store: None,
        offered_session_id: None,
    }
}

impl Clone for Config {
    fn clone(&self) -> (r: Config)
        ensures
            same_settings(self.chosen(), r.chosen()),
            r.provider()@ == self.provider()@,
    {
        proof {
            use_type_invariant(self);
        }
        let settings = copy_settings(&self.settings);
        let crypto_provider = self.crypto_provider.clone();
        assert(settings.request() =~= self.settings.request());
        Config { settings, crypto_provider }
    }
}

/// Builder for [`Config`]. See each setter for defaults.
pub struct ConfigBuilder {
    settings: Settings,
    crypto_provider: Option<CryptoProvider>,
    installed_default: Option<CryptoProvider>,
}

/// What [`ConfigBuilder::build`] makes of settings and a provider.
pub open spec fn built(s: Settings, p: Offer, r: Result<Config, Error>) -> bool {
    match rules::rejection(s.request(), p) {
        Some(m) => r matches Err(Error::ConfigError(e)) && e@ == m,
        None => r matches Ok(c) && c.chosen() == s && c.provider()@ == p,
    }
}

impl ConfigBuilder {
    pub closed spec fn chosen(&self) -> Settings {
        self.settings
    }

    /// The provider that was set explicitly.
    pub closed spec fn provider(&self) -> Option<CryptoProvider> {
        self.crypto_provider
    }

    /// The default provider of the process, as far as the builder was told of it.
    pub closed spec fn installed(&self) -> Option<CryptoProvider> {
        self.installed_default
    }

    /// What is offered by the provider that is used: the explicit one, else the
    /// installed default, else the built-in one.
    pub open spec fn offer(&self) -> Offer {
        match self.provider() {
            Some(p) => p@,
            None => match self.installed() {
                Some(p) => p@,
                None => crate::crypto::provider::built_in(),
            },
        }
    }

    /// Set the max transmission unit (MTU).
    ///
    /// This is a **coalescing target** for outbound datagrams, not a hard
    /// per-record ceiling — see [`Config::mtu`].
    ///
    /// Defaults to 1150.
    pub fn mtu(self, mtu: usize) -> (r: ConfigBuilder)
        ensures
            r.chosen() == (Settings { mtu: mtu, ..self.chosen() }),
            r.provider() == self.provider(),
            r.installed() == self.installed(),
    {
        let mut r = self;
        r.settings.mtu = mtu;
        r
    }

    /// Set the max amount of incoming packets to buffer before rejecting more input.
    ///
    /// Defaults to 30.
    pub fn max_queue_rx(self, max_queue_rx: usize) -> (r: ConfigBuilder)
        ensures
            r.chosen() == (Settings { max_queue_rx: max_queue_rx, ..self.chosen() }),
            r.provider() == self.provider(),
            r.installed() == self.installed(),
    {
        let mut r = self;
        r.settings.max_queue_rx = max_queue_rx;
        r
    }

    /// Set the max amount of outgoing packets to buffer.
    ///
    /// Defaults to 10.
    pub fn max_queue_tx(self, max_queue_tx: usize) -> (r: ConfigBuilder)
        ensures
            r.chosen() == (Settings { max_queue_tx: max_queue_tx, ..self.chosen() }),
            r.provider() == self.provider(),
            r.installed() == self.installed(),
    {
        let mut r = self;
        r.settings.max_queue_tx = max_queue_tx;
        r
    }

    /// Set whether to require a client certificate (for servers).
    ///
    /// This will cause the server to send a CertificateRequest message.
    /// Makes the server fail if the client does not send a certificate.
    /// Defaults to true.
    ///
    /// Applies only to certificate-authenticated cipher suites. For RFC 4279
    /// PSK suites the client never sends a certificate, so this flag has no
    /// effect on a negotiated PSK handshake; no opt-out is required when
    /// combining this builder with [`with_psk_server`](Self::with_psk_server).
    pub fn require_client_certificate(self, require: bool) -> (r: ConfigBuilder)
        ensures
            r.chosen() == (Settings { require_client_certificate: require, ..self.chosen() }),
            r.provider() == self.provider(),
            r.installed() == self.installed(),
    {
        let mut r = self;
        r.settings.require_client_certificate = require;
        r
    }

    /// Set whether the server sends a cookie exchange before the handshake.
    ///
    /// When true (the default), the server requires a stateless cookie
    /// roundtrip for DoS protection: HelloVerifyRequest in DTLS 1.2,
    /// HelloRetryRequest with a cookie in DTLS 1.3.
    ///
    /// When false, the server proceeds directly to ServerHello without
    /// a cookie exchange.
    pub fn use_server_cookie(self, use_cookie: bool) -> (r: ConfigBuilder)
        ensures
            r.chosen() == (Settings { use_server_cookie: use_cookie, ..self.chosen() }),
            r.provider() == self.provider(),
            r.installed() == self.installed(),
    {
        let mut r = self;
        r.settings.use_server_cookie = use_cookie;
        r
    }

    /// Set the time of first retry.
    ///
    /// Every flight restarts with this value.
    /// Doubled for every retry with a ±25% jitter.
    /// Defaults to 1 second.
    pub fn flight_start_rto(self, rto: Duration) -> (r: ConfigBuilder)
        ensures
            r.chosen() == (Settings { flight_start_rto: rto, ..self.chosen() }),
            r.provider() == self.provider(),
            r.installed() == self.installed(),
    {
        let mut r = self;
        r.settings.flight_start_rto = rto;
        r
    }

    /// Set the max number of retries per flight.
    ///
    /// Defaults to 4.
    pub fn flight_retries(self, retries: usize) -> (r: ConfigBuilder)
        ensures
            r.chosen() == (Settings { flight_retries: retries, ..self.chosen() }),
            r.provider() == self.provider(),
            r.installed() == self.installed(),
    {
        let mut r = self;
        r.settings.flight_retries = retries;
        r
    }

    /// Set the timeout for the entire handshake, regardless of flights.
    ///
    /// Defaults to 40 seconds.
    pub fn handshake_timeout(self, timeout: Duration) -> (r: ConfigBuilder)
        ensures
            r.chosen() == (Settings { handshake_timeout: timeout, ..self.chosen() }),
            r.provider() == self.provider(),
            r.installed() == self.installed(),
    {
        let mut r = self;
        r.settings.handshake_timeout = timeout;
        r
    }

    /// Set a custom crypto provider.
    ///
    /// If not set, the installed default provider will be used or, where there is none,
    /// the built-in one.
    pub fn with_crypto_provider(self, provider: CryptoProvider) -> (r: ConfigBuilder)
        ensures
            r.chosen() == self.chosen(),
            r.provider() == Some(provider),
            r.installed() == self.installed(),
    {
        let mut r = self;
        r.crypto_provider = Some(provider);
        r
    }

    /// Tell the builder which default provider the process has installed, if any.
    ///
    /// It is used where no provider is set explicitly.
    pub fn with_installed_default(self, installed: Option<CryptoProvider>) -> (r: ConfigBuilder)
        ensures
            r.chosen() == self.chosen(),
            r.provider() == self.provider(),
            r.installed() == installed,
    {
        let mut r = self;
        r.installed_default = installed;
        r
    }

    /// Set a seed for deterministic random number generation.
    ///
    /// When set, most non-cryptographic randomness (backoff jitter, TLS random bytes,
    /// AEAD nonces, cookie secrets) will be deterministic based on this seed.
    ///
    /// This is useful for testing and reproducibility.
    ///
    /// Note: Cryptographic operations (key exchange, signatures) always use
    /// secure system randomness regardless of this setting.
    pub fn dangerously_set_rng_seed(self, seed: u64) -> (r: ConfigBuilder)
        ensures
            r.chosen() == (Settings { rng_seed: Some(seed), ..self.chosen() }),
            r.provider() == self.provider(),
            r.installed() == self.installed(),
    {
        let mut r = self;
        r.settings.rng_seed = Some(seed);
        r
    }

    /// Set the maximum number of AEAD encryptions before triggering a KeyUpdate.
    ///
    /// Defaults to 2^23 (8,388,608).
    pub fn aead_encryption_limit(self, limit: u64) -> (r: ConfigBuilder)
        ensures
            r.chosen() == (Settings { aead_encryption_limit: limit, ..self.chosen() }),
            r.provider() == self.provider(),
            r.installed() == self.installed(),
    {
        let mut r = self;
        r.settings.aead_encryption_limit = limit;
        r
    }

    /// Restrict which DTLS 1.2 cipher suites are offered and accepted.
    ///
    /// Only cipher suites present in both this list and the provider will
    /// be used. Passing an empty slice disables DTLS 1.2 (as long as
    /// DTLS 1.3 suites remain).
    ///
    /// By default all provider-supported DTLS 1.2 cipher suites are used.
    pub fn dtls12_cipher_suites(self, suites: &[Dtls12CipherSuite]) -> (r: ConfigBuilder)
        ensures
            r.chosen() == (Settings { dtls12_cipher_suites: r.chosen().dtls12_cipher_suites, ..self.chosen() }),
            rules::items_of(r.chosen().dtls12_cipher_suites) == Some(suites@),
            r.provider() == self.provider(),
            r.installed() == self.installed(),
    {
        let mut r = self;
        r.settings.dtls12_cipher_suites = Some(vstd::slice::slice_to_vec(suites));
        r
    }

    /// Restrict which DTLS 1.3 cipher suites are offered and accepted.
    ///
    /// Only cipher suites present in both this list and the provider will
    /// be used. Passing an empty slice disables DTLS 1.3 (as long as
    /// DTLS 1.2 suites remain).
    ///
    /// By default all provider DTLS 1.3 cipher suites are used.
    pub fn dtls13_cipher_suites(self, suites: &[Dtls13CipherSuite]) -> (r: ConfigBuilder)
        ensures
            r.chosen() == (Settings { dtls13_cipher_suites: r.chosen().dtls13_cipher_suites, ..self.chosen() }),
            rules::items_of(r.chosen().dtls13_cipher_suites) == Some(suites@),
            r.provider() == self.provider(),
            r.installed() == self.installed(),
    {
        let mut r = self;
        r.settings.dtls13_cipher_suites = Some(vstd::slice::slice_to_vec(suites));
        r
    }

    /// Restrict which key exchange groups are offered and accepted.
    ///
    /// Only groups present in both this list and the provider will be
    /// used. Order determines preference (first = most preferred).
    ///
    /// By default all provider-supported key exchange groups are used.
    pub fn kx_groups(self, groups: &[NamedGroup]) -> (r: ConfigBuilder)
        ensures
            r.chosen() == (Settings { kx_groups: r.chosen().kx_groups, ..self.chosen() }),
            rules::items_of(r.chosen().kx_groups) == Some(groups@),
            r.provider() == self.provider(),
            r.installed() == self.installed(),
    {
        let mut r = self;
        r.settings.kx_groups = Some(vstd::slice::slice_to_vec(groups));
        r
    }

    /// Configure PSK for a client endpoint.
    ///
    /// The `identity` is sent to the server during the handshake.
    /// The `resolver` looks up the shared secret by identity.
    pub fn with_psk_client(self, identity: Vec<u8>, resolver: Arc<dyn PskResolver>) -> (r:
        ConfigBuilder)
        ensures
            r.chosen() == (Settings { psk: r.chosen().psk, ..self.chosen() }),
            r.chosen().psk matches Some(Psk::Client { identity: i, resolver: s }) && i == identity
                && s.target() == resolver,
            r.provider() == self.provider(),
            r.installed() == self.installed(),
    {
        let resolver = Shared::new(resolver);
        let mut r = self;
        r.settings.psk = Some(Psk::Client { identity, resolver });
        r
    }

    /// Configure PSK for a server endpoint.
    ///
    /// The optional `hint` is sent to the client in ServerKeyExchange.
    /// The `resolver` looks up the shared secret by client identity.
    pub fn with_psk_server(self, hint: Option<Vec<u8>>, resolver: Arc<dyn PskResolver>) -> (r:
        ConfigBuilder)
        ensures
            r.chosen() == (Settings { psk: r.chosen().psk, ..self.chosen() }),
            r.chosen().psk matches Some(Psk::Server { hint: h, resolver: s }) && h == hint
                && s.target() == resolver,
            r.provider() == self.provider(),
            r.installed() == self.installed(),
    {
        let resolver = Shared::new(resolver);
        let mut r = self;
        r.settings.psk = Some(Psk::Server { hint, resolver });
        r
    }

    /// Set the Connection ID (CID) to advertise to the peer (RFC 9146).
    ///
    /// The peer includes this CID in encrypted records it sends to us, so
    /// roaming peers stay addressable across 5-tuple changes. CID must be
    /// at most 255 bytes.
    ///
    /// Per RFC 9146 §3, an **empty** CID (`Vec::new()`) negotiates the
    /// extension but leaves this direction on legacy RFC 6347 framing; a
    /// non-empty value engages `tls12_cid` framing for records sent to us.
    /// The per-direction choice is independent: the peer may choose the
    /// opposite framing for records we send to it.
    ///
    /// ## Privacy (RFC 9146 §8)
    ///
    /// CIDs are observable on the wire and are not rotated within a session.
    /// Prefer a freshly generated, unpredictable CID per association (e.g.
    /// 8 random bytes from a CSPRNG).
    pub fn with_connection_id(self, cid: Vec<u8>) -> (r: ConfigBuilder)
        ensures
            r.chosen() == (Settings { connection_id: Some(cid), ..self.chosen() }),
            r.provider() == self.provider(),
            r.installed() == self.installed(),
    {
        let mut r = self;
        r.settings.connection_id = Some(cid);
        r
    }

    /// Set the store of the sessions that can be resumed.
    pub fn with_session_store(self, store: Arc<dyn SessionStore>) -> (r: ConfigBuilder)
        ensures
            r.chosen() == (Settings { session_store: r.chosen().session_store, ..self.chosen() }),
            r.chosen().session_store matches Some(s) && s.target() == store,
            r.provider() == self.provider(),
            r.installed() == self.installed(),
    {
        let store = Shared::new(store);
        let mut r = self;
        r.settings.session_store = Some(store);
        r
    }

    /// Set the session ID that the client offers for resumption.
    pub fn with_offered_session_id(self, id: Vec<u8>) -> (r: ConfigBuilder)
        ensures
            r.chosen() == (Settings { offered_session_id: Some(id), ..self.chosen() }),
            r.provider() == self.provider(),
            r.installed() == self.installed(),
    {
        let mut r = self;
        r.settings.offered_session_id = Some(id);
        r
    }

    /// All settings chosen so far.
    pub fn settings(&self) -> (r: &Settings)
        ensures
            *r == self.chosen(),
    {
        &self.settings
    }

    /// The provider set explicitly, if any.
    pub fn crypto_provider(&self) -> (r: Option<&CryptoProvider>)
        ensures
            match self.provider() {
                Some(p) => r == Some(&p),
                None => r is None,
            },
    {
        self.crypto_provider.as_ref()
    }

    /// Build the configuration.
    ///
    /// This validates the crypto provider before returning the configuration.
    /// Returns `Error::ConfigError` if the provider is invalid.
    ///
    /// The crypto provider is selected in the following priority order:
    /// 1. Explicit provider set via `with_crypto_provider()`
    /// 2. The installed default provider, see `with_installed_default()`
    /// 3. The built-in provider
    pub fn build(self) -> (r: Result<Config, Error>)
        ensures
            built(self.chosen(), self.offer(), r),
    {
        let crypto_provider = match self.crypto_provider {
            Some(p) => p,
            None => match self.installed_default {
                Some(p) => p,
                None => default_provider(),
            },
        };
        match rules::check(&self.settings, &crypto_provider) {
            Ok(()) => Ok(Config { settings: self.settings, crypto_provider }),
            Err(e) => Err(e),
        }
    }
}

/// The settings of a new builder can be used with the built-in provider.
pub proof fn law_default_is_usable()
    ensures
        rules::rejection(default_settings().request(), crate::crypto::provider::built_in()) is None,
{
    let q = default_settings().request();
    let p = crate::crypto::provider::built_in();
    let keep = |x: Dtls13CipherSuite| rules::allowed(q.dtls13_cipher_suites, x);
    p.dtls13_cipher_suites.lemma_filter_contains(keep, 0);
    assert(p.kx_groups.len() == 3);
}

impl Default for Config {
    /// The settings of a new builder, with the built-in provider: nothing tells of an
    /// installed default here.
    fn default() -> (r: Config)
        ensures
            r.chosen() == default_settings(),
            r.provider()@ == crate::crypto::provider::built_in(),
    {
        proof {
            law_default_is_usable();
        }
        Config::builder().build().expect("Default config should always validate")
    }
}

} // verus!
