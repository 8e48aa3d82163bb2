use dimpl::crypto::provider::default_provider;
use dimpl::crypto::Dtls12CipherSuite;
use dimpl::{Config, CryptoProvider, Dtls13CipherSuite, Error, NamedGroup, Psk, PskResolver};
use std::sync::Arc;
use std::time::Duration;


#[test]
fn rejects_zero_mtu() {
    match Config::builder().mtu(0).build() {
        Err(Error::ConfigError(msg)) => {
            assert!(msg.contains("MTU"), "error should mention MTU: {msg}")
        }
        Err(other) => panic!("expected ConfigError, got: {other:?}"),
        Ok(_) => panic!("expected error for MTU=0"),
    }
}

#[test]
fn rejects_small_mtu() {
    match Config::builder().mtu(32).build() {
        Err(Error::ConfigError(msg)) => {
            assert!(msg.contains("MTU"), "error should mention MTU: {msg}")
        }
        Err(other) => panic!("expected ConfigError, got: {other:?}"),
        Ok(_) => panic!("expected error for MTU=32"),
    }
}

#[test]
fn accepts_minimum_mtu() {
    Config::builder()
        .mtu(64)
        .build()
        .expect("MTU 64 should be accepted");
}

#[test]
fn rejects_zero_aead_limit() {
    match Config::builder().aead_encryption_limit(0).build() {
        Err(Error::ConfigError(msg)) => assert!(
            msg.contains("aead_encryption_limit"),
            "error should mention aead_encryption_limit: {msg}"
        ),
        Err(other) => panic!("expected ConfigError, got: {other:?}"),
        Ok(_) => panic!("expected error for aead_encryption_limit=0"),
    }
}

#[test]
fn accepts_minimum_aead_limit() {
    Config::builder()
        .aead_encryption_limit(1)
        .build()
        .expect("aead_encryption_limit 1 should be accepted");
}

#[test]
fn filter_dtls12_cipher_suite() {
    let config = Config::builder()
        .dtls12_cipher_suites(&[Dtls12CipherSuite::ECDHE_ECDSA_AES128_GCM_SHA256])
        .build()
        .expect("should accept single DTLS 1.2 suite");
    let suites = config.dtls12_cipher_suites();
    assert_eq!(suites, &[Dtls12CipherSuite::ECDHE_ECDSA_AES128_GCM_SHA256]);
}

#[test]
fn filter_dtls13_cipher_suite() {
    let config = Config::builder()
        .dtls13_cipher_suites(&[Dtls13CipherSuite::AES_256_GCM_SHA384])
        .build()
        .expect("should accept single DTLS 1.3 suite");
    let suites = config.dtls13_cipher_suites();
    assert_eq!(suites, &[Dtls13CipherSuite::AES_256_GCM_SHA384]);
}

#[test]
fn filter_kx_groups() {
    let config = Config::builder()
        .kx_groups(&[NamedGroup::Secp256r1])
        .build()
        .expect("should accept single kx group");
    let groups = config.kx_groups();
    assert_eq!(groups, &[NamedGroup::Secp256r1]);
}

#[test]
fn empty_dtls12_filter_disables_version() {
    let config = Config::builder()
        .dtls12_cipher_suites(&[])
        .build()
        .expect("should accept empty DTLS 1.2 when 1.3 has suites");
    assert_eq!(config.dtls12_cipher_suites().len(), 0);
    assert!(config.dtls13_cipher_suites().len() > 0);
}

#[test]
fn empty_dtls13_filter_disables_version() {
    let config = Config::builder()
        .dtls13_cipher_suites(&[])
        .build()
        .expect("should accept empty DTLS 1.3 when 1.2 has suites");
    assert!(config.dtls12_cipher_suites().len() > 0);
    assert_eq!(config.dtls13_cipher_suites().len(), 0);
}

#[test]
fn both_empty_filters_rejected() {
    match Config::builder()
        .dtls12_cipher_suites(&[])
        .dtls13_cipher_suites(&[])
        .build()
    {
        Err(Error::ConfigError(msg)) => {
            assert!(
                msg.contains("No cipher suites"),
                "error should mention cipher suites: {msg}"
            )
        }
        Err(other) => panic!("expected ConfigError, got: {other:?}"),
        Ok(_) => panic!("expected error when both versions are empty"),
    }
}

#[test]
fn empty_kx_groups_filter_rejected() {
    match Config::builder().kx_groups(&[]).build() {
        Err(Error::ConfigError(msg)) => {
            assert!(
                msg.contains("key exchange"),
                "error should mention key exchange: {msg}"
            )
        }
        Err(other) => panic!("expected ConfigError, got: {other:?}"),
        Ok(_) => panic!("expected error for empty kx groups"),
    }
}

#[test]
fn x25519_only_accepted_for_dtls12() {
    // X25519 is supported for DTLS 1.2 and should be accepted.
    let config = Config::builder()
        .dtls13_cipher_suites(&[])
        .kx_groups(&[NamedGroup::X25519])
        .build()
        .expect("X25519-only should be accepted for DTLS 1.2");
    let groups = config.kx_groups();
    assert_eq!(groups, &[NamedGroup::X25519]);
}

#[test]
fn x25519_only_accepted_for_dtls13_only() {
    // X25519-only is fine when DTLS 1.2 is disabled.
    let config = Config::builder()
        .dtls12_cipher_suites(&[])
        .kx_groups(&[NamedGroup::X25519])
        .build()
        .expect("X25519-only should be accepted for DTLS 1.3-only config");
    let groups = config.kx_groups();
    assert_eq!(groups, &[NamedGroup::X25519]);
}

#[test]
fn kx_groups_match_provider_when_unfiltered() {
    let config = Config::default();
    let from_config = config.kx_groups();
    let from_provider = config.crypto_provider().supported_kx_groups();
    assert_eq!(from_config, from_provider);
}

#[test]
fn no_filter_returns_all() {
    let config = Config::default();
    // Default provider should have at least 2 DTLS 1.2 and 2 DTLS 1.3 suites
    // (PSK suites are excluded without a resolver, so only non-PSK count)
    assert!(config.dtls12_cipher_suites().len() >= 2);
    assert!(config.dtls13_cipher_suites().len() >= 2);
    assert!(config.kx_groups().len() >= 2);
}

#[test]
fn psk_suites_excluded_without_resolver() {
    let config = Config::default();
    assert!(
        config.dtls12_cipher_suites().iter().all(|cs| !cs.is_psk()),
        "PSK suites should be excluded when no PskResolver is configured"
    );
}

#[test]
fn psk_suites_included_with_resolver() {
    struct DummyResolver;
    impl PskResolver for DummyResolver {
        fn resolve(&self, _identity: &[u8]) -> Option<Vec<u8>> {
            None
        }
    }

    let config = Config::builder()
        .with_psk_server(None, Arc::new(DummyResolver))
        .build()
        .expect("config with PSK resolver should build");
    assert!(
        config.dtls12_cipher_suites().iter().any(|cs| cs.is_psk()),
        "PSK suites should be included when a PskResolver is configured"
    );
}

#[test]
fn psk_config_with_only_non_psk_dtls12_filter_rejected() {
    struct DummyResolver;
    impl PskResolver for DummyResolver {
        fn resolve(&self, _identity: &[u8]) -> Option<Vec<u8>> {
            Some(b"key".to_vec())
        }
    }

    // PSK config but the user filtered DTLS 1.2 down to a cert-only suite
    // and disabled DTLS 1.3. AuthMode::Psk would reject every surviving
    // suite at runtime, so build() should fail fast here.
    let result = Config::builder()
        .with_psk_client(b"identity".to_vec(), Arc::new(DummyResolver))
        .dtls12_cipher_suites(&[Dtls12CipherSuite::ECDHE_ECDSA_AES128_GCM_SHA256])
        .dtls13_cipher_suites(&[])
        .build();
    match result {
        Err(Error::ConfigError(msg)) => {
            assert!(msg.contains("PSK"), "error should mention PSK: {msg}")
        }
        Err(other) => panic!("expected ConfigError, got: {other:?}"),
        Ok(_) => panic!("expected error for PSK config with only non-PSK suites"),
    }
}

#[test]
fn psk_with_dtls13_but_no_psk_dtls12_suite_rejected() {
    struct DummyResolver;
    impl PskResolver for DummyResolver {
        fn resolve(&self, _identity: &[u8]) -> Option<Vec<u8>> {
            Some(b"key".to_vec())
        }
    }

    // PSK configured, DTLS 1.2 filtered to cert-only, DTLS 1.3 left enabled.
    // The surviving DTLS 1.3 suite is not a fallback for Dtls::new_12_psk,
    // so build() must reject this config instead of producing one that can
    // never complete a PSK handshake.
    let result = Config::builder()
        .with_psk_client(b"identity".to_vec(), Arc::new(DummyResolver))
        .dtls12_cipher_suites(&[Dtls12CipherSuite::ECDHE_ECDSA_AES128_GCM_SHA256])
        .build();
    match result {
        Err(Error::ConfigError(msg)) => {
            assert!(msg.contains("PSK"), "error should mention PSK: {msg}")
        }
        Err(other) => panic!("expected ConfigError, got: {other:?}"),
        Ok(_) => panic!(
            "expected error for PSK config with only non-PSK DTLS 1.2 suites, \
             even when DTLS 1.3 is enabled"
        ),
    }
}

#[test]
fn psk_with_cert_dtls12_and_empty_kx_groups_rejected() {
    struct DummyResolver;
    impl PskResolver for DummyResolver {
        fn resolve(&self, _identity: &[u8]) -> Option<Vec<u8>> {
            Some(b"key".to_vec())
        }
    }

    // Mixed config: PSK is set, but a cert-based DTLS 1.2 suite is also in
    // the filter alongside a PSK suite. That cert suite still needs an
    // ECDHE group, so kx_groups(&[]) must fail build — the fact that PSK
    // is also configured does not excuse the missing groups.
    let result = Config::builder()
        .with_psk_server(None, Arc::new(DummyResolver))
        .dtls12_cipher_suites(&[
            Dtls12CipherSuite::ECDHE_ECDSA_AES128_GCM_SHA256,
            Dtls12CipherSuite::PSK_AES128_CCM_8,
        ])
        .dtls13_cipher_suites(&[])
        .kx_groups(&[])
        .build();
    match result {
        Err(Error::ConfigError(msg)) => assert!(
            msg.contains("key exchange"),
            "error should mention key exchange groups: {msg}"
        ),
        Err(other) => panic!("expected ConfigError, got: {other:?}"),
        Ok(_) => panic!(
            "expected error when a cert-based DTLS 1.2 suite is enabled \
             without any kx groups, even alongside PSK"
        ),
    }
}

#[test]
fn psk_client_with_empty_kx_groups_builds() {
    struct DummyResolver;
    impl PskResolver for DummyResolver {
        fn resolve(&self, _identity: &[u8]) -> Option<Vec<u8>> {
            Some(b"key".to_vec())
        }
    }

    // PSK suites don't need ECDHE groups. A truly PSK-only endpoint (with
    // the DTLS 1.2 filter narrowed to PSK suites and DTLS 1.3 disabled)
    // should be able to opt out of kx_groups entirely.
    Config::builder()
        .with_psk_client(b"identity".to_vec(), Arc::new(DummyResolver))
        .dtls12_cipher_suites(&[Dtls12CipherSuite::PSK_AES128_CCM_8])
        .dtls13_cipher_suites(&[])
        .kx_groups(&[])
        .build()
        .expect("PSK-only client with empty kx_groups should build");
}

#[test]
fn filter_with_explicit_provider() {
    let config = Config::builder()
        .with_crypto_provider(default_provider())
        .dtls12_cipher_suites(&[Dtls12CipherSuite::ECDHE_ECDSA_AES256_GCM_SHA384])
        .dtls13_cipher_suites(&[Dtls13CipherSuite::AES_128_GCM_SHA256])
        .kx_groups(&[NamedGroup::X25519, NamedGroup::Secp256r1])
        .build()
        .expect("should accept filtered config with explicit provider");
    let suites12 = config.dtls12_cipher_suites();
    assert_eq!(
        suites12,
        &[Dtls12CipherSuite::ECDHE_ECDSA_AES256_GCM_SHA384]
    );
    let suites13 = config.dtls13_cipher_suites();
    assert_eq!(suites13, &[Dtls13CipherSuite::AES_128_GCM_SHA256]);
    let groups = config.kx_groups();
    assert_eq!(groups, &[NamedGroup::X25519, NamedGroup::Secp256r1]);
}

/// `connection_id` (RFC 9146, DTLS 1.2) must be rejected when the caller filters
/// out every DTLS 1.2 suite.
#[test]
fn dtls12_cid_with_no_dtls12_suites_fails_config_build() {
    let result = Config::builder()
        .with_connection_id(b"cid".to_vec())
        .dtls12_cipher_suites(&[]) // filter out all DTLS 1.2 suites
        .build();

    match result {
        Err(Error::ConfigError(msg)) => {
            assert!(
                msg.contains("Connection ID") || msg.contains("DTLS 1.2"),
                "ConfigError message should explain the CID/DTLS 1.2 mismatch: {}",
                msg
            );
        }
        Err(other) => panic!(
            "expected ConfigError rejecting CID-without-DTLS-1.2-suite, got: {:?}",
            other
        ),
        Ok(_) => panic!("expected ConfigError rejecting CID-without-DTLS-1.2-suite"),
    }
}

/// Sequence-number exhaustion and payload-size failures are told apart.
#[test]
fn dtls12_error_variants_are_distinct() {
    let seq = Error::SequenceNumberExhausted {
        epoch: 1,
        sequence: (1u64 << 48) - 1,
    };
    let oversized = Error::Oversized(1 << 14);
    assert!(matches!(seq, Error::SequenceNumberExhausted { .. }));
    assert!(matches!(oversized, Error::Oversized(_)));
    // They must not collide.
    assert!(!matches!(seq, Error::Oversized(_)));
    assert!(!matches!(oversized, Error::SequenceNumberExhausted { .. }));
}

struct FixedPsk;
impl PskResolver for FixedPsk {
    fn resolve(&self, identity: &[u8]) -> Option<Vec<u8>> {
        if identity == b"sensor" {
            Some(b"key".to_vec())
        } else {
            None
        }
    }
}

fn message(builder: dimpl::ConfigBuilder) -> String {
    match builder.build() {
        Err(Error::ConfigError(m)) => m,
        Err(other) => panic!("expected ConfigError, got: {other:?}"),
        Ok(_) => panic!("expected an error"),
    }
}

fn only(suites: &[Dtls12CipherSuite]) -> CryptoProvider {
    let mut provider = default_provider();
    provider.cipher_suites = suites.to_vec();
    provider
}

#[test]
fn defaults_of_a_new_builder() {
    let config = Config::default();
    assert_eq!(config.mtu(), 1150);
    assert_eq!(config.max_queue_rx(), 30);
    assert_eq!(config.max_queue_tx(), 10);
    assert!(config.require_client_certificate());
    assert!(config.use_server_cookie());
    assert_eq!(config.flight_start_rto(), Duration::from_secs(1));
    assert_eq!(config.flight_retries(), 4);
    assert_eq!(config.handshake_timeout(), Duration::from_secs(40));
    assert_eq!(config.rng_seed(), None);
    assert_eq!(config.aead_encryption_limit(), 8_388_608);
    assert!(config.psk().is_none());
    assert!(config.psk_identity().is_none());
    assert!(config.psk_identity_hint().is_none());
    assert!(config.psk_resolver().is_none());
    assert!(config.connection_id().is_none());
}

#[test]
fn setters_change_one_setting_each() {
    let config = Config::builder()
        .mtu(1)
        .mtu(1400)
        .max_queue_rx(5)
        .max_queue_tx(6)
        .require_client_certificate(false)
        .use_server_cookie(false)
        .flight_start_rto(Duration::from_millis(250))
        .flight_retries(9)
        .handshake_timeout(Duration::from_secs(7))
        .dangerously_set_rng_seed(42)
        .aead_encryption_limit(77)
        .with_connection_id(vec![1, 2, 3])
        .build()
        .expect("all settings are usable");
    assert_eq!(config.mtu(), 1400);
    assert_eq!(config.max_queue_rx(), 5);
    assert_eq!(config.max_queue_tx(), 6);
    assert!(!config.require_client_certificate());
    assert!(!config.use_server_cookie());
    assert_eq!(config.flight_start_rto(), Duration::from_millis(250));
    assert_eq!(config.flight_retries(), 9);
    assert_eq!(config.handshake_timeout(), Duration::from_secs(7));
    assert_eq!(config.rng_seed(), Some(42));
    assert_eq!(config.aead_encryption_limit(), 77);
    assert_eq!(config.connection_id(), Some(&[1u8, 2, 3][..]));

    let copy = config.clone();
    assert_eq!(copy.mtu(), 1400);
    assert_eq!(copy.connection_id(), Some(&[1u8, 2, 3][..]));
    assert_eq!(copy.dtls12_cipher_suites(), config.dtls12_cipher_suites());
    assert_eq!(copy.settings().flight_retries, 9);
}

#[test]
fn psk_roles_are_told_apart() {
    let client = Config::builder()
        .with_psk_client(b"sensor".to_vec(), Arc::new(FixedPsk))
        .build()
        .expect("PSK client");
    assert_eq!(client.psk_identity(), Some(&b"sensor"[..]));
    assert_eq!(client.psk_identity_hint(), None);
    assert!(matches!(client.psk(), Some(Psk::Client { .. })));
    let resolver = client.psk_resolver().expect("a resolver");
    assert_eq!(resolver.resolve(b"sensor"), Some(b"key".to_vec()));
    assert_eq!(resolver.resolve(b"other"), None);

    let server = Config::builder()
        .with_psk_server(Some(b"hint".to_vec()), Arc::new(FixedPsk))
        .build()
        .expect("PSK server");
    assert_eq!(server.psk_identity(), None);
    assert_eq!(server.psk_identity_hint(), Some(&b"hint"[..]));
    assert!(matches!(server.clone().psk(), Some(Psk::Server { .. })));
    assert_eq!(
        server.clone().psk_resolver().expect("a resolver").resolve(b"sensor"),
        Some(b"key".to_vec())
    );
}

#[test]
fn every_reason_has_its_message() {
    assert_eq!(message(Config::builder().mtu(63)), "MTU 63 is too small (minimum 64)");
    assert_eq!(message(Config::builder().mtu(0)), "MTU 0 is too small (minimum 64)");
    assert_eq!(
        message(Config::builder().with_connection_id(vec![0; 256])),
        "Connection ID length 256 exceeds maximum 255"
    );
    assert_eq!(
        message(
            Config::builder()
                .with_connection_id(vec![1])
                .dtls12_cipher_suites(&[])
        ),
        "Connection ID is configured (RFC 9146, DTLS 1.2) but no DTLS 1.2 cipher suite \
         survives the filter. Either include a DTLS 1.2 suite in `dtls12_cipher_suites` or \
         drop `with_connection_id`."
    );
    assert_eq!(
        message(Config::builder().aead_encryption_limit(0)),
        "aead_encryption_limit must be at least 1"
    );
    assert_eq!(
        message(Config::builder().dtls12_cipher_suites(&[]).dtls13_cipher_suites(&[])),
        "No cipher suites remain after filtering. At least one DTLS 1.2 or DTLS 1.3 cipher \
         suite must be available."
    );
    assert_eq!(
        message(
            Config::builder()
                .with_psk_server(None, Arc::new(FixedPsk))
                .dtls12_cipher_suites(&[])
        ),
        "PSK is configured but no PSK cipher suite remains after filtering DTLS 1.2 suites. \
         Include at least one PSK suite in dtls12_cipher_suites."
    );
    assert_eq!(
        message(Config::builder().kx_groups(&[])),
        "DTLS 1.2 cipher suites are enabled but no compatible key exchange groups remain \
         after filtering."
    );
    assert_eq!(
        message(Config::builder().dtls12_cipher_suites(&[]).kx_groups(&[NamedGroup::Secp521r1])),
        "DTLS 1.3 cipher suites are enabled but no key exchange groups remain after filtering."
    );
    let mut provider = default_provider();
    provider.defect = Some("no random source".to_string());
    assert_eq!(
        message(Config::builder().mtu(1).with_crypto_provider(provider)),
        "no random source"
    );
}

#[test]
fn connection_id_lengths_at_the_limit() {
    for n in [0usize, 1, 255] {
        let config = Config::builder()
            .with_connection_id(vec![7; n])
            .build()
            .expect("a Connection ID of at most 255 bytes");
        assert_eq!(config.connection_id(), Some(&vec![7u8; n][..]));
    }
}

#[test]
fn every_psk_suite_is_excluded_without_credentials() {
    let psk_suites = [
        Dtls12CipherSuite::ECDHE_PSK_CHACHA20_POLY1305_SHA256,
        Dtls12CipherSuite::PSK_AES128_CCM_8,
    ];
    let config = Config::builder()
        .with_crypto_provider(default_provider())
        .build()
        .expect("certificate config");
    for suite in psk_suites {
        assert!(suite.is_psk());
        assert!(!config.dtls12_cipher_suites().contains(&suite));
    }
    assert_eq!(config.dtls12_cipher_suites().len(), 3);

    // A provider with nothing else is of no use without credentials.
    for suite in psk_suites {
        let m = message(
            Config::builder()
                .with_crypto_provider(only(&[suite]))
                .dtls13_cipher_suites(&[]),
        );
        assert!(m.contains("No cipher suites"));
    }
}

#[test]
fn ecdhe_psk_alone_serves_a_psk_config() {
    let provider = only(&[Dtls12CipherSuite::ECDHE_PSK_CHACHA20_POLY1305_SHA256]);
    let config = Config::builder()
        .with_crypto_provider(provider.clone())
        .with_psk_client(b"sensor".to_vec(), Arc::new(FixedPsk))
        .dtls13_cipher_suites(&[])
        .build()
        .expect("the suite is a PSK suite");
    assert_eq!(
        config.dtls12_cipher_suites(),
        &[Dtls12CipherSuite::ECDHE_PSK_CHACHA20_POLY1305_SHA256]
    );
    // It still negotiates a key exchange group.
    let m = message(
        Config::builder()
            .with_crypto_provider(provider)
            .with_psk_client(b"sensor".to_vec(), Arc::new(FixedPsk))
            .dtls13_cipher_suites(&[])
            .kx_groups(&[]),
    );
    assert!(m.contains("key exchange"));
}

#[test]
fn group_list_order_is_the_preference() {
    let config = Config::builder()
        .kx_groups(&[
            NamedGroup::Secp384r1,
            NamedGroup::Secp521r1,
            NamedGroup::X25519,
            NamedGroup::Secp384r1,
        ])
        .build()
        .expect("two of the groups are offered");
    assert_eq!(config.kx_groups(), &[NamedGroup::Secp384r1, NamedGroup::X25519]);
}

#[test]
fn group_is_used_as_often_as_it_is_offered() {
    let mut provider = default_provider();
    provider.kx_groups = vec![
        NamedGroup::X25519,
        NamedGroup::Secp384r1,
        NamedGroup::Secp256r1,
        NamedGroup::X25519,
    ];
    let config = Config::builder()
        .with_crypto_provider(provider.clone())
        .kx_groups(&[NamedGroup::Secp384r1, NamedGroup::X25519, NamedGroup::Secp384r1])
        .build()
        .expect("both groups are offered");
    assert_eq!(
        config.kx_groups(),
        &[NamedGroup::Secp384r1, NamedGroup::X25519, NamedGroup::X25519]
    );
    let config = Config::builder()
        .with_crypto_provider(provider.clone())
        .build()
        .expect("all groups are used");
    assert_eq!(config.kx_groups(), &provider.kx_groups[..]);
}

#[test]
fn suites_keep_the_order_of_the_provider() {
    let config = Config::builder()
        .dtls12_cipher_suites(&[
            Dtls12CipherSuite::ECDHE_ECDSA_CHACHA20_POLY1305_SHA256,
            Dtls12CipherSuite::ECDHE_ECDSA_AES256_GCM_SHA384,
        ])
        .dtls13_cipher_suites(&[
            Dtls13CipherSuite::CHACHA20_POLY1305_SHA256,
            Dtls13CipherSuite::AES_128_GCM_SHA256,
        ])
        .build()
        .expect("all suites are offered");
    assert_eq!(
        config.dtls12_cipher_suites(),
        &[
            Dtls12CipherSuite::ECDHE_ECDSA_AES256_GCM_SHA384,
            Dtls12CipherSuite::ECDHE_ECDSA_CHACHA20_POLY1305_SHA256
        ]
    );
    assert_eq!(
        config.dtls13_cipher_suites(),
        &[
            Dtls13CipherSuite::AES_128_GCM_SHA256,
            Dtls13CipherSuite::CHACHA20_POLY1305_SHA256
        ]
    );
}

#[test]
fn provider_priority() {
    let explicit = only(&[Dtls12CipherSuite::ECDHE_ECDSA_AES128_GCM_SHA256]);
    let installed = only(&[Dtls12CipherSuite::ECDHE_ECDSA_AES256_GCM_SHA384]);
    let both = Config::builder()
        .with_crypto_provider(explicit)
        .with_installed_default(Some(installed.clone()))
        .build()
        .expect("explicit provider");
    assert_eq!(
        both.dtls12_cipher_suites(),
        &[Dtls12CipherSuite::ECDHE_ECDSA_AES128_GCM_SHA256]
    );
    let fallback = Config::builder()
        .with_installed_default(Some(installed))
        .build()
        .expect("installed provider");
    assert_eq!(
        fallback.dtls12_cipher_suites(),
        &[Dtls12CipherSuite::ECDHE_ECDSA_AES256_GCM_SHA384]
    );
    let built_in = Config::builder()
        .with_installed_default(None)
        .build()
        .expect("built-in provider");
    assert_eq!(
        built_in.crypto_provider().supported_cipher_suites(),
        default_provider().supported_cipher_suites()
    );
    let builder = Config::builder().mtu(99);
    assert!(builder.crypto_provider().is_none());
    assert_eq!(builder.settings().mtu, 99);
}
