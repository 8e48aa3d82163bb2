use dimpl::crypto::Dtls12CipherSuite;
use dimpl::{Config, MasterSecret, SessionStore, StoredSession};
use std::collections::HashMap;
use std::sync::{Arc, Mutex};

struct MemoryStore(Mutex<HashMap<Vec<u8>, Arc<StoredSession>>>);

impl SessionStore for MemoryStore {
    fn store(&self, id: &[u8], session: Arc<StoredSession>) {
        self.0.lock().unwrap().insert(id.to_vec(), session);
    }
    fn lookup(&self, id: &[u8]) -> Option<Arc<StoredSession>> {
        self.0.lock().unwrap().get(id).cloned()
    }
}

#[test]
fn master_secret_keeps_48_bytes() {
    let bytes: Vec<u8> = (0..48).collect();
    let secret = MasterSecret::new(&bytes).expect("48 bytes");
    assert_eq!(secret.as_bytes(), &bytes[..]);
}

#[test]
fn master_secret_of_other_length_is_refused() {
    for n in [0usize, 1, 47, 49, 1234] {
        match MasterSecret::new(&vec![7u8; n]) {
            Ok(_) => panic!("{} bytes must be refused", n),
            Err(m) => assert_eq!(m, format!("MasterSecret must be 48 bytes, got {}", n)),
        }
    }
}

#[test]
fn stored_session_is_found_through_the_config() {
    let store = Arc::new(MemoryStore(Mutex::new(HashMap::new())));
    let config = Config::builder()
        .with_session_store(store.clone())
        .with_offered_session_id(vec![1, 2, 3])
        .build()
        .expect("config with a session store");
    let secret = MasterSecret::new(&[9u8; 48]).expect("48 bytes");
    let session = StoredSession::new(secret, Dtls12CipherSuite::PSK_AES128_CCM_8);
    store.store(&[1, 2, 3], Arc::new(session));

    let id = config.offered_session_id().expect("an offered session");
    let found = config
        .session_store()
        .expect("a session store")
        .lookup(id)
        .expect("the session");
    assert_eq!(found.master_secret.as_bytes(), &[9u8; 48]);
    assert_eq!(found.cipher_suite, Dtls12CipherSuite::PSK_AES128_CCM_8);
    assert!(Config::default().session_store().is_none());
    assert!(Config::default().offered_session_id().is_none());
}
