use shrine::agent::{
    agent_is_live, get_key, may_start_agent, open_shrine, set_key, ErrorResponse, PasswordCache,
};
use shrine::controller::init::init;
use shrine::encryption::EncryptionAlgorithm;
use shrine::shrine::local::LocalShrine;
use shrine::values::Mode;
use shrine::Error;

const TTL: i64 = 1000;

fn encrypted_file() -> (u128, Vec<u8>) {
    let mut open = LocalShrine::new();
    open.set("k", b"secret", Mode::Text).unwrap();
    let uuid = open.uuid();
    let closed = open.close("pw".to_string()).unwrap();
    (uuid, closed.try_to_bytes().unwrap())
}

#[test]
fn cache_expiry_unauthorizes() {
    let (uuid, bytes) = encrypted_file();
    let mut cache = PasswordCache::new();
    cache.set_password(uuid, "pw".to_string(), 0);
    cache.clean_expired_passwords(2000, TTL);
    match get_key(&mut cache, "P", "k", Ok(bytes), 2000) {
        Err(ErrorResponse::Unauthorized(u)) => assert_eq!(u, uuid),
        Err(e) => panic!("expected Unauthorized, got status {}", e.status()),
        Ok(_) => panic!("expected Unauthorized, got the secret"),
    }
}

#[test]
fn cache_hit_refreshes() {
    let (uuid, bytes) = encrypted_file();
    let mut cache = PasswordCache::new();
    cache.set_password(uuid, "pw".to_string(), 0);
    cache.clean_expired_passwords(500, TTL);
    let secret = get_key(&mut cache, "P", "k", Ok(bytes.clone()), 500).ok().unwrap();
    assert_eq!(secret.value().expose_secret_as_bytes(), b"secret");
    cache.clean_expired_passwords(1400, TTL);
    let again = get_key(&mut cache, "P", "k", Ok(bytes), 1400).ok().unwrap();
    assert_eq!(again.mode(), Mode::Text);
}

#[test]
fn sweep_keeps_recent_and_drops_old() {
    let mut cache = PasswordCache::new();
    cache.set_password(1, "a".to_string(), 0);
    cache.set_password(2, "b".to_string(), 500);
    cache.set_password(3, "c".to_string(), 999);
    cache.clean_expired_passwords(1500, TTL);
    assert!(cache.get_password(1, 1500).is_none());
    assert!(cache.get_password(2, 1500).is_none());
    assert_eq!(cache.get_password(3, 1500), Some("c".to_string()));
    cache.set_password(3, "d".to_string(), 1600);
    assert_eq!(cache.get_password(3, 1700), Some("d".to_string()));
    cache.delete_passwords();
    assert!(cache.get_password(3, 1700).is_none());
}

#[test]
fn status_codes() {
    let p = || "P".to_string();
    assert_eq!(ErrorResponse::FileNotFound(p()).status(), 404);
    assert_eq!(ErrorResponse::KeyNotFound { file: p(), key: p() }.status(), 404);
    assert_eq!(ErrorResponse::Unauthorized(1).status(), 401);
    assert_eq!(ErrorResponse::Forbidden(1).status(), 403);
    assert_eq!(ErrorResponse::Read(p()).status(), 500);
    assert_eq!(ErrorResponse::Write(p()).status(), 500);
    assert_eq!(ErrorResponse::Io(p()).status(), 500);
}

#[test]
fn open_shrine_failures() {
    let mut cache = PasswordCache::new();
    match open_shrine(&mut cache, "P", Err(Error::FileNotFound("P".to_string())), 0) {
        Err(ErrorResponse::FileNotFound(p)) => assert_eq!(p, "P"),
        _ => panic!("expected FileNotFound"),
    }
    match open_shrine(&mut cache, "P", Err(Error::IoRead("denied".to_string())), 0) {
        Err(ErrorResponse::Read(p)) => assert_eq!(p, "P"),
        _ => panic!("expected Read"),
    }
    match open_shrine(&mut cache, "P", Err(Error::IoWrite("x".to_string())), 0) {
        Err(ErrorResponse::Io(p)) => assert_eq!(p, "P"),
        _ => panic!("expected Io"),
    }
    match open_shrine(&mut cache, "P", Ok(b"not a shrine".to_vec()), 0) {
        Err(ErrorResponse::Io(p)) => assert_eq!(p, "P"),
        _ => panic!("expected Io"),
    }
    let (uuid, bytes) = encrypted_file();
    cache.set_password(uuid, "wrong".to_string(), 0);
    match open_shrine(&mut cache, "P", Ok(bytes), 0) {
        Err(ErrorResponse::Forbidden(u)) => assert_eq!(u, uuid),
        _ => panic!("expected Forbidden"),
    }
}

#[test]
fn get_key_missing_key() {
    let closed = init("P", false, false, Some(EncryptionAlgorithm::Plain), |_| String::new()).unwrap();
    let bytes = closed.try_to_bytes().unwrap();
    let mut cache = PasswordCache::new();
    match get_key(&mut cache, "P", "nope", Ok(bytes), 0) {
        Err(ErrorResponse::KeyNotFound { file, key }) => {
            assert_eq!(file, "P");
            assert_eq!(key, "nope");
        }
        _ => panic!("expected KeyNotFound"),
    }
}

#[test]
fn liveness() {
    assert!(agent_is_live(Some("42"), Some("42")));
    assert!(!agent_is_live(Some("42"), Some("43")));
    assert!(!agent_is_live(Some("42"), None));
    assert!(!agent_is_live(None, Some("42")));
    assert!(!agent_is_live(Some(""), Some("")));
    assert!(!may_start_agent(Some("42"), Some("42")));
    assert!(may_start_agent(Some("42"), None));
}

#[test]
fn set_key_refuses_bad_keys() {
    let closed = init("P", false, false, Some(EncryptionAlgorithm::Plain), |_| String::new()).unwrap();
    let bytes = closed.try_to_bytes().unwrap();
    let mut cache = PasswordCache::new();
    match set_key(&mut cache, "P", ".", b"x", Mode::Text, Ok(bytes.clone()), 0) {
        Err(ErrorResponse::Write(p)) => assert_eq!(p, "P"),
        _ => panic!("expected Write"),
    }
    let written = set_key(&mut cache, "P", "k", b"x", Mode::Binary, Ok(bytes), 0).unwrap();
    let secret = get_key(&mut cache, "P", "k", Ok(written), 0).ok().unwrap();
    assert_eq!(secret.value().expose_secret_as_bytes(), b"x");
    assert_eq!(secret.mode(), Mode::Binary);
}

#[test]
fn open_shrine_holds_cached_passphrase() {
    let (uuid, bytes) = encrypted_file();
    let mut cache = PasswordCache::new();
    cache.set_password(uuid, "pw".to_string(), 0);
    match open_shrine(&mut cache, "P", Ok(bytes), 10) {
        Ok(shrine::shrine::OpenShrine::LocalAes(_)) => {}
        _ => panic!("expected an open encrypted shrine"),
    }
}
