use shrine::controller::config;
use shrine::controller::init::init;
use shrine::encryption::EncryptionAlgorithm;
use shrine::serialization::SerializationFormat;
use shrine::shrine::local::{LoadedShrine, LocalShrine};
use shrine::shrine::{distinct_uuid, new, ClosedShrine, OpenShrine};
use shrine::values::Mode;
use shrine::Error;

fn created_file(password: &str) -> Vec<u8> {
    let pw = password.to_string();
    let closed = init("P", false, false, None, move |_| pw).unwrap();
    let bytes = closed.try_to_bytes().unwrap();
    let mut open = new(&bytes).unwrap().open(|_| password.to_string()).unwrap();
    open.set("k", "v".as_bytes(), Mode::Text).unwrap();
    open.close().unwrap().try_to_bytes().unwrap()
}

fn open_with(bytes: &[u8], password: &str) -> Result<OpenShrine, Error> {
    let password = password.to_string();
    new(bytes)?.open(move |_| password)
}

#[test]
fn init_set_get() {
    let bytes = created_file("pw");
    let shrine = open_with(&bytes, "pw").unwrap();
    let secret = shrine.get("k").unwrap();
    assert_eq!(secret.value().expose_secret_as_bytes(), "v".as_bytes());
    assert_eq!(secret.mode(), Mode::Text);
}

#[test]
fn private_keys_are_listed_apart() {
    let bytes = created_file("pw");
    let mut shrine = open_with(&bytes, "pw").unwrap();
    shrine.set(".a", "1".as_bytes(), Mode::Text).unwrap();
    assert_eq!(shrine.keys(), vec!["k".to_string()]);
    assert_eq!(shrine.keys_private(), vec!["a".to_string()]);
    assert_eq!(
        shrine.get(".a").unwrap().value().expose_secret_as_bytes(),
        "1".as_bytes()
    );
}

#[test]
fn wrong_passphrase_fails() {
    let bytes = created_file("pw");
    match open_with(&bytes, "bad") {
        Err(Error::CryptoRead) => {}
        Err(e) => panic!("expected CryptoRead, got {:?}", e),
        Ok(_) => panic!("expected CryptoRead, got an open shrine"),
    }
}

#[test]
fn tamper_last_byte() {
    let mut bytes = created_file("pw");
    let last = bytes.len() - 1;
    bytes[last] ^= 0x01;
    match open_with(&bytes, "pw") {
        Err(Error::CryptoRead) => {}
        Err(e) => panic!("expected CryptoRead, got {:?}", e),
        Ok(_) => panic!("expected CryptoRead, got an open shrine"),
    }
}

#[test]
fn tamper_nonce_and_ciphertext() {
    let bytes = created_file("pw");
    // The payload starts after the 29-byte header: 12 bytes of nonce, then ciphertext.
    for offset in [29usize, 29 + 12] {
        let mut altered = bytes.clone();
        altered[offset] ^= 0x80;
        match open_with(&altered, "pw") {
            Err(Error::CryptoRead) => {}
            Err(e) => panic!("expected CryptoRead at {}, got {:?}", offset, e),
            Ok(_) => panic!("expected CryptoRead at {}, got an open shrine", offset),
        }
    }
}

#[test]
fn version_byte_above_maximum() {
    let mut bytes = LocalShrine::new()
        .into_clear()
        .close()
        .unwrap()
        .try_to_bytes()
        .unwrap();
    bytes[6] = 0xFF;
    match LoadedShrine::try_from_bytes(&bytes) {
        Err(Error::UnsupportedVersion(v)) => assert_eq!(v, 255),
        Err(e) => panic!("expected UnsupportedVersion, got {:?}", e),
        Ok(_) => panic!("expected UnsupportedVersion, got a shrine"),
    }
}

#[test]
fn magic_guard_every_byte() {
    let bytes = LocalShrine::new()
        .into_clear()
        .close()
        .unwrap()
        .try_to_bytes()
        .unwrap();
    for i in 0..6 {
        let mut altered = bytes.clone();
        altered[i] ^= 0x20;
        // A bad version as well: the magic is checked first.
        altered[6] = 0xFF;
        match LoadedShrine::try_from_bytes(&altered) {
            Err(Error::InvalidFile(_)) => {}
            Err(e) => panic!("expected InvalidFile at {}, got {:?}", i, e),
            Ok(_) => panic!("expected InvalidFile at {}, got a shrine", i),
        }
    }
}

#[test]
fn malformed_headers_are_invalid() {
    let bytes = LocalShrine::new()
        .into_clear()
        .close()
        .unwrap()
        .try_to_bytes()
        .unwrap();
    let cases: Vec<Vec<u8>> = vec![
        b"shrine".to_vec(),
        bytes[..20].to_vec(),
        {
            let mut b = bytes.clone();
            b[23] = 7;
            b
        },
        {
            let mut b = bytes.clone();
            b[24] = 9;
            b
        },
        {
            let mut b = bytes.clone();
            b.push(0);
            b
        },
    ];
    for (i, case) in cases.iter().enumerate() {
        match LoadedShrine::try_from_bytes(case) {
            Err(Error::InvalidFile(_)) => {}
            Err(e) => panic!("case {}: expected InvalidFile, got {:?}", i, e),
            Ok(_) => panic!("case {}: expected InvalidFile, got a shrine", i),
        }
    }
}

#[test]
fn namespace_routing() {
    let mut shrine = OpenShrine::LocalClear(LocalShrine::new().into_clear());
    shrine.set("k", "v".as_bytes(), Mode::Text).unwrap();
    assert_eq!(shrine.get("k").unwrap().value().expose_secret_as_bytes(), b"v");
    match shrine.get(".k") {
        Err(Error::KeyNotFound(k)) => assert_eq!(k, ".k"),
        _ => panic!("expected KeyNotFound"),
    }
    shrine.set(".p", "w".as_bytes(), Mode::Binary).unwrap();
    assert_eq!(shrine.get(".p").unwrap().value().expose_secret_as_bytes(), b"w");
    match shrine.get("p") {
        Err(Error::KeyNotFound(k)) => assert_eq!(k, "p"),
        _ => panic!("expected KeyNotFound"),
    }
    for bad in [".k", "p", "", "."] {
        match shrine.set(bad, b"x", Mode::Text) {
            Err(Error::InvalidKey(k)) => assert_eq!(k, bad),
            other => panic!("expected InvalidKey for {:?}, got {:?}", bad, other.is_ok()),
        }
    }
    assert!(shrine.rm(".p"));
    assert!(!shrine.rm(".p"));
    assert_eq!(shrine.keys_private().len(), 0);
}

#[test]
fn convert_changes_identity() {
    let mut shrine = OpenShrine::LocalClear(LocalShrine::new().into_clear());
    shrine.set("k", b"v", Mode::Text).unwrap();
    let before = shrine.uuid();
    let converted = shrine.convert(None, None).unwrap();
    assert_ne!(converted.uuid(), before);
    assert_eq!(converted.get("k").unwrap().value().expose_secret_as_bytes(), b"v");

    let same = converted.uuid();
    let forced = converted.convert_with_uuid(None, None, same).unwrap();
    assert_eq!(forced.uuid(), same ^ 1);

    let aes = forced
        .convert(Some(EncryptionAlgorithm::Aes), Some("pw".to_string()))
        .unwrap();
    assert!(matches!(aes, OpenShrine::LocalAes(_)));
    let back = aes.convert(Some(EncryptionAlgorithm::Plain), None).unwrap();
    assert!(matches!(back, OpenShrine::LocalClear(_)));
    match back.convert(Some(EncryptionAlgorithm::Aes), None) {
        Err(Error::InvalidTransition) => {}
        _ => panic!("expected InvalidTransition"),
    }
}

#[test]
fn distinct_uuid_values() {
    assert_eq!(distinct_uuid(5, 5), 4);
    assert_eq!(distinct_uuid(5, 7), 7);
    assert_eq!(distinct_uuid(0, 0), 1);
}

#[test]
fn fresh_uuids_are_random_v4() {
    let a = LocalShrine::new().uuid();
    let b = LocalShrine::new().uuid();
    assert_ne!(a, b);
    assert_eq!((a >> 76) & 0xf, 4);
}

#[test]
fn created_at_is_now() {
    let mut shrine = LocalShrine::new();
    shrine.set("k", b"v", Mode::Text).unwrap();
    assert!(shrine.get("k").unwrap().created_at() > 1_600_000_000);
    shrine.set_at("t", b"w", Mode::Binary, -5).unwrap();
    assert_eq!(shrine.get("t").unwrap().created_at(), -5);
}

#[test]
fn each_close_draws_a_new_nonce() {
    let shrine = LocalShrine::new().set_password("pw".to_string());
    let uuid = shrine.uuid();
    let a = shrine.close().unwrap();
    let b = LocalShrine::new()
        .with_uuid(uuid)
        .set_password("pw".to_string())
        .close()
        .unwrap();
    assert_ne!(a.try_to_bytes().unwrap(), b.try_to_bytes().unwrap());
}

#[test]
fn init_refuses_existing_file() {
    match init("/tmp/s", true, false, None, |_| "pw".to_string()) {
        Err(Error::FileAlreadyExists(p)) => assert_eq!(p, "/tmp/s"),
        _ => panic!("expected FileAlreadyExists"),
    }
    let closed = init(
        "/tmp/s",
        true,
        true,
        Some(EncryptionAlgorithm::Plain),
        |_| unreachable!(),
    )
    .unwrap();
    assert!(matches!(closed, ClosedShrine::LocalClear(_)));
    assert_eq!(closed.encryption_algorithm(), EncryptionAlgorithm::Plain);
}

#[test]
fn config_values_are_private() {
    let mut shrine = OpenShrine::LocalClear(LocalShrine::new().into_clear());
    config::set(&mut shrine, "git.commit.auto", "true").unwrap();
    assert_eq!(
        config::get(&shrine, "git.commit.auto")
            .unwrap()
            .value()
            .expose_secret_as_bytes(),
        b"true"
    );
    assert_eq!(shrine.keys().len(), 0);
    assert_eq!(shrine.keys_private(), vec!["git.commit.auto".to_string()]);
    assert!(matches!(
        config::get(&shrine, "missing"),
        Err(Error::KeyNotFound(_))
    ));
}

#[test]
fn non_ascii_keys_survive_the_file() {
    let mut shrine = LocalShrine::new().into_clear();
    shrine.set("clé✓", "välue".as_bytes(), Mode::Text).unwrap();
    let bytes = shrine.close().unwrap().try_to_bytes().unwrap();
    let opened = match LoadedShrine::try_from_bytes(&bytes).unwrap() {
        LoadedShrine::Clear(s) => s.open().unwrap(),
        LoadedShrine::Aes(_) => panic!("expected a clear shrine"),
    };
    assert_eq!(opened.keys(), vec!["clé✓".to_string()]);
    assert_eq!(
        opened.get("clé✓").unwrap().value().expose_secret_as_bytes(),
        "välue".as_bytes()
    );
}

#[test]
fn text_format_is_never_stored() {
    let mut shrine = LocalShrine::new().into_clear();
    shrine.with_serialization_format(SerializationFormat::Text);
    assert_eq!(shrine.serialization_format(), SerializationFormat::Text);
    match shrine.close() {
        Err(Error::InvalidFile(_)) => {}
        _ => panic!("expected InvalidFile"),
    }
}

#[test]
fn clear_shrine_opens_without_a_password() {
    let closed = init("P", false, false, Some(EncryptionAlgorithm::Plain), |_| unreachable!()).unwrap();
    let bytes = closed.try_to_bytes().unwrap();
    let open = new(&bytes).unwrap().open(|_| unreachable!()).unwrap();
    assert!(open.keys().is_empty());
    assert_eq!(open.uuid(), new(&bytes).unwrap().uuid());
}

#[test]
fn sealed_payload_length_and_header() {
    let closed = LocalShrine::new().close("pw".to_string()).unwrap();
    assert_eq!(closed.encryption_algorithm(), EncryptionAlgorithm::Aes);
    let bytes = closed.try_to_bytes().unwrap();
    // Header, then nonce, the eight bytes of an empty holder, and the tag.
    assert_eq!(bytes.len(), 29 + 12 + 8 + 16);
    assert_eq!(bytes[23], 1);
    let clear = LocalShrine::new().into_clear().close().unwrap();
    assert_eq!(clear.encryption_algorithm(), EncryptionAlgorithm::Plain);
    assert_eq!(clear.try_to_bytes().unwrap()[23], 0);
}

#[test]
fn mv_keeps_destination_passphrase() {
    let mut src = OpenShrine::LocalClear(LocalShrine::new().into_clear());
    src.set("key", b"value", Mode::Text).unwrap();
    let mut dst = OpenShrine::LocalAes(LocalShrine::new().set_password("dst".to_string()));
    let uuid = dst.uuid();
    src.mv(&mut dst);
    assert_eq!(dst.uuid(), uuid);
    let bytes = dst.close().unwrap().try_to_bytes().unwrap();
    let reopened = open_with(&bytes, "dst").unwrap();
    assert_eq!(reopened.get("key").unwrap().value().expose_secret_as_bytes(), b"value");
}
