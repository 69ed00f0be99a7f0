use shrine::encryption::EncryptionAlgorithm;
use shrine::serialization::SerializationFormat;
use shrine::shrine::local::{LoadedShrine, LocalShrine};
use shrine::shrine::{OpenShrine, VERSION};
use shrine::values::Mode;
use shrine::Error;

#[test]
fn local_shrine_uuid() {
    let shrine = LocalShrine::new();
    let uuid = shrine.metadata().uuid;
    assert_eq!(shrine.uuid(), uuid);
}

#[test]
fn local_shrine_version() {
    let shrine = LocalShrine::new();
    assert_eq!(shrine.version(), VERSION);
}

#[test]
fn local_shrine_serialization_format() {
    let shrine = LocalShrine::new();
    assert_eq!(shrine.serialization_format(), SerializationFormat::BinaryDoc);
}

#[test]
fn local_shrine_encryption_format() {
    let shrine = LocalShrine::new();
    assert_eq!(shrine.encryption_algorithm(), EncryptionAlgorithm::Aes);

    let shrine = LocalShrine::new().into_clear();
    assert_eq!(shrine.encryption_algorithm(), EncryptionAlgorithm::Plain);
}

#[test]
fn loaded_shrine_uuid() {
    let shrine = LocalShrine::new();
    let uuid = shrine.metadata().uuid;
    assert_eq!(shrine.uuid(), uuid);
}

#[test]
fn loaded_shrine_version() {
    let shrine = LocalShrine::new();
    assert_eq!(shrine.version(), VERSION);
}

#[test]
fn loaded_shrine_serialization_format() {
    let shrine = LocalShrine::new();
    assert_eq!(shrine.serialization_format(), SerializationFormat::BinaryDoc);
}

#[test]
fn loaded_shrine_encryption_format() {
    let shrine = LocalShrine::new();
    assert_eq!(shrine.encryption_algorithm(), EncryptionAlgorithm::Aes);

    let shrine = LocalShrine::new().into_clear();
    assert_eq!(shrine.encryption_algorithm(), EncryptionAlgorithm::Plain);
}

#[test]
fn set_get() {
    let mut shrine = LocalShrine::new();

    shrine.set("key", "value".as_bytes(), Mode::Text).unwrap();
    let secret = shrine.get("key").unwrap();
    assert_eq!(secret.value().expose_secret_as_bytes(), "value".as_bytes());
    assert_eq!(secret.mode(), Mode::Text);

    shrine.set("key", "bin".as_bytes(), Mode::Binary).unwrap();
    let secret = shrine.get("key").unwrap();
    assert_eq!(secret.value().expose_secret_as_bytes(), "bin".as_bytes());
    assert_eq!(secret.mode(), Mode::Binary);
}

#[test]
fn set_get_private() {
    let mut shrine = LocalShrine::new();

    shrine.set(".key", "value".as_bytes(), Mode::Text).unwrap();
    let secret = shrine.get(".key").unwrap();
    assert_eq!(secret.value().expose_secret_as_bytes(), "value".as_bytes());
    assert_eq!(secret.mode(), Mode::Text);

    shrine.set(".key", "bin".as_bytes(), Mode::Binary).unwrap();
    let secret = shrine.get(".key").unwrap();
    assert_eq!(secret.value().expose_secret_as_bytes(), "bin".as_bytes());
    assert_eq!(secret.mode(), Mode::Binary);
}

#[test]
fn rm() {
    let mut shrine = LocalShrine::new();

    shrine.set("key", "value".as_bytes(), Mode::Text).unwrap();
    assert!(shrine.rm("key"));

    match shrine.get("key") {
        Err(Error::KeyNotFound(k)) => {
            assert_eq!(&k, "key")
        }
        Err(e) => panic!("Expected Error::KeyNotFound(\"key\"), got {:?}", e),
        Ok(_) => panic!("Expected Error::KeyNotFound(\"key\"), got a secret"),
    }

    assert!(!shrine.rm("key"));
}

#[test]
fn mv() {
    let mut src = LocalShrine::new();
    src.set("key", "value".as_bytes(), Mode::Text).unwrap();

    let mut dst = OpenShrine::LocalClear(LocalShrine::new().into_clear());
    src.mv(&mut dst);

    let secret = dst.get("key").unwrap();
    assert_eq!(secret.value().expose_secret_as_bytes(), "value".as_bytes());
    assert_eq!(secret.mode(), Mode::Text);
}

#[test]
fn keys() {
    let mut shrine = LocalShrine::new();

    shrine.set("key", "value".as_bytes(), Mode::Text).unwrap();

    let keys = shrine.keys();
    assert_eq!(keys.len(), 1);
    assert_eq!(keys.get(0), Some(&"key".to_string()))
}

#[test]
fn keys_private() {
    let mut shrine = LocalShrine::new();

    shrine.set(".key", "value".as_bytes(), Mode::Text).unwrap();

    let keys = shrine.keys_private();
    assert_eq!(keys.len(), 1);
    assert_eq!(keys.get(0), Some(&"key".to_string()))
}

#[test]
fn clear_close_open() {
    let mut shrine = LocalShrine::new();

    shrine.set("key", "value".as_bytes(), Mode::Text).unwrap();

    let shrine = shrine.into_clear();

    let shrine = shrine.close().unwrap();

    let shrine = shrine.open().unwrap();

    assert_eq!(
        shrine.get("key").unwrap().value().expose_secret_as_bytes(),
        "value".as_bytes()
    );
}

#[test]
fn aes_close_open() {
    let mut shrine = LocalShrine::new();

    shrine.set("key", "value".as_bytes(), Mode::Text).unwrap();

    let shrine = shrine.close("password".to_string()).unwrap();

    let shrine = shrine.open("password".to_string()).unwrap();

    assert_eq!(
        shrine.get("key").unwrap().value().expose_secret_as_bytes(),
        "value".as_bytes()
    );
}

#[test]
fn aes_close_open_wrong_password() {
    let mut shrine = LocalShrine::new();

    shrine.set("key", "value".as_bytes(), Mode::Text).unwrap();

    let shrine = shrine.set_password("password".to_string());

    let shrine = shrine.close().unwrap();

    match shrine.open("wrong".to_string()) {
        Err(Error::CryptoRead) => (),
        _ => panic!("Expected Err(Error::CryptoRead)"),
    }
}

#[test]
fn clear_try_to_bytes_try_from_bytes() {
    let mut shrine = LocalShrine::new();

    shrine.set("key", "value".as_bytes(), Mode::Text).unwrap();

    let shrine = shrine.into_clear().close().unwrap();

    let bytes = shrine.try_to_bytes().unwrap();

    let shrine = match LoadedShrine::try_from_bytes(&bytes).unwrap() {
        LoadedShrine::Clear(s) => s.open().unwrap(),
        _ => panic!("Expected clear shrine"),
    };

    assert_eq!(
        shrine.get("key").unwrap().value().expose_secret_as_bytes(),
        "value".as_bytes()
    );
}

#[test]
fn aes_try_to_bytes_try_from_bytes() {
    let mut shrine = LocalShrine::new();

    shrine.set("key", "value".as_bytes(), Mode::Text).unwrap();

    let shrine = shrine
        .into_clear()
        .into_aes_with_password("password".to_string())
        .close()
        .unwrap();

    let bytes = shrine.try_to_bytes().unwrap();

    let shrine = match LoadedShrine::try_from_bytes(&bytes).unwrap() {
        LoadedShrine::Aes(s) => s.open("password".to_string()).unwrap(),
        _ => panic!("Expected aes shrine"),
    };

    assert_eq!(
        shrine.get("key").unwrap().value().expose_secret_as_bytes(),
        "value".as_bytes()
    );
}

#[test]
fn invalid_magic_number() {
    let mut bytes = LocalShrine::new()
        .into_clear()
        .close()
        .unwrap()
        .try_to_bytes()
        .unwrap();
    bytes[0] += 1;

    match LoadedShrine::try_from_bytes(&bytes) {
        Err(Error::InvalidFile(_)) => {}
        Err(e) => panic!("expected Error::InvalidFile, got {:?}", e),
        Ok(_) => panic!("expected Error::InvalidFile, got a shrine"),
    }
}

#[test]
fn unsupported_version() {
    let mut bytes = LocalShrine::new()
        .into_clear()
        .close()
        .unwrap()
        .try_to_bytes()
        .unwrap();
    bytes[6] += 1;

    match LoadedShrine::try_from_bytes(&bytes) {
        Err(Error::UnsupportedVersion(v)) => {
            assert_eq!(v, 1)
        }
        Err(e) => panic!("expected Error::UnsupportedVersion, got {:?}", e),
        Ok(_) => panic!("expected Error::UnsupportedVersion, got a shrine"),
    }
}
