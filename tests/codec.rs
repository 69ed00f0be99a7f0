use shrine::holder::{Entry, Holder};
use shrine::serialization::{deserialize, serialize};
use shrine::shrine::local::{LoadedShrine, LocalShrine};
use shrine::values::{Mode, Secret, SecretBytes};
use shrine::Error;

fn secret(bytes: &[u8], mode: Mode, created_at: i64) -> Secret {
    Secret::new(SecretBytes::new(bytes.to_vec()), mode, created_at)
}

#[test]
fn holder_encoding_exact_bytes() {
    let mut h = Holder::new();
    h.set("key", secret(b"value", Mode::Text, 42)).unwrap();
    h.set_private("p", secret(b"\x01", Mode::Binary, -1)).unwrap();
    let bytes = serialize(&h).unwrap();
    let mut expected: Vec<u8> = vec![1, 0, 0, 0, 3, 0, 0, 0];
    expected.extend_from_slice(b"key");
    expected.extend_from_slice(&[5, 0, 0, 0]);
    expected.extend_from_slice(b"value");
    expected.push(0);
    expected.extend_from_slice(&42i64.to_le_bytes());
    expected.extend_from_slice(&[1, 0, 0, 0, 1, 0, 0, 0]);
    expected.extend_from_slice(b"p");
    expected.extend_from_slice(&[1, 0, 0, 0, 1, 1]);
    expected.extend_from_slice(&(-1i64).to_le_bytes());
    assert_eq!(bytes, expected);
}

#[test]
fn holder_encoding_matches_borsh() {
    let mut h = Holder::new();
    h.set("key", secret(b"value", Mode::Text, 1_700_000_000)).unwrap();
    h.set("other", secret(b"", Mode::Binary, 0)).unwrap();
    let bytes = serialize(&h).unwrap();
    let reference = borsh::to_vec(&(
        2u32,
        ("key".to_string(), b"value".to_vec(), 0u8, 1_700_000_000i64),
        ("other".to_string(), Vec::<u8>::new(), 1u8, 0i64),
        0u32,
    ))
    .unwrap();
    assert_eq!(bytes, reference);
}

#[test]
fn file_layout_matches_borsh() {
    let mut shrine = LocalShrine::new().into_clear();
    shrine.set_at("k", b"v", Mode::Text, 7).unwrap();
    let uuid = shrine.uuid();
    let closed = shrine.close().unwrap();
    let bytes = closed.try_to_bytes().unwrap();
    let payload = borsh::to_vec(&(1u32, ("k".to_string(), b"v".to_vec(), 0u8, 7i64), 0u32)).unwrap();
    let reference = borsh::to_vec(&(*b"shrine", 0u8, uuid, 0u8, 0u8, payload)).unwrap();
    assert_eq!(bytes, reference);
}

#[test]
fn holder_round_trip() {
    let mut h = Holder::new();
    h.set("a", secret(b"1", Mode::Text, 1)).unwrap();
    h.set("b", secret(&[0, 255, 7], Mode::Binary, i64::MIN)).unwrap();
    h.set_private("c", secret(b"", Mode::Text, i64::MAX)).unwrap();
    let bytes = serialize(&h).unwrap();
    let back = deserialize(&bytes).unwrap();
    assert_eq!(back.keys(), vec!["a".to_string(), "b".to_string()]);
    assert_eq!(back.keys_private(), vec!["c".to_string()]);
    let b = back.get("b").unwrap();
    assert_eq!(b.value().expose_secret_as_bytes(), &[0, 255, 7]);
    assert_eq!(b.mode(), Mode::Binary);
    assert_eq!(b.created_at(), i64::MIN);
    assert_eq!(back.get_private("c").unwrap().created_at(), i64::MAX);
}

#[test]
fn empty_holder_encoding() {
    let bytes = serialize(&Holder::new()).unwrap();
    assert_eq!(bytes, vec![0u8; 8]);
    let back = deserialize(&bytes).unwrap();
    assert!(back.keys().is_empty());
    assert!(back.keys_private().is_empty());
}

#[test]
fn malformed_documents_are_refused() {
    let mut h = Holder::new();
    h.set("key", secret(b"value", Mode::Text, 42)).unwrap();
    let good = serialize(&h).unwrap();
    let mut trailing = good.clone();
    trailing.push(0);
    let mut bad_mode = good.clone();
    bad_mode[4 + 4 + 3 + 4 + 5] = 9;
    let mut bad_utf8 = good.clone();
    bad_utf8[8] = 0xFF;
    let truncated = good[..good.len() - 1].to_vec();
    // The same key twice in the public namespace.
    let mut duplicate: Vec<u8> = vec![2, 0, 0, 0];
    for _ in 0..2 {
        duplicate.extend_from_slice(&[1, 0, 0, 0, b'a', 0, 0, 0, 0, 0]);
        duplicate.extend_from_slice(&0i64.to_le_bytes());
    }
    duplicate.extend_from_slice(&[0, 0, 0, 0]);
    for case in [trailing, bad_mode, bad_utf8, truncated, duplicate] {
        match deserialize(&case) {
            Err(Error::InvalidFile(_)) => {}
            _ => panic!("expected InvalidFile"),
        }
    }
}

#[test]
fn holder_namespaces_are_disjoint() {
    let mut h = Holder::new();
    h.set("a", secret(b"1", Mode::Text, 0)).unwrap();
    assert!(matches!(h.set_private("a", secret(b"2", Mode::Text, 0)), Err(Error::InvalidKey(_))));
    assert!(matches!(h.set(".b", secret(b"2", Mode::Text, 0)), Err(Error::InvalidKey(_))));
    assert!(matches!(h.set("", secret(b"2", Mode::Text, 0)), Err(Error::InvalidKey(_))));
    assert!(matches!(h.get("zz"), Err(Error::KeyNotFound(_))));
    assert!(h.remove("a"));
    assert!(h.set_private("a", secret(b"2", Mode::Text, 0)).is_ok());
    assert!(h.remove_private("a"));
    assert!(!h.remove_private("a"));
}

#[test]
fn entries_are_checked_on_assembly() {
    let e = |k: &str| Entry { key: k.to_string(), secret: secret(b"", Mode::Text, 0) };
    assert!(Holder::from_entries(vec![e("a"), e("b")], vec![e("c")]).is_some());
    assert!(Holder::from_entries(vec![e("a"), e("a")], vec![]).is_none());
    assert!(Holder::from_entries(vec![e("a")], vec![e("a")]).is_none());
    assert!(Holder::from_entries(vec![e(".a")], vec![]).is_none());
    assert!(Holder::from_entries(vec![], vec![e("")]).is_none());
}

#[test]
fn loaded_variant_follows_encryption_tag() {
    let clear = LocalShrine::new().into_clear().close().unwrap().try_to_bytes().unwrap();
    assert!(matches!(LoadedShrine::try_from_bytes(&clear), Ok(LoadedShrine::Clear(_))));
    let mut tagged = clear.clone();
    tagged[23] = 1;
    assert!(matches!(LoadedShrine::try_from_bytes(&tagged), Ok(LoadedShrine::Aes(_))));
}
