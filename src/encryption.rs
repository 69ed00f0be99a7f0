//! The cryptographic envelope of a shrine payload.
//!
//! The key is derived from the passphrase with Argon2id, salted with the shrine's
//! uuid; the payload is sealed with AES-256-GCM-SIV under a fresh random nonce, with
//! the uuid and the file version as associated data. The sealed form is
//! `nonce (12 bytes) | ciphertext and tag`.
use crate::Error;
use aes_gcm_siv::aead::{Aead, AeadCore, KeyInit, Payload};
use vstd::prelude::*;

verus! {

/// How the payload of a shrine is protected.
#[derive(Clone, Copy, Debug, PartialEq, Eq, Structural)]
pub enum EncryptionAlgorithm {
    /// Stored as is.
    Plain,
    /// Sealed with AES-256-GCM-SIV under a passphrase-derived key.
    Aes,
}

pub open spec fn algorithm_tag(a: EncryptionAlgorithm) -> u8 {
    match a {
        EncryptionAlgorithm::Plain => 0,
        EncryptionAlgorithm::Aes => 1,
    }
}

pub open spec fn algorithm_of_tag(t: u8) -> Option<EncryptionAlgorithm> {
    if t == 0 {
        Some(EncryptionAlgorithm::Plain)
    } else if t == 1 {
        Some(EncryptionAlgorithm::Aes)
    } else {
        None
    }
}

impl EncryptionAlgorithm {
    pub fn tag(self) -> (r: u8)
        ensures
            r == algorithm_tag(self),
    {
        match self {
            EncryptionAlgorithm::Plain => 0,
            EncryptionAlgorithm::Aes => 1,
        }
    }

    pub fn from_tag(t: u8) -> (r: Option<EncryptionAlgorithm>)
        ensures
            r == algorithm_of_tag(t),
    {
        if t == 0 {
            Some(EncryptionAlgorithm::Plain)
        } else if t == 1 {
            Some(EncryptionAlgorithm::Aes)
        } else {
            None
        }
    }
}

/// Argon2id memory cost, in KiB.
pub const KDF_MEMORY_KIB: u32 = 65536;

/// Argon2id passes over memory.
pub const KDF_PASSES: u32 = 1;

/// Argon2id lanes.
pub const KDF_LANES: u32 = 1;

/// Length of the derived key, in bytes.
pub const KEY_LEN: usize = 32;

/// Length of the nonce, in bytes.
pub const NONCE_LEN: usize = 12;

/// Length of the authentication tag, in bytes.
pub const TAG_LEN: usize = 16;

/// Longest message AES-GCM-SIV seals (2^36 bytes).
pub const MAX_MESSAGE_LEN: u64 = 0x10_0000_0000;

/// The Argon2id (version 0x13) output for a password, salt and cost parameters.
pub uninterp spec fn argon2id_key(
    password: Seq<u8>,
    salt: Seq<u8>,
    m_cost: u32,
    t_cost: u32,
    p_cost: u32,
    out_len: usize,
) -> Seq<u8>;

/// The AES-256-GCM-SIV sealing (ciphertext followed by tag) of `msg`.
pub uninterp spec fn aes_gcm_siv_seal(key: Seq<u8>, nonce: Seq<u8>, aad: Seq<u8>, msg: Seq<u8>) -> Seq<u8>;

/// Derives a key with Argon2id.
///
/// Relies on `argon2::Params::new` and `argon2::Argon2::hash_password_into`
/// (Argon2id, version 0x13): the output is determined by password, salt and
/// parameters; it fails exactly on parameters or lengths out of the documented bounds.
#[verifier::external_body]
fn argon2id(password: &[u8], salt: &[u8], m_cost: u32, t_cost: u32, p_cost: u32, out_len: usize) -> (r:
    Option<Vec<u8>>)
    requires
        p_cost <= 0xFF_FFFF,
    ensures
        r matches Some(k) ==> k@ == argon2id_key(password@, salt@, m_cost, t_cost, p_cost, out_len)
            && k@.len() == out_len,
        8 <= m_cost && 8 * p_cost <= m_cost && 1 <= t_cost && 1 <= p_cost && 4 <= out_len
            <= u32::MAX && password@.len() <= u32::MAX && 8 <= salt@.len() <= u32::MAX ==> r is Some,
        r is Some ==> 8 <= m_cost && 8 * p_cost <= m_cost && 1 <= t_cost && 1 <= p_cost && 4
            <= out_len <= u32::MAX && password@.len() <= u32::MAX && 8 <= salt@.len() <= u32::MAX,
{
    let params = argon2::Params::new(m_cost, t_cost, p_cost, Some(out_len)).ok()?;
    let kdf = argon2::Argon2::new(argon2::Algorithm::Argon2id, argon2::Version::V0x13, params);
    let mut out = vec![0u8; out_len];
    kdf.hash_password_into(password, salt, &mut out).ok()?;
    Some(out)
}

/// Twelve random bytes.
///
/// Relies on `aead::AeadCore::generate_nonce` for `Aes256GcmSiv` with aead's
/// `OsRng`: a nonce of the cipher's nonce size (12 bytes) from the system generator.
#[verifier::external_body]
fn random_nonce() -> (r: Vec<u8>)
    ensures
        r@.len() == NONCE_LEN,
{
    aes_gcm_siv::Aes256GcmSiv::generate_nonce(&mut aes_gcm_siv::aead::OsRng).to_vec()
}

/// Seals a message.
///
/// Relies on `aead::Aead::encrypt` for `aes_gcm_siv::Aes256GcmSiv`: the output is the
/// deterministic sealing of the message, 16 bytes longer than it; it fails exactly
/// when the message or associated data is longer than 2^36 bytes.
#[verifier::external_body]
fn aead_seal(key: &[u8], nonce: &[u8], aad: &[u8], msg: &[u8]) -> (r: Option<Vec<u8>>)
    requires
        key@.len() == KEY_LEN,
        nonce@.len() == NONCE_LEN,
    ensures
        r matches Some(c) ==> c@ == aes_gcm_siv_seal(key@, nonce@, aad@, msg@) && c@.len()
            == msg@.len() + TAG_LEN,
        msg@.len() <= MAX_MESSAGE_LEN && aad@.len() <= MAX_MESSAGE_LEN ==> r is Some,
        r is Some ==> msg@.len() <= MAX_MESSAGE_LEN && aad@.len() <= MAX_MESSAGE_LEN,
{
    let cipher = aes_gcm_siv::Aes256GcmSiv::new_from_slice(key).ok()?;
    cipher.encrypt(aes_gcm_siv::Nonce::from_slice(nonce), Payload { msg, aad }).ok()
}

/// `sealed` is what sealing `m` with this key, nonce and associated data gives.
pub open spec fn opens_to(key: Seq<u8>, nonce: Seq<u8>, aad: Seq<u8>, sealed: Seq<u8>, m: Seq<u8>) -> bool {
    m.len() <= MAX_MESSAGE_LEN && aad.len() <= MAX_MESSAGE_LEN && aes_gcm_siv_seal(key, nonce, aad, m) == sealed
}

/// What AES-256-GCM-SIV decryption gives for `sealed`: the message, or nothing where
/// authentication fails.
pub uninterp spec fn aes_gcm_siv_open(key: Seq<u8>, nonce: Seq<u8>, aad: Seq<u8>, sealed: Seq<u8>) -> Option<Seq<u8>>;

/// Opens a sealed message.
///
/// Relies on `aead::Aead::decrypt` for `aes_gcm_siv::Aes256GcmSiv`: the outcome is
/// determined by key, nonce, associated data and input; what `encrypt` sealed under
/// the same key, nonce and associated data opens to the message that was sealed.
#[verifier::external_body]
fn aead_open(key: &[u8], nonce: &[u8], aad: &[u8], sealed: &[u8]) -> (r: Option<Vec<u8>>)
    requires
        key@.len() == KEY_LEN,
        nonce@.len() == NONCE_LEN,
    ensures
        forall|m: Seq<u8>|
            #[trigger] opens_to(key@, nonce@, aad@, sealed@, m) ==> (r is Some && r->Some_0@ == m),
        r is Some <==> aes_gcm_siv_open(key@, nonce@, aad@, sealed@) is Some,
        r is Some ==> aes_gcm_siv_open(key@, nonce@, aad@, sealed@) == Some(r->Some_0@),
{
    let cipher = aes_gcm_siv::Aes256GcmSiv::new_from_slice(key).ok()?;
    cipher.decrypt(aes_gcm_siv::Nonce::from_slice(nonce), Payload { msg: sealed, aad }).ok()
}

/// The 16 bytes of a uuid, most significant first.
pub open spec fn uuid_bytes(uuid: u128) -> Seq<u8> {
    Seq::new(16, |i: int| crate::bytes::le_bytes(uuid as nat, 16)[15 - i])
}

/// Associated data binding a sealed payload to its header.
pub open spec fn header_aad(uuid: u128, version: u8) -> Seq<u8> {
    uuid_bytes(uuid).push(version)
}

/// The key of a shrine: Argon2id of the passphrase, salted with the uuid.
pub open spec fn shrine_key(password: Seq<u8>, uuid: u128) -> Seq<u8> {
    argon2id_key(password, uuid_bytes(uuid), KDF_MEMORY_KIB, KDF_PASSES, KDF_LANES, KEY_LEN)
}

/// `blob` is `plain` sealed for this passphrase and header, under the nonce it starts with.
pub open spec fn sealed_by(blob: Seq<u8>, plain: Seq<u8>, password: Seq<u8>, uuid: u128, version: u8) -> bool {
    &&& blob.len() >= NONCE_LEN
    &&& blob.subrange(NONCE_LEN as int, blob.len() as int) == aes_gcm_siv_seal(
        shrine_key(password, uuid),
        blob.subrange(0, NONCE_LEN as int),
        header_aad(uuid, version),
        plain,
    )
}

fn uuid_to_bytes(uuid: u128) -> (r: Vec<u8>)
    ensures
        r@ == uuid_bytes(uuid),
{
    let mut le: Vec<u8> = Vec::new();
    crate::bytes::push_le(&mut le, uuid, 16);
    proof {
        crate::bytes::lemma_le_bytes_len(uuid as nat, 16);
    }
    let mut out: Vec<u8> = Vec::new();
    let mut i: usize = 0;
    while i < 16
        invariant
            i <= 16,
            le@ == crate::bytes::le_bytes(uuid as nat, 16),
            le@.len() == 16,
            out@.len() == i,
            forall|j: int| 0 <= j < i ==> out@[j] == #[trigger] uuid_bytes(uuid)[j],
        decreases 16 - i,
    {
        out.push(le[15 - i]);
        i = i + 1;
    }
    assert(out@ =~= uuid_bytes(uuid));
    out
}

/// Seals `plain` for a shrine with this passphrase, uuid and file version.
pub fn encrypt(plain: &[u8], password: &[u8], uuid: u128, version: u8) -> (r: Result<Vec<u8>, Error>)
    ensures
        r is Ok <==> password@.len() <= u32::MAX && plain@.len() <= MAX_MESSAGE_LEN,
        match r {
            Ok(blob) => sealed_by(blob@, plain@, password@, uuid, version) && blob@.len() == NONCE_LEN
                + plain@.len() + TAG_LEN,
            Err(e) => e is CryptoWrite,
        },
{
    let salt = uuid_to_bytes(uuid);
    let key = match argon2id(
        password,
        salt.as_slice(),
        KDF_MEMORY_KIB,
        KDF_PASSES,
        KDF_LANES,
        KEY_LEN,
    ) {
        Some(k) => k,
        None => return Err(Error::CryptoWrite),
    };
    let mut aad = salt;
    aad.push(version);
    let nonce = random_nonce();
    let sealed = match aead_seal(key.as_slice(), nonce.as_slice(), aad.as_slice(), plain) {
        Some(c) => c,
        None => return Err(Error::CryptoWrite),
    };
    let mut blob = nonce;
    let mut i: usize = 0;
    while i < sealed.len()
        invariant
            i <= sealed@.len(),
            blob@ == nonce@ + sealed@.subrange(0, i as int),
        decreases sealed@.len() - i,
    {
        blob.push(sealed[i]);
        i = i + 1;
        assert(blob@ =~= nonce@ + sealed@.subrange(0, i as int));
    }
    assert(blob@.subrange(0, NONCE_LEN as int) =~= nonce@);
    assert(blob@.subrange(NONCE_LEN as int, blob@.len() as int) =~= sealed@);
    Ok(blob)
}

/// What opening `blob` with this passphrase and header gives: the plaintext, or
/// nothing where authentication fails.
pub open spec fn shrine_open(blob: Seq<u8>, password: Seq<u8>, uuid: u128, version: u8) -> Option<Seq<u8>> {
    if blob.len() >= NONCE_LEN {
        aes_gcm_siv_open(
            shrine_key(password, uuid),
            blob.subrange(0, NONCE_LEN as int),
            header_aad(uuid, version),
            blob.subrange(NONCE_LEN as int, blob.len() as int),
        )
    } else {
        None
    }
}

/// Opens a sealed payload of a shrine with this passphrase, uuid and file version.
///
/// A wrong passphrase and altered bytes fail alike, with `CryptoRead`.
pub fn decrypt(blob: &[u8], password: &[u8], uuid: u128, version: u8) -> (r: Result<Vec<u8>, Error>)
    ensures
        forall|plain: Seq<u8>|
            #[trigger] sealed_by(blob@, plain, password@, uuid, version) && plain.len()
                <= MAX_MESSAGE_LEN && password@.len() <= u32::MAX ==> (r matches Ok(x) && x@
                == plain),
        r matches Err(e) ==> e is CryptoRead,
        password@.len() <= u32::MAX ==> match r {
            Ok(x) => shrine_open(blob@, password@, uuid, version) == Some(x@),
            Err(_) => shrine_open(blob@, password@, uuid, version) is None,
        },
{
    if blob.len() < NONCE_LEN {
        return Err(Error::CryptoRead);
    }
    let salt = uuid_to_bytes(uuid);
    let key = match argon2id(
        password,
        salt.as_slice(),
        KDF_MEMORY_KIB,
        KDF_PASSES,
        KDF_LANES,
        KEY_LEN,
    ) {
        Some(k) => k,
        None => return Err(Error::CryptoRead),
    };
    let mut aad = salt;
    aad.push(version);
    let nonce = vstd::slice::slice_subrange(blob, 0, NONCE_LEN);
    let sealed = vstd::slice::slice_subrange(blob, NONCE_LEN, blob.len());
    assert(aad@ == header_aad(uuid, version));
    let r = aead_open(key.as_slice(), nonce, aad.as_slice(), sealed);
    assert forall|plain: Seq<u8>|
        #[trigger] sealed_by(blob@, plain, password@, uuid, version) && plain.len()
            <= MAX_MESSAGE_LEN implies opens_to(key@, nonce@, aad@, sealed@, plain) by {}
    match r {
        Some(m) => Ok(m),
        None => Err(Error::CryptoRead),
    }
}

} // verus!
