//! A shrine stored in a local file, with its state in its type.
//!
//! `LocalShrine<S, E>` is open (`Open`, secrets readable) or closed (`Closed`,
//! payload bytes), and clear (`Clear`) or encrypted (`Aes<P>`, with or without a
//! passphrase). Only the legal transitions exist as methods.
//!
//! File layout: `"shrine" | version (1 byte) | uuid (16 bytes, little-endian) |
//! encryption tag | format tag | payload length (u32, little-endian) | payload`.
use crate::bytes::{le_bytes, le_value, lemma_le_bytes_len, lemma_le_round_trip, push_le, read_le};
use crate::encryption::{
    algorithm_of_tag, algorithm_tag, decrypt, encrypt, sealed_by, shrine_open,
    EncryptionAlgorithm, MAX_MESSAGE_LEN, NONCE_LEN, TAG_LEN,
};
use crate::holder::{
    has_key, holder_wf, keys_of, strings_view, value_of, with_entry, without_key, Holder,
    HolderView,
};
use crate::serialization::{
    deserialize, encode_holder, format_of_tag, format_tag, holder_fits, parse_holder, serialize,
    SerializationFormat,
};
use crate::shrine::{OpenShrine, VERSION};
use crate::values::{wipe_string, Mode, Secret, SecretBytes, SecretView};
use crate::Error;
use vstd::prelude::*;
use vstd::utf8::encode_utf8;

verus! {

/// The header of a shrine file.
#[derive(Clone, Copy, Debug, PartialEq, Eq, Structural)]
pub struct Metadata {
    pub uuid: u128,
    pub encryption_algorithm: EncryptionAlgorithm,
    pub serialization_format: SerializationFormat,
}

/// The six bytes every shrine file starts with: `"shrine"`.
pub open spec fn magic() -> Seq<u8> {
    seq![0x73u8, 0x68u8, 0x72u8, 0x69u8, 0x6eu8, 0x65u8]
}

/// Length of the fixed part of a file: magic, version, metadata, payload length.
pub const HEADER_LEN: usize = 29;

/// The bytes of a shrine file with this header and payload.
pub open spec fn encode_file(m: Metadata, payload: Seq<u8>) -> Seq<u8> {
    magic() + seq![VERSION] + le_bytes(m.uuid as nat, 16) + seq![
        algorithm_tag(m.encryption_algorithm),
        format_tag(m.serialization_format),
    ] + le_bytes(payload.len(), 4) + payload
}

/// `b` starts with the magic and has room for a version byte.
pub open spec fn has_magic(b: Seq<u8>) -> bool {
    b.len() >= 7 && b.subrange(0, 6) == magic()
}

/// The header and payload of a well-formed shrine file.
pub open spec fn decode_file(b: Seq<u8>) -> Option<(Metadata, Seq<u8>)> {
    if b.len() >= HEADER_LEN && has_magic(b) && b[6] == VERSION && algorithm_of_tag(b[23]) is Some
        && format_of_tag(b[24]) is Some && le_value(b.subrange(25, 29)) == b.len() - HEADER_LEN {
        Some(
            (
                Metadata {
                    uuid: le_value(b.subrange(7, 23)) as u128,
                    encryption_algorithm: algorithm_of_tag(b[23])->Some_0,
                    serialization_format: format_of_tag(b[24])->Some_0,
                },
                b.subrange(HEADER_LEN as int, b.len() as int),
            ),
        )
    } else {
        None
    }
}

/// Secrets in memory.
pub struct Open {
    secrets: Holder,
}

/// The payload as stored: encoded, and sealed where the shrine is encrypted.
pub struct Closed {
    bytes: Vec<u8>,
}

/// A passphrase held in memory, wiped when dropped.
pub struct Password {
    value: String,
}

impl Drop for Password {
    fn drop(&mut self)
        opens_invariants none
        no_unwind
    {
        wipe_string(&mut self.value);
    }
}

impl View for Password {
    type V = Seq<char>;

    closed spec fn view(&self) -> Seq<char> {
        self.value@
    }
}

/// No passphrase is held.
#[derive(Clone, Copy, Debug)]
pub struct NoPassword;

/// The payload is sealed with AES-256-GCM-SIV.
#[derive(Debug)]
pub struct Aes<P> {
    password: P,
}

/// The payload is stored as is.
#[derive(Clone, Copy, Debug)]
pub struct Clear;

impl<P> Aes<P> {
    /// The passphrase state held.
    pub closed spec fn held(&self) -> P {
        self.password
    }
}

/// The encryption a type state stands for.
pub trait EncryptionKind {
    spec fn spec_algorithm() -> EncryptionAlgorithm;

    fn algorithm() -> (r: EncryptionAlgorithm)
        ensures
            r == Self::spec_algorithm(),
    ;
}

impl EncryptionKind for Clear {
    open spec fn spec_algorithm() -> EncryptionAlgorithm {
        EncryptionAlgorithm::Plain
    }

    fn algorithm() -> (r: EncryptionAlgorithm) {
        EncryptionAlgorithm::Plain
    }
}

impl<P> EncryptionKind for Aes<P> {
    open spec fn spec_algorithm() -> EncryptionAlgorithm {
        EncryptionAlgorithm::Aes
    }

    fn algorithm() -> (r: EncryptionAlgorithm) {
        EncryptionAlgorithm::Aes
    }
}

/// A shrine held in memory, for a local file. Its encryption is the one its type
/// state `E` stands for.
pub struct LocalShrine<S, E> {
    uuid: u128,
    serialization_format: SerializationFormat,
    payload: S,
    encryption: E,
}

/// The seconds since the Unix epoch, now.
///
/// Relies on `chrono::Utc::now` and `DateTime::timestamp`; nothing is promised of
/// the value.
#[verifier::external_body]
fn now_seconds() -> (r: i64) {
    chrono::Utc::now().timestamp()
}

/// A new random uuid.
///
/// Relies on `uuid::Uuid::new_v4` and `Uuid::as_u128`: a random version-4 uuid.
#[verifier::external_body]
pub(crate) fn fresh_uuid() -> (r: u128)
    ensures
        (r >> 76u128) & 0xfu128 == 4,
{
    uuid::Uuid::new_v4().as_u128()
}

/// A key that names the private namespace: it starts with a dot.
pub open spec fn is_dotted(k: Seq<char>) -> bool {
    k.len() > 0 && k[0] == '.'
}

/// A dotted key without its dot.
pub open spec fn undotted(k: Seq<char>) -> Seq<char> {
    k.subrange(1, k.len() as int)
}

/// What the open holder `h` holds under key `k`, private keys being dotted.
pub open spec fn lookup(h: HolderView, k: Seq<char>) -> Option<SecretView> {
    if is_dotted(k) {
        value_of(h.private, undotted(k))
    } else {
        value_of(h.public, k)
    }
}

/// Whether `set(k, ..)` is accepted on `h`.
pub open spec fn can_set(h: HolderView, k: Seq<char>) -> bool {
    if is_dotted(k) {
        undotted(k).len() > 0 && !has_key(h.public, undotted(k))
    } else {
        k.len() > 0 && !has_key(h.private, k)
    }
}

/// `h` after storing `v` under `k`, private keys being dotted.
pub open spec fn after_set(h: HolderView, k: Seq<char>, v: SecretView) -> HolderView {
    if is_dotted(k) {
        HolderView { public: h.public, private: with_entry(h.private, undotted(k), v) }
    } else {
        HolderView { public: with_entry(h.public, k, v), private: h.private }
    }
}

/// `h` after removing `k`, private keys being dotted.
pub open spec fn after_rm(h: HolderView, k: Seq<char>) -> HolderView {
    if is_dotted(k) {
        HolderView { public: h.public, private: without_key(h.private, undotted(k)) }
    } else {
        HolderView { public: without_key(h.public, k), private: h.private }
    }
}

/// Whether `k` starts with a dot.
fn dotted(k: &str) -> (r: bool)
    ensures
        r == is_dotted(k@),
{
    if k.is_empty() {
        false
    } else {
        k.get_char(0) == '.'
    }
}

impl<S, E: EncryptionKind> LocalShrine<S, E> {
    /// The header of this shrine.
    pub closed spec fn meta(&self) -> Metadata {
        Metadata {
            uuid: self.uuid,
            encryption_algorithm: E::spec_algorithm(),
            serialization_format: self.serialization_format,
        }
    }

    /// The type state of this shrine's encryption.
    pub closed spec fn enc(&self) -> E {
        self.encryption
    }

    pub fn uuid(&self) -> (r: u128)
        ensures
            r == self.meta().uuid,
    {
        self.uuid
    }

    pub fn version(&self) -> (r: u8)
        ensures
            r == VERSION,
    {
        VERSION
    }

    pub fn serialization_format(&self) -> (r: SerializationFormat)
        ensures
            r == self.meta().serialization_format,
    {
        self.serialization_format
    }

    pub fn encryption_algorithm(&self) -> (r: EncryptionAlgorithm)
        ensures
            r == self.meta().encryption_algorithm,
    {
        E::algorithm()
    }

    pub fn metadata(&self) -> (r: Metadata)
        ensures
            r == self.meta(),
    {
        Metadata {
            uuid: self.uuid,
            encryption_algorithm: E::algorithm(),
            serialization_format: self.serialization_format,
        }
    }
}

/// A shrine's header names the encryption of its type state.
pub broadcast proof fn lemma_meta_algorithm<S, E: EncryptionKind>(s: LocalShrine<S, E>)
    ensures
        #[trigger] s.meta().encryption_algorithm == E::spec_algorithm(),
{
}

impl<E: EncryptionKind> LocalShrine<Closed, E> {
    /// The stored payload.
    pub closed spec fn payload_bytes(&self) -> Seq<u8> {
        self.payload.bytes@
    }

    /// Appends the file bytes of this shrine to `out`.
    pub fn write(&self, out: &mut Vec<u8>) -> (r: Result<(), Error>)
        ensures
            r is Ok <==> self.payload_bytes().len() <= u32::MAX,
            match r {
                Ok(_) => final(out)@ == old(out)@ + encode_file(self.meta(), self.payload_bytes()),
                Err(e) => final(out)@ == old(out)@ && e is TooLarge,
            },
    {
        if self.payload.bytes.len() > 0xFFFF_FFFFusize {
            return Err(Error::TooLarge);
        }
        out.push(0x73u8);
        out.push(0x68u8);
        out.push(0x72u8);
        out.push(0x69u8);
        out.push(0x6eu8);
        out.push(0x65u8);
        out.push(VERSION);
        push_le(out, self.uuid, 16);
        out.push(E::algorithm().tag());
        out.push(self.serialization_format.tag());
        push_le(out, self.payload.bytes.len() as u128, 4);
        let mut i: usize = 0;
        let ghost head = out@;
        while i < self.payload.bytes.len()
            invariant
                i <= self.payload.bytes@.len(),
                out@ == head + self.payload.bytes@.subrange(0, i as int),
            decreases self.payload.bytes@.len() - i,
        {
            out.push(self.payload.bytes[i]);
            i = i + 1;
            assert(out@ =~= head + self.payload.bytes@.subrange(0, i as int));
        }
        assert(self.payload.bytes@.subrange(0, i as int) =~= self.payload.bytes@);
        assert(out@ =~= old(out)@ + encode_file(self.meta(), self.payload_bytes()));
        Ok(())
    }

    /// The file bytes of this shrine.
    pub fn try_to_bytes(&self) -> (r: Result<Vec<u8>, Error>)
        ensures
            r is Ok <==> self.payload_bytes().len() <= u32::MAX,
            match r {
                Ok(b) => b@ == encode_file(self.meta(), self.payload_bytes()),
                Err(e) => e is TooLarge,
            },
    {
        let mut buffer: Vec<u8> = Vec::new();
        match self.write(&mut buffer) {
            Ok(_) => {
                assert(buffer@ =~= encode_file(self.meta(), self.payload_bytes()));
                Ok(buffer)
            },
            Err(e) => Err(e),
        }
    }
}

impl<E: EncryptionKind> LocalShrine<Open, E> {
    /// The secrets of this open shrine.
    pub closed spec fn holder(&self) -> HolderView {
        self.payload.secrets@
    }

    /// Stores a secret created at `created_at`; a leading dot routes `key` to the
    /// private namespace.
    pub fn set_at(&mut self, key: &str, value: &[u8], mode: Mode, created_at: i64) -> (r: Result<
        (),
        Error,
    >)
        ensures
            final(self).enc() == old(self).enc(),
            final(self).meta() == old(self).meta(),
            r is Ok <==> can_set(old(self).holder(), key@),
            match r {
                Ok(_) => final(self).holder() == after_set(
                    old(self).holder(),
                    key@,
                    SecretView { value: value@, mode, created_at },
                ),
                Err(e) => final(self).holder() == old(self).holder() && (e matches Error::InvalidKey(
                    k,
                ) && k@ == key@),
            },
    {
        let secret = Secret::new(SecretBytes::from_slice(value), mode, created_at);
        let res = if dotted(key) {
            let k = key.substring_char(1, key.unicode_len());
            self.payload.secrets.set_private(k, secret)
        } else {
            self.payload.secrets.set(key, secret)
        };
        match res {
            Ok(_) => Ok(()),
            Err(_) => Err(Error::InvalidKey(key.to_owned())),
        }
    }

    /// Stores a secret created now; a leading dot routes `key` to the private namespace.
    pub fn set(&mut self, key: &str, value: &[u8], mode: Mode) -> (r: Result<(), Error>)
        ensures
            final(self).enc() == old(self).enc(),
            final(self).meta() == old(self).meta(),
            r is Ok <==> can_set(old(self).holder(), key@),
            match r {
                Ok(_) => exists|c: i64|
                    final(self).holder() == after_set(
                        old(self).holder(),
                        key@,
                        SecretView { value: value@, mode, created_at: c },
                    ),
                Err(e) => final(self).holder() == old(self).holder() && (e matches Error::InvalidKey(
                    k,
                ) && k@ == key@),
            },
    {
        let now = now_seconds();
        self.set_at(key, value, mode, now)
    }

    /// The secret under `key`; a leading dot routes it to the private namespace.
    pub fn get(&self, key: &str) -> (r: Result<&Secret, Error>)
        ensures
            match r {
                Ok(s) => lookup(self.holder(), key@) == Some(s@),
                Err(e) => lookup(self.holder(), key@) is None && (e matches Error::KeyNotFound(k)
                    && k@ == key@),
            },
    {
        let res = if dotted(key) {
            let k = key.substring_char(1, key.unicode_len());
            self.payload.secrets.get_private(k)
        } else {
            self.payload.secrets.get(key)
        };
        match res {
            Ok(s) => Ok(s),
            Err(_) => Err(Error::KeyNotFound(key.to_owned())),
        }
    }

    /// Removes the secret under `key`; whether there was one.
    pub fn rm(&mut self, key: &str) -> (r: bool)
        ensures
            final(self).enc() == old(self).enc(),
            final(self).meta() == old(self).meta(),
            r == lookup(old(self).holder(), key@) is Some,
            final(self).holder() == after_rm(old(self).holder(), key@),
    {
        if dotted(key) {
            let k = key.substring_char(1, key.unicode_len());
            self.payload.secrets.remove_private(k)
        } else {
            self.payload.secrets.remove(key)
        }
    }

    /// The public keys, in storage order.
    pub fn keys(&self) -> (r: Vec<String>)
        ensures
            strings_view(r@) == keys_of(self.holder().public),
    {
        self.payload.secrets.keys()
    }

    /// The private keys, without their dot, in storage order.
    pub fn keys_private(&self) -> (r: Vec<String>)
        ensures
            strings_view(r@) == keys_of(self.holder().private),
    {
        self.payload.secrets.keys_private()
    }

    /// Replaces the secrets of `other` with those of this shrine; `other` keeps its
    /// identity and metadata.
    pub fn mv(self, other: &mut OpenShrine)
        ensures
            *old(other) matches OpenShrine::LocalAes(a) ==> (*final(other) matches OpenShrine::LocalAes(b)
                && b.password() == a.password()),
            final(other).meta() == old(other).meta(),
            final(other).holder() == self.holder(),
            *final(other) is LocalClear <==> *old(other) is LocalClear,
    {
        match other {
            OpenShrine::LocalClear(s) => {
                s.payload = self.payload;
            },
            OpenShrine::LocalAes(s) => {
                s.payload = self.payload;
            },
        }
    }

    /// Makes the namespace rules of this shrine's holder known to the caller's proof;
    /// it does nothing at run time.
    pub fn establish_wf(&self)
        ensures
            holder_wf(self.holder()),
    {
        self.payload.secrets.establish_wf();
    }

    /// Records `format` as the payload format of this shrine. Only the binary
    /// document format is stored: closing under another format fails.
    pub fn with_serialization_format(&mut self, format: SerializationFormat)
        ensures
            final(self).enc() == old(self).enc(),
            final(self).meta() == (Metadata { serialization_format: format, ..old(self).meta() }),
            final(self).holder() == old(self).holder(),
    {
        self.serialization_format = format;
    }

    /// The same secrets under another uuid.
    pub fn with_uuid(self, uuid: u128) -> (r: LocalShrine<Open, E>)
        ensures
            r.meta() == (Metadata { uuid, ..self.meta() }),
            r.holder() == self.holder(),
    {
        LocalShrine {
            uuid,
            serialization_format: self.serialization_format,
            payload: self.payload,
            encryption: self.encryption,
        }
    }
}

impl<P> LocalShrine<Open, Aes<P>> {
    /// The same secrets, to be stored in clear.
    pub fn into_clear(self) -> (r: LocalShrine<Open, Clear>)
        ensures
            r.meta() == (Metadata {
                encryption_algorithm: EncryptionAlgorithm::Plain,
                ..self.meta()
            }),
            r.holder() == self.holder(),
    {
        LocalShrine {
            uuid: self.uuid,
            serialization_format: self.serialization_format,
            payload: self.payload,
            encryption: Clear,
        }
    }

    /// The same secrets, to be sealed with `password`.
    pub fn set_password(self, password: String) -> (r: LocalShrine<Open, Aes<Password>>)
        ensures
            r.meta() == self.meta(),
            r.holder() == self.holder(),
            r.password() == password@,
    {
        LocalShrine {
            uuid: self.uuid,
            serialization_format: self.serialization_format,
            payload: self.payload,
            encryption: Aes { password: Password { value: password } },
        }
    }
}

impl LocalShrine<Open, Aes<NoPassword>> {
    /// A new, empty, encrypted shrine with a fresh uuid and the default format.
    pub fn new() -> (r: Self)
        ensures
            r.meta().encryption_algorithm == EncryptionAlgorithm::Aes,
            r.meta().serialization_format == SerializationFormat::BinaryDoc,
            r.holder().public == Seq::<(Seq<char>, SecretView)>::empty(),
            r.holder().private == Seq::<(Seq<char>, SecretView)>::empty(),
    {
        LocalShrine {
            uuid: fresh_uuid(),
            serialization_format: SerializationFormat::BinaryDoc,
            payload: Open { secrets: Holder::new() },
            encryption: Aes { password: NoPassword },
        }
    }

    /// Seals the secrets with `password`.
    pub fn close(self, password: String) -> (r: Result<LocalShrine<Closed, Aes<NoPassword>>, Error>)
        ensures
            aes_close_owed(self.meta(), self.holder(), password@) ==> r is Ok,
            match r {
                Ok(c) => c.meta() == self.meta() && sealed_by(
                    c.payload_bytes(),
                    encode_holder(self.holder()),
                    encode_utf8(password@),
                    self.meta().uuid,
                    VERSION,
                ) && c.meta().encryption_algorithm == EncryptionAlgorithm::Aes && aes_close_owed(
                    self.meta(),
                    self.holder(),
                    password@,
                ) && c.payload_bytes().len()
                    == NONCE_LEN + encode_holder(self.holder()).len() + TAG_LEN,
                Err(e) => e is TooLarge || e is CryptoWrite || e is InvalidFile,
            },
    {
        self.set_password(password).close()
    }
}

impl Default for LocalShrine<Open, Aes<NoPassword>> {
    fn default() -> (r: Self)
        ensures
            r.meta().encryption_algorithm == EncryptionAlgorithm::Aes,
            r.meta().serialization_format == SerializationFormat::BinaryDoc,
            r.holder().public == Seq::<(Seq<char>, SecretView)>::empty(),
            r.holder().private == Seq::<(Seq<char>, SecretView)>::empty(),
    {
        Self::new()
    }
}

/// Closing is owed: the format is the stored one, the holder fits its frames, and
/// the encoding and passphrase fit the cipher and key derivation.
pub open spec fn aes_close_owed(m: Metadata, h: HolderView, password: Seq<char>) -> bool {
    &&& m.serialization_format == SerializationFormat::BinaryDoc
    &&& holder_fits(h)
    &&& encode_holder(h).len() <= MAX_MESSAGE_LEN
    &&& encode_utf8(password).len() <= u32::MAX
}

/// Closing in clear is owed: the format is the stored one and the holder fits.
pub open spec fn clear_close_owed(m: Metadata, h: HolderView) -> bool {
    m.serialization_format == SerializationFormat::BinaryDoc && holder_fits(h)
}

impl LocalShrine<Open, Aes<Password>> {
    /// The passphrase held.
    pub open spec fn password(&self) -> Seq<char> {
        self.enc().held()@
    }

    /// The same secrets and passphrase under another uuid.
    pub fn with_uuid_keeping_password(self, uuid: u128) -> (r: LocalShrine<Open, Aes<Password>>)
        ensures
            r.meta() == (Metadata { uuid, ..self.meta() }),
            r.holder() == self.holder(),
            r.password() == self.password(),
    {
        LocalShrine {
            uuid,
            serialization_format: self.serialization_format,
            payload: self.payload,
            encryption: self.encryption,
        }
    }

    /// Seals the secrets with the passphrase held, which is then dropped.
    pub fn close(self) -> (r: Result<LocalShrine<Closed, Aes<NoPassword>>, Error>)
        ensures
            aes_close_owed(self.meta(), self.holder(), self.password()) ==> r is Ok,
            match r {
                Ok(c) => c.meta() == self.meta() && sealed_by(
                    c.payload_bytes(),
                    encode_holder(self.holder()),
                    encode_utf8(self.password()),
                    self.meta().uuid,
                    VERSION,
                ) && c.meta().encryption_algorithm == EncryptionAlgorithm::Aes && aes_close_owed(
                    self.meta(),
                    self.holder(),
                    self.password(),
                ) && c.payload_bytes().len()
                    == NONCE_LEN + encode_holder(self.holder()).len() + TAG_LEN,
                Err(e) => e is TooLarge || e is CryptoWrite || e is InvalidFile,
            },
    {
        if self.serialization_format != SerializationFormat::BinaryDoc {
            return Err(Error::InvalidFile("only the binary document format is stored".to_owned()));
        }
        let clear_bytes = serialize(&self.payload.secrets)?;
        let cipher_bytes = encrypt(
            clear_bytes.as_slice(),
            self.encryption.password.value.as_str().as_bytes(),
            self.uuid,
            VERSION,
        )?;
        Ok(
            LocalShrine {
                uuid: self.uuid,
            serialization_format: self.serialization_format,
                payload: Closed { bytes: cipher_bytes },
                encryption: Aes { password: NoPassword },
            },
        )
    }
}

impl LocalShrine<Open, Clear> {
    /// The same secrets, to be sealed once a passphrase is given.
    pub fn into_aes(self) -> (r: LocalShrine<Open, Aes<NoPassword>>)
        ensures
            r.meta() == (Metadata { encryption_algorithm: EncryptionAlgorithm::Aes, ..self.meta() }),
            r.holder() == self.holder(),
    {
        LocalShrine {
            uuid: self.uuid,
            serialization_format: self.serialization_format,
            payload: self.payload,
            encryption: Aes { password: NoPassword },
        }
    }

    /// The same secrets, to be sealed with `password`.
    pub fn into_aes_with_password(self, password: String) -> (r: LocalShrine<Open, Aes<Password>>)
        ensures
            r.meta() == (Metadata { encryption_algorithm: EncryptionAlgorithm::Aes, ..self.meta() }),
            r.holder() == self.holder(),
            r.password() == password@,
    {
        self.into_aes().set_password(password)
    }

    /// Encodes the secrets as the stored payload.
    pub fn close(self) -> (r: Result<LocalShrine<Closed, Clear>, Error>)
        ensures
            r is Ok <==> clear_close_owed(self.meta(), self.holder()),
            match r {
                Ok(c) => c.meta() == self.meta() && c.meta().encryption_algorithm
                    == EncryptionAlgorithm::Plain && c.payload_bytes() == encode_holder(self.holder()),
                Err(e) => e is TooLarge || e is InvalidFile,
            },
    {
        if self.serialization_format != SerializationFormat::BinaryDoc {
            return Err(Error::InvalidFile("only the binary document format is stored".to_owned()));
        }
        let bytes = serialize(&self.payload.secrets)?;
        Ok(LocalShrine { uuid: self.uuid,
            serialization_format: self.serialization_format, payload: Closed { bytes }, encryption: Clear })
    }
}

/// What a stored clear payload opens to, if anything.
pub open spec fn open_clear(m: Metadata, payload: Seq<u8>) -> Option<HolderView> {
    if m.serialization_format == SerializationFormat::BinaryDoc {
        parse_holder(payload)
    } else {
        None
    }
}

impl LocalShrine<Closed, Clear> {
    /// Decodes the payload.
    pub fn open(self) -> (r: Result<LocalShrine<Open, Clear>, Error>)
        ensures
            r is Ok <==> open_clear(self.meta(), self.payload_bytes()) is Some,
            match r {
                Ok(o) => o.meta() == self.meta() && Some(o.holder()) == open_clear(
                    self.meta(),
                    self.payload_bytes(),
                ),
                Err(e) => e is InvalidFile,
            },
    {
        if self.serialization_format != SerializationFormat::BinaryDoc {
            return Err(Error::InvalidFile("only the binary document format is stored".to_owned()));
        }
        let secrets = deserialize(self.payload.bytes.as_slice())?;
        Ok(LocalShrine { uuid: self.uuid,
            serialization_format: self.serialization_format, payload: Open { secrets }, encryption: Clear })
    }
}

impl LocalShrine<Closed, Aes<NoPassword>> {
    /// Opens the payload with `password`. A wrong passphrase and altered bytes both
    /// give `CryptoRead`.
    pub fn open(self, password: String) -> (r: Result<LocalShrine<Open, Aes<Password>>, Error>)
        ensures
            forall|plain: Seq<u8>|
                #[trigger] sealed_by(
                    self.payload_bytes(),
                    plain,
                    encode_utf8(password@),
                    self.meta().uuid,
                    VERSION,
                ) && plain.len() <= MAX_MESSAGE_LEN && encode_utf8(password@).len() <= u32::MAX
                    ==> (r is Ok <==> open_clear(self.meta(), plain) is Some) && (r is Ok
                    ==> Some(r->Ok_0.holder()) == open_clear(self.meta(), plain)),
            match r {
                Ok(o) => o.meta() == self.meta() && o.password() == password@,
                Err(e) => e is CryptoRead || e is InvalidFile,
            },
            encode_utf8(password@).len() <= u32::MAX ==> match shrine_open(
                self.payload_bytes(),
                encode_utf8(password@),
                self.meta().uuid,
                VERSION,
            ) {
                None => r matches Err(e) && e is CryptoRead,
                Some(plain) => (r is Ok <==> open_clear(self.meta(), plain) is Some) && (r is Ok
                    ==> Some(r->Ok_0.holder()) == open_clear(self.meta(), plain)) && (r is Err
                    ==> r->Err_0 is InvalidFile),
            },
    {
        let clear_bytes = decrypt(
            self.payload.bytes.as_slice(),
            password.as_str().as_bytes(),
            self.uuid,
            VERSION,
        )?;
        if self.serialization_format != SerializationFormat::BinaryDoc {
            return Err(Error::InvalidFile("only the binary document format is stored".to_owned()));
        }
        let secrets = deserialize(clear_bytes.as_slice())?;
        Ok(
            LocalShrine {
                uuid: self.uuid,
            serialization_format: self.serialization_format,
                payload: Open { secrets },
                encryption: Aes { password: Password { value: password } },
            },
        )
    }
}

/// A shrine read from file bytes, by encryption.
pub enum LoadedShrine {
    Clear(LocalShrine<Closed, Clear>),
    Aes(LocalShrine<Closed, Aes<NoPassword>>),
}

impl LoadedShrine {
    pub open spec fn meta(&self) -> Metadata {
        match self {
            LoadedShrine::Clear(s) => s.meta(),
            LoadedShrine::Aes(s) => s.meta(),
        }
    }

    pub open spec fn payload_bytes(&self) -> Seq<u8> {
        match self {
            LoadedShrine::Clear(s) => s.payload_bytes(),
            LoadedShrine::Aes(s) => s.payload_bytes(),
        }
    }

    /// Reads a shrine from the bytes of its file.
    ///
    /// The magic is checked first, then the version; only then the rest.
    pub fn try_from_bytes(bytes: &[u8]) -> (r: Result<LoadedShrine, Error>)
        ensures
            !has_magic(bytes@) ==> (r matches Err(e) && e is InvalidFile),
            has_magic(bytes@) && bytes@[6] > VERSION ==> (r matches Err(e) && e
                == Error::UnsupportedVersion(bytes@[6])),
            r matches Err(e) && e is UnsupportedVersion ==> has_magic(bytes@) && bytes@[6] > VERSION,
            match r {
                Ok(s) => decode_file(bytes@) == Some((s.meta(), s.payload_bytes())) && (s is Aes
                    <==> s.meta().encryption_algorithm == EncryptionAlgorithm::Aes),
                Err(e) => decode_file(bytes@) is None && (e is InvalidFile || e is UnsupportedVersion),
            },
    {
        if bytes.len() < 7 || bytes[0] != 0x73u8 || bytes[1] != 0x68u8 || bytes[2] != 0x72u8
            || bytes[3] != 0x69u8 || bytes[4] != 0x6eu8 || bytes[5] != 0x65u8 {
            proof {
                if bytes@.len() >= 7 {
                    if bytes@.subrange(0, 6) == magic() {
                        assert(bytes@[0] == bytes@.subrange(0, 6)[0]);
                        assert(bytes@[1] == bytes@.subrange(0, 6)[1]);
                        assert(bytes@[2] == bytes@.subrange(0, 6)[2]);
                        assert(bytes@[3] == bytes@.subrange(0, 6)[3]);
                        assert(bytes@[4] == bytes@.subrange(0, 6)[4]);
                        assert(bytes@[5] == bytes@.subrange(0, 6)[5]);
                    }
                }
            }
            return Err(Error::InvalidFile("not a shrine file".to_owned()));
        }
        assert(bytes@.subrange(0, 6) =~= magic());
        if bytes[6] > VERSION {
            return Err(Error::UnsupportedVersion(bytes[6]));
        }
        if bytes.len() < HEADER_LEN {
            return Err(Error::InvalidFile("truncated header".to_owned()));
        }
        let uuid = read_le(bytes, 7, 16);
        let encryption_algorithm = match EncryptionAlgorithm::from_tag(bytes[23]) {
            Some(a) => a,
            None => return Err(Error::InvalidFile("unknown encryption tag".to_owned())),
        };
        let serialization_format = match SerializationFormat::from_tag(bytes[24]) {
            Some(f) => f,
            None => return Err(Error::InvalidFile("unknown format tag".to_owned())),
        };
        let len = read_le(bytes, 25, 4);
        if len != (bytes.len() - HEADER_LEN) as u128 {
            return Err(Error::InvalidFile("payload length does not match".to_owned()));
        }
        let payload = vstd::slice::slice_to_vec(
            vstd::slice::slice_subrange(bytes, HEADER_LEN, bytes.len()),
        );
        let payload = Closed { bytes: payload };
        match encryption_algorithm {
            EncryptionAlgorithm::Aes => Ok(
                LoadedShrine::Aes(
                    LocalShrine {
                        uuid,
                        serialization_format,
                        payload,
                        encryption: Aes { password: NoPassword },
                    },
                ),
            ),
            EncryptionAlgorithm::Plain => Ok(
                LoadedShrine::Clear(
                    LocalShrine { uuid, serialization_format, payload, encryption: Clear },
                ),
            ),
        }
    }
}

/// The file of a shrine reads back as its header and payload.
pub proof fn lemma_file_round_trip(m: Metadata, payload: Seq<u8>)
    requires
        payload.len() <= u32::MAX,
    ensures
        decode_file(encode_file(m, payload)) == Some((m, payload)),
{
    let b = encode_file(m, payload);
    lemma_le_bytes_len(m.uuid as nat, 16);
    lemma_le_bytes_len(payload.len(), 4);
    crate::bytes::lemma_pow256_16();
    reveal_with_fuel(crate::bytes::pow256, 5);
    lemma_le_round_trip(m.uuid as nat, 16);
    lemma_le_round_trip(payload.len(), 4);
    assert(b.subrange(0, 6) =~= magic());
    assert(b.subrange(7, 23) =~= le_bytes(m.uuid as nat, 16));
    assert(b.subrange(25, 29) =~= le_bytes(payload.len(), 4));
    assert(b.subrange(HEADER_LEN as int, b.len() as int) =~= payload);
}

/// Opening the closed form of a clear shrine gives back its secrets: what `close`
/// stores for holder `h` opens, through `open`, to `h`.
pub proof fn law_clear_round_trip(m: Metadata, h: HolderView)
    requires
        holder_wf(h),
        clear_close_owed(m, h),
    ensures
        open_clear(m, encode_holder(h)) == Some(h),
{
    crate::serialization::lemma_parse_encode(h);
}

/// Opening the sealed form of an encrypted shrine with the passphrase it was closed
/// with gives back its secrets: whatever nonce `close` drew, its output `blob` meets
/// the premise under which `open` returns `h`.
pub proof fn law_encrypted_round_trip(m: Metadata, h: HolderView, password: Seq<char>, blob: Seq<u8>)
    requires
        holder_wf(h),
        aes_close_owed(m, h, password),
        sealed_by(blob, encode_holder(h), encode_utf8(password), m.uuid, VERSION),
    ensures
        encode_holder(h).len() <= MAX_MESSAGE_LEN,
        encode_utf8(password).len() <= u32::MAX,
        open_clear(m, encode_holder(h)) == Some(h),
{
    crate::serialization::lemma_parse_encode(h);
}

/// A key without a leading dot is stored in the public namespace: it reads back, and
/// its dotted form does not; a dotted key is stored in the private namespace, and its
/// undotted form does not read it.
pub proof fn law_namespace_routing(h: HolderView, k: Seq<char>, v: SecretView)
    requires
        holder_wf(h),
        can_set(h, k),
    ensures
        lookup(after_set(h, k, v), k) == Some(v),
        !is_dotted(k) ==> lookup(after_set(h, k, v), seq!['.'] + k) is None,
        is_dotted(k) ==> lookup(after_set(h, k, v), undotted(k)) is None || is_dotted(undotted(k)),
{
    if is_dotted(k) {
        crate::holder::lemma_with_entry_keys(h.private, undotted(k), v);
        let u = undotted(k);
        if !is_dotted(u) {
            assert(!has_key(h.public, u));
        }
    } else {
        crate::holder::lemma_with_entry_keys(h.public, k, v);
        let d = seq!['.'] + k;
        assert(is_dotted(d));
        assert(undotted(d) =~= k);
        assert(!has_key(h.private, k));
    }
}

} // verus!
