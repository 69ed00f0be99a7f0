//! Shrines in either state, whatever their encryption.
use crate::encryption::{sealed_by, EncryptionAlgorithm, MAX_MESSAGE_LEN};
use crate::holder::{keys_of, strings_view, HolderView};
use crate::serialization::SerializationFormat;
use crate::shrine::local::{
    after_rm, after_set, can_set, fresh_uuid, lookup, open_clear, Aes, Clear, Closed, LoadedShrine,
    LocalShrine, Metadata, NoPassword, Open, Password,
};
use crate::values::{Mode, Secret, SecretView};
use crate::Error;
use vstd::utf8::encode_utf8;
use vstd::prelude::*;

pub mod local;

verus! {

broadcast use crate::shrine::local::lemma_meta_algorithm;

/// Highest file version this library reads and the one it writes.
pub const VERSION: u8 = 0;

/// A closed shrine.
pub enum ClosedShrine {
    LocalClear(LocalShrine<Closed, Clear>),
    LocalAes(LocalShrine<Closed, Aes<NoPassword>>),
}

/// An open shrine.
pub enum OpenShrine {
    LocalClear(LocalShrine<Open, Clear>),
    LocalAes(LocalShrine<Open, Aes<Password>>),
}

impl OpenShrine {
    pub open spec fn meta(&self) -> Metadata {
        match self {
            OpenShrine::LocalClear(s) => s.meta(),
            OpenShrine::LocalAes(s) => s.meta(),
        }
    }

    pub open spec fn holder(&self) -> HolderView {
        match self {
            OpenShrine::LocalClear(s) => s.holder(),
            OpenShrine::LocalAes(s) => s.holder(),
        }
    }

    /// The header names the encryption of the variant.
    pub open spec fn consistent(&self) -> bool {
        match self {
            OpenShrine::LocalClear(s) => s.meta().encryption_algorithm == EncryptionAlgorithm::Plain,
            OpenShrine::LocalAes(s) => s.meta().encryption_algorithm == EncryptionAlgorithm::Aes,
        }
    }
}

impl ClosedShrine {
    pub open spec fn meta(&self) -> Metadata {
        match self {
            ClosedShrine::LocalClear(s) => s.meta(),
            ClosedShrine::LocalAes(s) => s.meta(),
        }
    }

    pub open spec fn payload_bytes(&self) -> Seq<u8> {
        match self {
            ClosedShrine::LocalClear(s) => s.payload_bytes(),
            ClosedShrine::LocalAes(s) => s.payload_bytes(),
        }
    }

    /// The header names the encryption of the variant.
    pub open spec fn consistent(&self) -> bool {
        match self {
            ClosedShrine::LocalClear(s) => s.meta().encryption_algorithm == EncryptionAlgorithm::Plain,
            ClosedShrine::LocalAes(s) => s.meta().encryption_algorithm == EncryptionAlgorithm::Aes,
        }
    }
}

impl From<LoadedShrine> for ClosedShrine {
    fn from(value: LoadedShrine) -> ClosedShrine {
        match value {
            LoadedShrine::Clear(s) => ClosedShrine::LocalClear(s),
            LoadedShrine::Aes(s) => ClosedShrine::LocalAes(s),
        }
    }
}

impl vstd::std_specs::convert::FromSpecImpl<LoadedShrine> for ClosedShrine {
    open spec fn obeys_from_spec() -> bool {
        true
    }

    open spec fn from_spec(value: LoadedShrine) -> ClosedShrine {
        match value {
            LoadedShrine::Clear(s) => ClosedShrine::LocalClear(s),
            LoadedShrine::Aes(s) => ClosedShrine::LocalAes(s),
        }
    }
}

/// Reads a closed shrine from the bytes of its file.
pub fn new(bytes: &[u8]) -> (r: Result<ClosedShrine, Error>)
    ensures
        match r {
            Ok(s) => crate::shrine::local::decode_file(bytes@) == Some((s.meta(), s.payload_bytes()))
                && s.consistent(),
            Err(e) => crate::shrine::local::decode_file(bytes@) is None && (e is InvalidFile
                || e is UnsupportedVersion),
        },
{
    match LoadedShrine::try_from_bytes(bytes) {
        Ok(l) => Ok(ClosedShrine::from(l)),
        Err(e) => Err(e),
    }
}

impl ClosedShrine {
    /// Opens the shrine; an encrypted one asks `password_provider` for the passphrase
    /// of its uuid.
    pub fn open<F: FnOnce(u128) -> String>(self, password_provider: F) -> (r: Result<
        OpenShrine,
        Error,
    >)
        requires
            password_provider.requires((self.meta().uuid,)),
        ensures
            match r {
                Ok(o) => o.meta() == self.meta() && (o is LocalAes <==> self is LocalAes),
                Err(e) => e is InvalidFile || e is CryptoRead,
            },
            self is LocalClear ==> (r is Ok <==> open_clear(self.meta(), self.payload_bytes()) is Some)
                && (r is Ok ==> Some(r->Ok_0.holder()) == open_clear(
                self.meta(),
                self.payload_bytes(),
            )),
            self is LocalAes ==> exists|p: String|
                password_provider.ensures((self.meta().uuid,), p) && (r matches Ok(o) ==> (
                o matches OpenShrine::LocalAes(a) && a.password() == p@)) && forall|plain: Seq<u8>|
                    #[trigger] sealed_by(
                        self.payload_bytes(),
                        plain,
                        encode_utf8(p@),
                        self.meta().uuid,
                        VERSION,
                    ) && plain.len() <= MAX_MESSAGE_LEN && encode_utf8(p@).len() <= u32::MAX
                        ==> (r is Ok <==> open_clear(self.meta(), plain) is Some) && (r is Ok
                        ==> Some(r->Ok_0.holder()) == open_clear(self.meta(), plain)),
    {
        match self {
            ClosedShrine::LocalClear(s) => match s.open() {
                Ok(o) => Ok(OpenShrine::LocalClear(o)),
                Err(e) => Err(e),
            },
            ClosedShrine::LocalAes(s) => {
                let uuid = s.uuid();
                let password = password_provider(uuid);
                match s.open(password) {
                    Ok(o) => Ok(OpenShrine::LocalAes(o)),
                    Err(e) => Err(e),
                }
            },
        }
    }

    pub fn uuid(&self) -> (r: u128)
        ensures
            r == self.meta().uuid,
    {
        match self {
            ClosedShrine::LocalClear(s) => s.uuid(),
            ClosedShrine::LocalAes(s) => s.uuid(),
        }
    }

    pub fn version(&self) -> (r: u8)
        ensures
            r == VERSION,
    {
        match self {
            ClosedShrine::LocalClear(s) => s.version(),
            ClosedShrine::LocalAes(s) => s.version(),
        }
    }

    pub fn serialization_format(&self) -> (r: SerializationFormat)
        ensures
            r == self.meta().serialization_format,
    {
        match self {
            ClosedShrine::LocalClear(s) => s.serialization_format(),
            ClosedShrine::LocalAes(s) => s.serialization_format(),
        }
    }

    pub fn encryption_algorithm(&self) -> (r: EncryptionAlgorithm)
        ensures
            r == self.meta().encryption_algorithm,
    {
        match self {
            ClosedShrine::LocalClear(s) => s.encryption_algorithm(),
            ClosedShrine::LocalAes(s) => s.encryption_algorithm(),
        }
    }

    /// The file bytes of this shrine.
    pub fn try_to_bytes(&self) -> (r: Result<Vec<u8>, Error>)
        ensures
            r is Ok <==> self.payload_bytes().len() <= u32::MAX,
            match r {
                Ok(b) => b@ == crate::shrine::local::encode_file(self.meta(), self.payload_bytes()),
                Err(e) => e is TooLarge,
            },
    {
        match self {
            ClosedShrine::LocalClear(s) => s.try_to_bytes(),
            ClosedShrine::LocalAes(s) => s.try_to_bytes(),
        }
    }
}

/// A uuid other than `old`: the freshly drawn `drawn`, with its lowest bit flipped in
/// the unlikely case that it equals `old`.
pub fn distinct_uuid(old: u128, drawn: u128) -> (r: u128)
    ensures
        r != old,
        drawn != old ==> r == drawn,
{
    if drawn == old {
        let r = drawn ^ 1u128;
        assert(drawn ^ 1u128 != drawn) by (bit_vector);
        r
    } else {
        drawn
    }
}

/// Whether `convert` is refused: encryption is asked of a clear shrine without a
/// new passphrase.
pub open spec fn convert_refused(
    s: OpenShrine,
    encryption: Option<EncryptionAlgorithm>,
    has_password: bool,
) -> bool {
    s is LocalClear && encryption == Some(EncryptionAlgorithm::Aes) && !has_password
}

impl OpenShrine {
    /// Closes the shrine: encodes its secrets, and seals them where it is encrypted.
    pub fn close(self) -> (r: Result<ClosedShrine, Error>)
        ensures
            match r {
                Ok(c) => c.meta() == self.meta() && (c is LocalAes <==> self is LocalAes),
                Err(e) => e is TooLarge || e is CryptoWrite || e is InvalidFile,
            },
            self is LocalClear ==> (r is Ok <==> crate::shrine::local::clear_close_owed(
                self.meta(),
                self.holder(),
            )) && (r is Ok ==> r->Ok_0.payload_bytes() == crate::serialization::encode_holder(
                self.holder(),
            )),
            self matches OpenShrine::LocalAes(s) ==> (crate::shrine::local::aes_close_owed(
                s.meta(),
                s.holder(),
                s.password(),
            ) ==> r is Ok) && (r is Ok ==> sealed_by(
                r->Ok_0.payload_bytes(),
                crate::serialization::encode_holder(s.holder()),
                encode_utf8(s.password()),
                s.meta().uuid,
                VERSION,
            ) && crate::shrine::local::aes_close_owed(s.meta(), s.holder(), s.password())
                && r->Ok_0.payload_bytes().len() == crate::encryption::NONCE_LEN
                + crate::serialization::encode_holder(s.holder()).len()
                + crate::encryption::TAG_LEN),
    {
        match self {
            OpenShrine::LocalClear(s) => match s.close() {
                Ok(c) => Ok(ClosedShrine::LocalClear(c)),
                Err(e) => Err(e),
            },
            OpenShrine::LocalAes(s) => match s.close() {
                Ok(c) => Ok(ClosedShrine::LocalAes(c)),
                Err(e) => Err(e),
            },
        }
    }

    /// Makes the namespace rules of this shrine's holder known to the caller's proof;
    /// it does nothing at run time.
    pub fn establish_wf(&self)
        ensures
            crate::holder::holder_wf(self.holder()),
    {
        match self {
            OpenShrine::LocalClear(s) => s.establish_wf(),
            OpenShrine::LocalAes(s) => s.establish_wf(),
        }
    }

    /// Stores a secret; a leading dot routes `key` to the private namespace.
    pub fn set(&mut self, key: &str, value: &[u8], mode: Mode) -> (r: Result<(), Error>)
        ensures
            *old(self) matches OpenShrine::LocalAes(a) ==> (*final(self) matches OpenShrine::LocalAes(b)
                && b.password() == a.password()),
            final(self).meta() == old(self).meta(),
            (*final(self) is LocalClear) == (*old(self) is LocalClear),
            r is Ok <==> can_set(old(self).holder(), key@),
            match r {
                Ok(_) => exists|c: i64|
                    final(self).holder() == after_set(
                        old(self).holder(),
                        key@,
                        SecretView { value: value@, mode, created_at: c },
                    ),
                Err(e) => final(self).holder() == old(self).holder() && (e matches Error::InvalidKey(
                    k,
                ) && k@ == key@),
            },
    {
        match self {
            OpenShrine::LocalClear(s) => s.set(key, value, mode),
            OpenShrine::LocalAes(s) => s.set(key, value, mode),
        }
    }

    /// The secret under `key`; a leading dot routes it to the private namespace.
    pub fn get(&self, key: &str) -> (r: Result<&Secret, Error>)
        ensures
            match r {
                Ok(s) => lookup(self.holder(), key@) == Some(s@),
                Err(e) => lookup(self.holder(), key@) is None && (e matches Error::KeyNotFound(k)
                    && k@ == key@),
            },
    {
        match self {
            OpenShrine::LocalClear(s) => s.get(key),
            OpenShrine::LocalAes(s) => s.get(key),
        }
    }

    /// Removes the secret under `key`; whether there was one.
    pub fn rm(&mut self, key: &str) -> (r: bool)
        ensures
            *old(self) matches OpenShrine::LocalAes(a) ==> (*final(self) matches OpenShrine::LocalAes(b)
                && b.password() == a.password()),
            final(self).meta() == old(self).meta(),
            (*final(self) is LocalClear) == (*old(self) is LocalClear),
            r == lookup(old(self).holder(), key@) is Some,
            final(self).holder() == after_rm(old(self).holder(), key@),
    {
        match self {
            OpenShrine::LocalClear(s) => s.rm(key),
            OpenShrine::LocalAes(s) => s.rm(key),
        }
    }

    /// Replaces the secrets of `other` with those of this shrine; `other` keeps its
    /// identity and metadata.
    pub fn mv(self, other: &mut OpenShrine)
        ensures
            *old(other) matches OpenShrine::LocalAes(a) ==> (*final(other) matches OpenShrine::LocalAes(b)
                && b.password() == a.password()),
            final(other).meta() == old(other).meta(),
            final(other).holder() == self.holder(),
            (*final(other) is LocalClear) == (*old(other) is LocalClear),
    {
        match self {
            OpenShrine::LocalClear(s) => s.mv(other),
            OpenShrine::LocalAes(s) => s.mv(other),
        }
    }

    /// The public keys, in storage order.
    pub fn keys(&self) -> (r: Vec<String>)
        ensures
            strings_view(r@) == keys_of(self.holder().public),
    {
        match self {
            OpenShrine::LocalClear(s) => s.keys(),
            OpenShrine::LocalAes(s) => s.keys(),
        }
    }

    /// The private keys, without their dot, in storage order.
    pub fn keys_private(&self) -> (r: Vec<String>)
        ensures
            strings_view(r@) == keys_of(self.holder().private),
    {
        match self {
            OpenShrine::LocalClear(s) => s.keys_private(),
            OpenShrine::LocalAes(s) => s.keys_private(),
        }
    }

    pub fn uuid(&self) -> (r: u128)
        ensures
            r == self.meta().uuid,
    {
        match self {
            OpenShrine::LocalClear(s) => s.uuid(),
            OpenShrine::LocalAes(s) => s.uuid(),
        }
    }

    /// Converts the shrine under the uuid `drawn` (made distinct from the current
    /// one): optionally to another encryption, optionally with a new passphrase. The
    /// secrets are kept; an encrypted shrine keeps its passphrase unless a new one is
    /// given.
    pub fn convert_with_uuid(
        self,
        encryption: Option<EncryptionAlgorithm>,
        new_password: Option<String>,
        drawn: u128,
    ) -> (r: Result<OpenShrine, Error>)
        ensures
            r is Err <==> convert_refused(self, encryption, new_password is Some),
            match r {
                Ok(o) => {
                    &&& o.meta().uuid != self.meta().uuid
                    &&& (drawn != self.meta().uuid ==> o.meta().uuid == drawn)
                    &&& o.holder() == self.holder()
                    &&& o.meta().serialization_format == self.meta().serialization_format
                    &&& (o.meta().encryption_algorithm == match encryption {
                        Some(a) => a,
                        None => self.meta().encryption_algorithm,
                    })
                    &&& (o is LocalAes) == match encryption {
                        Some(a) => a == EncryptionAlgorithm::Aes,
                        None => self is LocalAes,
                    }
                    &&& (o is LocalAes && new_password is Some ==> o->LocalAes_0.password()
                        == new_password->Some_0@)
                    &&& (o is LocalAes && new_password is None ==> self is LocalAes
                        && o->LocalAes_0.password() == self->LocalAes_0.password())
                },
                Err(e) => e is InvalidTransition,
            },
    {
        let uuid = distinct_uuid(self.uuid(), drawn);
        match self {
            OpenShrine::LocalClear(s) => {
                let s = s.with_uuid(uuid);
                match encryption {
                    Some(EncryptionAlgorithm::Aes) => match new_password {
                        Some(p) => Ok(OpenShrine::LocalAes(s.into_aes_with_password(p))),
                        None => Err(Error::InvalidTransition),
                    },
                    _ => Ok(OpenShrine::LocalClear(s)),
                }
            },
            OpenShrine::LocalAes(s) => {
                let s = s.with_uuid_keeping_password(uuid);
                match encryption {
                    Some(EncryptionAlgorithm::Plain) => Ok(OpenShrine::LocalClear(s.into_clear())),
                    _ => match new_password {
                        Some(p) => Ok(OpenShrine::LocalAes(s.set_password(p))),
                        None => Ok(OpenShrine::LocalAes(s)),
                    },
                }
            },
        }
    }

    /// Converts the shrine under a new random uuid; see `convert_with_uuid`.
    pub fn convert(self, encryption: Option<EncryptionAlgorithm>, new_password: Option<String>) -> (r:
        Result<OpenShrine, Error>)
        ensures
            r is Err <==> convert_refused(self, encryption, new_password is Some),
            match r {
                Ok(o) => {
                    &&& o.meta().uuid != self.meta().uuid
                    &&& o.holder() == self.holder()
                    &&& o.meta().serialization_format == self.meta().serialization_format
                    &&& (o.meta().encryption_algorithm == match encryption {
                        Some(a) => a,
                        None => self.meta().encryption_algorithm,
                    })
                },
                Err(e) => e is InvalidTransition,
            },
    {
        let drawn = fresh_uuid();
        self.convert_with_uuid(encryption, new_password, drawn)
    }
}

} // verus!
