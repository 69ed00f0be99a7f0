//! Creating a new shrine.
use crate::encryption::{sealed_by, EncryptionAlgorithm};
use crate::holder::HolderView;
use crate::serialization::{encode_holder, SerializationFormat};
use crate::shrine::local::LocalShrine;
use crate::shrine::{ClosedShrine, VERSION};
use crate::Error;
use vstd::prelude::*;
use vstd::utf8::encode_utf8;

verus! {

broadcast use crate::shrine::local::lemma_meta_algorithm;

/// The holder of a new shrine.
pub open spec fn empty_holder() -> HolderView {
    HolderView { public: Seq::empty(), private: Seq::empty() }
}

/// The encoding of an empty holder is eight bytes and fits every frame.
proof fn lemma_empty_encoding()
    ensures
        encode_holder(empty_holder()).len() == 8,
        crate::serialization::holder_fits(empty_holder()),
{
    crate::bytes::lemma_le_bytes_len(0, 4);
}

/// Creates a new shrine for `path`, in clear when `encryption` asks for it, else
/// encrypted with the passphrase `password_provider` gives for its uuid. Refused
/// where a file exists and `force` is not set. The closed shrine is returned for
/// the caller to write.
pub fn init<F: FnOnce(u128) -> String>(
    path: &str,
    file_exists: bool,
    force: bool,
    encryption: Option<EncryptionAlgorithm>,
    password_provider: F,
) -> (r: Result<ClosedShrine, Error>)
    requires
        forall|u: u128| password_provider.requires((u,)),
    ensures
        file_exists && !force ==> (r matches Err(e) && (e matches Error::FileAlreadyExists(p)
            && p@ == path@)),
        !(file_exists && !force) && encryption == Some(EncryptionAlgorithm::Plain) ==> r is Ok,
        !(file_exists && !force) && encryption != Some(EncryptionAlgorithm::Plain) ==> exists|
            u: u128,
            p: String,
        |
            #![trigger password_provider.ensures((u,), p)]
            password_provider.ensures((u,), p) && (encode_utf8(p@).len() <= u32::MAX ==> r is Ok),
        r matches Err(e) && e is FileAlreadyExists ==> file_exists && !force,
        match r {
            Ok(c) => {
                &&& c.consistent()
                &&& c.meta().serialization_format == SerializationFormat::BinaryDoc
                &&& (c is LocalClear <==> encryption == Some(EncryptionAlgorithm::Plain))
                &&& (c is LocalClear ==> c.payload_bytes() == encode_holder(empty_holder()))
                &&& (c is LocalAes ==> exists|p: String|
                    password_provider.ensures((c.meta().uuid,), p) && sealed_by(
                        c.payload_bytes(),
                        encode_holder(empty_holder()),
                        encode_utf8(p@),
                        c.meta().uuid,
                        VERSION,
                    ))
            },
            Err(e) => (e matches Error::FileAlreadyExists(p) && p@ == path@) || e is TooLarge
                || e is CryptoWrite || e is InvalidFile,
        },
{
    if file_exists && !force {
        return Err(Error::FileAlreadyExists(path.to_owned()));
    }
    let shrine = LocalShrine::new();
    assert(shrine.holder().public =~= empty_holder().public);
    assert(shrine.holder().private =~= empty_holder().private);
    assert(shrine.holder() == empty_holder());
    match encryption {
        Some(EncryptionAlgorithm::Plain) => {
            let s = shrine.into_clear();
            match s.close() {
                Ok(c) => Ok(ClosedShrine::LocalClear(c)),
                Err(e) => Err(e),
            }
        },
        _ => {
            let uuid = shrine.uuid();
            let password = password_provider(uuid);
            let ghost p = password;
            proof {
                lemma_empty_encoding();
            }
            let s = shrine.set_password(password);
            let r = match s.close() {
                Ok(c) => Ok(ClosedShrine::LocalAes(c)),
                Err(e) => Err(e),
            };
            assert(password_provider.ensures((uuid,), p) && (encode_utf8(p@).len() <= u32::MAX
                ==> r is Ok));
            r
        },
    }
}

} // verus!
