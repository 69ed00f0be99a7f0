//! A local secret store: a namespaced key/value map of secrets persisted in one
//! self-describing file, optionally sealed with a passphrase-derived key, plus the
//! passphrase cache and request decisions of a background agent.
use vstd::prelude::*;

pub mod bytes;
pub mod values;
pub mod holder;
pub mod serialization;
pub mod encryption;
pub mod shrine;
pub mod agent;
pub mod controller;

verus! {

/// Everything that can go wrong in the library, by kind.
#[derive(Debug, Clone, PartialEq, Eq)]
pub enum Error {
    /// A load was attempted against a file that does not exist.
    FileNotFound(String),
    /// A shrine already exists where a new one was to be created.
    FileAlreadyExists(String),
    /// Reading from the file system failed.
    IoRead(String),
    /// Writing to the file system failed.
    IoWrite(String),
    /// The bytes are not a shrine: wrong magic, unknown tag, bad framing or payload.
    InvalidFile(String),
    /// The file declares a version above the supported one.
    UnsupportedVersion(u8),
    /// Decryption or authentication failed (wrong passphrase or altered bytes).
    CryptoRead,
    /// The payload could not be sealed.
    CryptoWrite,
    /// No secret under that key.
    KeyNotFound(String),
    /// The key cannot be stored in the namespace it was given for.
    InvalidKey(String),
    /// A count or length exceeds what its 32-bit frame can hold.
    TooLarge,
    /// The operation is not legal in the shrine's state.
    InvalidTransition,
}

} // verus!
