//! Secret values: a byte payload tagged with how it is meant to be read.
use vstd::prelude::*;

verus! {

/// How the bytes of a secret are meant to be read.
#[derive(Clone, Copy, Debug, PartialEq, Eq, Structural)]
pub enum Mode {
    Text,
    Binary,
}

/// The on-disk tag of a mode.
pub open spec fn mode_tag(m: Mode) -> u8 {
    match m {
        Mode::Text => 0,
        Mode::Binary => 1,
    }
}

impl Mode {
    pub fn tag(self) -> (r: u8)
        ensures
            r == mode_tag(self),
    {
        match self {
            Mode::Text => 0,
            Mode::Binary => 1,
        }
    }

    /// The mode a tag stands for; `None` for an unknown tag.
    pub fn from_tag(t: u8) -> (r: Option<Mode>)
        ensures
            r matches Some(m) ==> mode_tag(m) == t,
            r is None <==> t > 1,
    {
        if t == 0 {
            Some(Mode::Text)
        } else if t == 1 {
            Some(Mode::Binary)
        } else {
            None
        }
    }
}

/// Overwrites the bytes of `v` with zeroes and empties it.
///
/// Relies on `zeroize::Zeroize for Vec<u8>` (re-exported by secrecy): it zeroes the
/// elements and the spare capacity, then clears the vector.
#[verifier::external_body]
pub(crate) fn wipe(v: &mut Vec<u8>)
    ensures
        final(v)@.len() == 0,
    opens_invariants none
    no_unwind
{
    secrecy::zeroize::Zeroize::zeroize(v)
}

/// Overwrites the bytes of `s` with zeroes and empties it.
///
/// Relies on `zeroize::Zeroize for String` (re-exported by secrecy): it zeroes the
/// underlying buffer, then clears the string.
#[verifier::external_body]
pub(crate) fn wipe_string(s: &mut String)
    ensures
        final(s)@.len() == 0,
    opens_invariants none
    no_unwind
{
    secrecy::zeroize::Zeroize::zeroize(s)
}

/// Sensitive bytes, wiped when dropped.
pub struct SecretBytes {
    bytes: Vec<u8>,
}

impl View for SecretBytes {
    type V = Seq<u8>;

    closed spec fn view(&self) -> Seq<u8> {
        self.bytes@
    }
}

impl SecretBytes {
    pub fn new(bytes: Vec<u8>) -> (r: SecretBytes)
        ensures
            r@ == bytes@,
    {
        SecretBytes { bytes }
    }

    pub fn from_slice(bytes: &[u8]) -> (r: SecretBytes)
        ensures
            r@ == bytes@,
    {
        SecretBytes { bytes: vstd::slice::slice_to_vec(bytes) }
    }

    pub fn expose_secret_as_bytes(&self) -> (r: &[u8])
        ensures
            r@ == self@,
    {
        self.bytes.as_slice()
    }

    pub fn len(&self) -> (r: usize)
        ensures
            r == self@.len(),
    {
        self.bytes.len()
    }

    pub fn duplicate(&self) -> (r: SecretBytes)
        ensures
            r@ == self@,
    {
        SecretBytes { bytes: self.bytes.clone() }
    }
}

impl Drop for SecretBytes {
    fn drop(&mut self)
        opens_invariants none
        no_unwind
    {
        wipe(&mut self.bytes);
    }
}

/// What a secret holds: its bytes, how they are read, and when it was created
/// (seconds since the Unix epoch).
pub struct SecretView {
    pub value: Seq<u8>,
    pub mode: Mode,
    pub created_at: i64,
}

/// A secret value: immutable bytes with their mode and creation time.
pub struct Secret {
    value: SecretBytes,
    mode: Mode,
    created_at: i64,
}

impl View for Secret {
    type V = SecretView;

    closed spec fn view(&self) -> SecretView {
        SecretView { value: self.value@, mode: self.mode, created_at: self.created_at }
    }
}

impl Secret {
    pub fn new(value: SecretBytes, mode: Mode, created_at: i64) -> (r: Secret)
        ensures
            r@ == (SecretView { value: value@, mode, created_at }),
    {
        Secret { value, mode, created_at }
    }

    pub fn value(&self) -> (r: &SecretBytes)
        ensures
            r@ == self@.value,
    {
        &self.value
    }

    pub fn mode(&self) -> (r: Mode)
        ensures
            r == self@.mode,
    {
        self.mode
    }

    pub fn created_at(&self) -> (r: i64)
        ensures
            r == self@.created_at,
    {
        self.created_at
    }

    pub fn duplicate(&self) -> (r: Secret)
        ensures
            r@ == self@,
    {
        Secret { value: self.value.duplicate(), mode: self.mode, created_at: self.created_at }
    }
}

} // verus!
