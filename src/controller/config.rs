//! Configuration values: text secrets in the private namespace.
use crate::shrine::local::{after_set, can_set, lookup};
use crate::shrine::OpenShrine;
use crate::values::{Mode, Secret, SecretView};
use crate::Error;
use vstd::prelude::*;
use vstd::string::StringExecFns;
use vstd::utf8::encode_utf8;

verus! {

/// The dotted form of a configuration key.
fn config_key(key: &str) -> (r: String)
    ensures
        r@ == seq!['.'] + key@,
{
    let dot = String::from_str(".");
    proof {
        reveal_strlit(".");
    }
    dot.concat(key)
}

/// Sets a configuration value: a text secret under the private key `key`.
pub fn set(shrine: &mut OpenShrine, key: &str, value: &str) -> (r: Result<(), Error>)
    ensures
        final(shrine).meta() == old(shrine).meta(),
        r is Ok <==> can_set(old(shrine).holder(), seq!['.'] + key@),
        r is Ok ==> exists|c: i64|
            final(shrine).holder() == after_set(
                old(shrine).holder(),
                seq!['.'] + key@,
                SecretView { value: encode_utf8(value@), mode: Mode::Text, created_at: c },
            ),
        r is Err ==> final(shrine).holder() == old(shrine).holder(),
{
    let k = config_key(key);
    shrine.set(k.as_str(), value.as_bytes(), Mode::Text)
}

/// The configuration value under `key`.
pub fn get<'a>(shrine: &'a OpenShrine, key: &str) -> (r: Result<&'a Secret, Error>)
    ensures
        match r {
            Ok(s) => lookup(shrine.holder(), seq!['.'] + key@) == Some(s@),
            Err(e) => lookup(shrine.holder(), seq!['.'] + key@) is None && e is KeyNotFound,
        },
{
    let k = config_key(key);
    shrine.get(k.as_str())
}

} // verus!
