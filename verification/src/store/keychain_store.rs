//! Secrets in the OS keychain (through the `keyring` crate).
use vstd::prelude::*;

use keyring::Entry;
use keyring::Error as KeyringError;

use crate::error::Error;
use crate::text::{owned, push_str, push_uuid, uuid_text};

verus! {

/// Keychain service name under which all secrets are stored.
pub const SERVICE: &'static str = "Tunnelium";

/// A keychain failure: the entry is missing, or anything else.
pub enum KeychainFault {
    NoEntry,
    Other(KeyringError),
}

/// The service name a keychain entry was made for.
pub uninterp spec fn entry_service(e: Entry) -> Seq<char>;

/// The account (keyring's "user") a keychain entry was made for.
pub uninterp spec fn entry_account(e: Entry) -> Seq<char>;

/// `keyring::Entry::new(service, account)`: an entry for that service and
/// account. Whether it succeeds depends on the platform credential store, so
/// only what an entry it gives stands for is stated.
#[verifier::external_body]
fn open_entry(service: &str, account: &str) -> (r: Result<Entry, KeyringError>)
    ensures
        r matches Ok(e) ==> entry_service(e) == service@ && entry_account(e) == account@,
{
    Entry::new(service, account)
}

/// Tells `keyring::Error::NoEntry` apart from every other keyring error.
#[verifier::external_body]
fn classify(err: KeyringError) -> (f: KeychainFault) {
    match err {
        KeyringError::NoEntry => KeychainFault::NoEntry,
        other => KeychainFault::Other(other),
    }
}

/// `Entry::set_password`: stores the secret in the OS keychain under the
/// entry's service and account. Nothing is stated of it: whether it succeeds
/// and what the keychain then holds rest on the OS, and this library keeps no
/// model of the keychain's contents that the secret could be tied to.
#[verifier::external_body]
fn entry_set_password(entry: &Entry, secret: &str) -> (r: Result<(), KeyringError>) {
    entry.set_password(secret)
}

/// `Entry::get_password`: reads the secret stored under the entry's service
/// and account. Nothing is stated of the result: it is whatever the OS
/// keychain holds.
#[verifier::external_body]
fn entry_get_password(entry: &Entry) -> (r: Result<String, KeyringError>) {
    entry.get_password()
}

/// `Entry::delete_credential`: removes the secret stored under the entry's
/// service and account. Nothing is stated: the outcome rests on the OS keychain.
#[verifier::external_body]
fn entry_delete(entry: &Entry) -> (r: Result<(), KeyringError>) {
    entry.delete_credential()
}

/// The text of a keyring error (its `Display`), worded by the keyring crate.
#[verifier::external_body]
fn keyring_error_text(err: &KeyringError) -> (s: String) {
    err.to_string()
}

/// The keychain account id for a tunnel secret: `tunnel:<uuid>:<purpose>`.
/// This is what the config stores as a `*Ref`.
pub fn secret_account(tunnel_id: u128, purpose: &str) -> (s: String)
    ensures
        s@ == "tunnel:"@ + uuid_text(tunnel_id) + ":"@ + purpose@,
{
    let mut s = owned("tunnel:");
    push_uuid(&mut s, tunnel_id);
    push_str(&mut s, ":");
    push_str(&mut s, purpose);
    s
}

fn to_error(err: KeyringError) -> (e: Error)
    ensures
        e is Keychain,
{
    Error::Keychain(keyring_error_text(&err))
}

/// The keychain entry for `account` under this application's service.
fn entry(account: &str) -> (r: Result<Entry, Error>)
    ensures
        r matches Err(e) ==> e is Keychain,
        r matches Ok(e) ==> entry_service(e) == SERVICE@ && entry_account(e) == account@,
{
    match open_entry(SERVICE, account) {
        Ok(e) => Ok(e),
        Err(err) => Err(to_error(err)),
    }
}

/// Store (or overwrite) a secret in the OS keychain, in the entry for
/// (`SERVICE`, `account`) that `entry` opens. Success is not promised and the
/// stored value is not stated: both rest on the OS keychain.
pub fn set_secret(account: &str, secret: &str) -> (r: Result<(), Error>)
    ensures
        r matches Err(e) ==> e is Keychain,
{
    let e = entry(account)?;
    match entry_set_password(&e, secret) {
        Ok(()) => Ok(()),
        Err(err) => Err(to_error(err)),
    }
}

/// What a keychain read amounts to: a missing entry is no secret, any other
/// failure is a keychain error.
pub fn secret_from_lookup(r: Result<String, KeychainFault>) -> (s: Result<Option<String>, Error>)
    ensures
        match r {
            Ok(v) => s == Ok::<Option<String>, Error>(Some(v)),
            Err(KeychainFault::NoEntry) => s == Ok::<Option<String>, Error>(None),
            Err(KeychainFault::Other(_)) => s matches Err(e) && e is Keychain,
        },
{
    match r {
        Ok(v) => Ok(Some(v)),
        Err(KeychainFault::NoEntry) => Ok(None),
        Err(KeychainFault::Other(err)) => Err(to_error(err)),
    }
}

/// What a keychain deletion amounts to: a missing entry is already deleted.
pub fn deletion_outcome(r: Result<(), KeychainFault>) -> (s: Result<(), Error>)
    ensures
        match r {
            Ok(()) => s is Ok,
            Err(KeychainFault::NoEntry) => s is Ok,
            Err(KeychainFault::Other(_)) => s matches Err(e) && e is Keychain,
        },
{
    match r {
        Ok(()) => Ok(()),
        Err(KeychainFault::NoEntry) => Ok(()),
        Err(KeychainFault::Other(err)) => Err(to_error(err)),
    }
}

/// Fetch a secret from the OS keychain; `None` if not present. The entry read
/// is the one for (`SERVICE`, `account`) that `entry` opens; what it holds is
/// the keychain's, and `secret_from_lookup` states how each answer is mapped.
pub fn get_secret(account: &str) -> (r: Result<Option<String>, Error>)
    ensures
        r matches Err(e) ==> e is Keychain,
{
    let e = entry(account)?;
    let looked_up = match entry_get_password(&e) {
        Ok(v) => Ok(v),
        Err(err) => Err(classify(err)),
    };
    secret_from_lookup(looked_up)
}

/// Delete a secret. Succeeds even if the entry does not exist. The entry
/// removed is the one for (`SERVICE`, `account`) that `entry` opens;
/// `deletion_outcome` states how each answer of the keychain is mapped.
pub fn delete_secret(account: &str) -> (r: Result<(), Error>)
    ensures
        r matches Err(e) ==> e is Keychain,
{
    let e = entry(account)?;
    let deleted = match entry_delete(&e) {
        Ok(()) => Ok(()),
        Err(err) => Err(classify(err)),
    };
    deletion_outcome(deleted)
}

} // verus!
