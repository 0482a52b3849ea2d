use keyring::Entry;
use tunnelium::store::keychain_store::{delete_secret, get_secret, secret_account, set_secret, SERVICE};

#[test]
fn account_id_format() {
    let id = uuid::Uuid::nil().as_u128();
    assert_eq!(
        secret_account(id, "passphrase"),
        "tunnel:00000000-0000-0000-0000-000000000000:passphrase"
    );
}

#[test]
fn account_id_uses_lowercase_hyphenated_uuid() {
    let id = uuid::Uuid::parse_str("A1B2C3D4-E5F6-0718-293A-4B5C6D7E8F90").unwrap().as_u128();
    assert_eq!(
        secret_account(id, "password"),
        "tunnel:a1b2c3d4-e5f6-0718-293a-4b5c6d7e8f90:password"
    );
}

// keyring's mock builds a fresh in-memory credential per `Entry::new`, so it
// cannot model persistence across calls: what is checked is how the results
// are mapped (a missing secret is `None`, deleting is a no-op).
#[test]
fn missing_secret_maps_to_none_and_delete_is_noop() {
    keyring::set_default_credential_builder(keyring::mock::default_credential_builder());

    let account = "tunnel:test:password";
    assert_eq!(get_secret(account).unwrap(), None);

    set_secret(account, "hunter2").unwrap();
    delete_secret(account).unwrap();
    delete_secret(account).unwrap();
}

#[test]
fn single_entry_roundtrips() {
    keyring::set_default_credential_builder(keyring::mock::default_credential_builder());

    let entry = Entry::new(SERVICE, "tunnel:solo:password").unwrap();
    entry.set_password("s3cret").unwrap();
    assert_eq!(entry.get_password().unwrap(), "s3cret");
}
