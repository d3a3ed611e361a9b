use rust_native_keyring::attributes::AttrMap;
use rust_native_keyring::credential::{
    default_credential_builder, CredentialApi, CredentialBuilderApi, CredentialPersistence,
};
use rust_native_keyring::error::Error;
use rust_native_keyring::secret_service::SsCredential;
use rust_native_keyring::store::SecretStore;

fn entry_new(service: &str, user: &str) -> SsCredential {
    SsCredential::new_with_target(None, service, user).expect("Can't create credential")
}

fn generate_random_string(seed: &str) -> String {
    format!("test-{seed}-{}", seed.len() * 7919)
}

fn random_bytes(seed: u32, len: usize) -> Vec<u8> {
    let mut state = seed;
    let mut bytes = Vec::new();
    for _ in 0..len {
        state = state.wrapping_mul(1_103_515_245).wrapping_add(12_345);
        bytes.push((state >> 16) as u8);
    }
    bytes
}

fn round_trip_password(store: &mut SecretStore, entry: &SsCredential, password: &str) {
    entry.set_password(store, password).expect("Can't set password");
    let stored = entry.get_password(store).expect("Can't get password");
    assert_eq!(stored, password, "Passwords don't match");
    entry.delete_credential(store).expect("Can't delete password");
    assert!(matches!(entry.get_password(store), Err(Error::NoEntry)));
}

fn create_v1_entry(store: &mut SecretStore, name: &str, password: &str) {
    let cred = SsCredential::new_with_no_target(name, name)
        .expect("Can't create credential with no target");
    let default = store.get_collection(&"default".to_string()).expect("No default collection");
    store.create_item(default, &cred.label, &cred.all_attributes(), password.as_bytes());
}

#[test]
fn test_persistence() {
    assert!(matches!(
        default_credential_builder().persistence(),
        CredentialPersistence::UntilDelete
    ))
}

#[test]
fn test_invalid_parameter() {
    let credential = SsCredential::new_with_target(Some(""), "service", "user");
    assert!(
        matches!(credential, Err(Error::Invalid(_, _))),
        "Created entry with empty target"
    );
}

#[test]
fn test_empty_service_and_user() {
    let mut store = SecretStore::new();
    let entry = entry_new("", "");
    round_trip_password(&mut store, &entry, "test empty service and user");
}

#[test]
fn test_missing_entry() {
    let store = SecretStore::new();
    let name = generate_random_string("missing");
    let entry = entry_new(&name, &name);
    assert!(matches!(entry.get_password(&store), Err(Error::NoEntry)));
}

#[test]
fn test_empty_password() {
    let mut store = SecretStore::new();
    let name = generate_random_string("empty");
    let entry = entry_new(&name, &name);
    round_trip_password(&mut store, &entry, "");
}

#[test]
fn test_round_trip_ascii_password() {
    let mut store = SecretStore::new();
    let name = generate_random_string("ascii");
    let entry = entry_new(&name, &name);
    round_trip_password(&mut store, &entry, "test ascii password");
}

#[test]
fn test_round_trip_non_ascii_password() {
    let mut store = SecretStore::new();
    let name = generate_random_string("non-ascii");
    let entry = entry_new(&name, &name);
    round_trip_password(&mut store, &entry, "このきれいな花は桜です");
}

#[test]
fn test_round_trip_random_secret() {
    let mut store = SecretStore::new();
    let name = generate_random_string("secret");
    let entry = entry_new(&name, &name);
    let secret = random_bytes(42, 24);
    entry.set_secret(&mut store, &secret).expect("Can't set secret");
    let stored = entry.get_secret(&store).expect("Can't get secret");
    assert_eq!(stored, secret, "Secrets don't match");
    entry.delete_credential(&mut store).expect("Can't delete secret");
    assert!(matches!(entry.get_secret(&store), Err(Error::NoEntry)));
}

#[test]
fn test_update() {
    let mut store = SecretStore::new();
    let name = generate_random_string("update");
    let entry = entry_new(&name, &name);
    entry.set_password(&mut store, "test ascii password").expect("Can't set initial password");
    let stored = entry.get_password(&store).expect("Can't get ascii password");
    assert_eq!(stored, "test ascii password");
    entry.set_password(&mut store, "このきれいな花は桜です").expect("Can't update password");
    let stored = entry.get_password(&store).expect("Can't get non-ascii password");
    assert_eq!(stored, "このきれいな花は桜です");
    entry.delete_credential(&mut store).expect("Can't delete password");
    assert!(matches!(entry.get_password(&store), Err(Error::NoEntry)));
}

#[test]
fn test_get_credential() {
    let mut store = SecretStore::new();
    let name = generate_random_string("get-credential");
    let credential = entry_new(&name, &name);
    credential
        .set_password(&mut store, "test get credential")
        .expect("Can't set password for get_credential");
    let actual = credential
        .new_from_matching_item(&store)
        .expect("Can't read credential");
    assert_eq!(actual.label, credential.label, "Labels don't match");
    for key in credential.attributes.keys() {
        assert_eq!(
            actual.attributes.get(&key).expect("Missing attribute"),
            credential.attributes.get(&key).unwrap(),
            "Attribute mismatch"
        )
    }
    credential
        .delete_credential(&mut store)
        .expect("Couldn't delete get-credential");
    assert!(matches!(credential.get_password(&store), Err(Error::NoEntry)));
}

#[test]
fn test_get_update_attributes() {
    let mut store = SecretStore::new();
    let name = generate_random_string("attributes");
    let credential = SsCredential::new_with_target(None, &name, &name)
        .expect("Can't create credential for attribute test");
    let create_label = credential.label.clone();
    assert!(
        matches!(credential.get_attributes(&store), Err(Error::NoEntry)),
        "Read missing credential in attribute test",
    );
    let mut in_map = AttrMap::new();
    in_map.insert("label", "test label value");
    in_map.insert("test attribute name", "test attribute value");
    in_map.insert("target", "ignored target value");
    in_map.insert("service", "ignored service value");
    in_map.insert("username", "ignored username value");
    assert!(
        matches!(credential.update_attributes(&mut store, &in_map), Err(Error::NoEntry)),
        "Updated missing credential in attribute test",
    );
    // create the credential and test again
    credential
        .set_password(&mut store, "test password for attributes")
        .unwrap_or_else(|err| panic!("Can't set password for attribute test: {err:?}"));
    let out_map = credential
        .get_attributes(&store)
        .expect("Can't get attributes after create");
    assert_eq!(out_map.get("label"), Some(create_label.as_str()));
    assert!(!out_map.contains_key("application"));
    assert!(!out_map.contains_key("target"));
    assert!(!out_map.contains_key("service"));
    assert!(!out_map.contains_key("username"));
    assert!(
        matches!(credential.update_attributes(&mut store, &in_map), Ok(())),
        "Couldn't update attributes in attribute test",
    );
    let after_map = credential
        .get_attributes(&store)
        .expect("Can't get attributes after update");
    assert_eq!(after_map.get("label"), in_map.get("label"));
    assert_eq!(
        after_map.get("test attribute name"),
        in_map.get("test attribute name")
    );
    assert!(!after_map.contains_key("application"));
    in_map.insert("label", "");
    assert!(
        matches!(credential.update_attributes(&mut store, &in_map), Err(Error::Invalid(_, _))),
        "Was able to set empty label in attribute test",
    );
    credential
        .delete_credential(&mut store)
        .unwrap_or_else(|err| panic!("Can't delete credential for attribute test: {err:?}"));
    assert!(
        matches!(credential.get_attributes(&store), Err(Error::NoEntry)),
        "Read deleted credential in attribute test",
    );
}

#[test]
fn test_create_new_target_collection() {
    let mut store = SecretStore::new();
    let name = generate_random_string("new-collection");
    let credential = SsCredential::new_with_target(Some(&name), &name, &name)
        .expect("Can't create credential for new collection");
    let password = "password in new collection";
    credential
        .set_password(&mut store, password)
        .expect("Can't set password for new collection entry");
    assert!(store.get_collection(&name).is_some());
    let actual = credential
        .get_password(&store)
        .expect("Can't get password for new collection entry");
    assert_eq!(actual, password);
    credential
        .delete_credential(&mut store)
        .expect("Couldn't delete password for new collection entry");
    assert!(matches!(credential.get_password(&store), Err(Error::NoEntry)));
}

#[test]
fn test_separate_targets_dont_interfere() {
    let mut store = SecretStore::new();
    let name1 = generate_random_string("one");
    let name2 = generate_random_string("two");
    let entry1 = SsCredential::new_with_target(Some(&name1), &name1, &name1)
        .expect("Can't create credential1 with new collection");
    let entry2 = SsCredential::new_with_target(Some(&name2), &name1, &name1)
        .expect("Can't create credential2 with new collection");
    let entry3 = entry_new(&name1, &name1);
    let password1 = "password for collection 1";
    let password2 = "password for collection 2";
    let password3 = "password for default collection";
    entry1
        .set_password(&mut store, password1)
        .expect("Can't set password for collection 1");
    entry2
        .set_password(&mut store, password2)
        .expect("Can't set password for collection 2");
    entry3
        .set_password(&mut store, password3)
        .expect("Can't set password for default collection");
    let actual1 = entry1
        .get_password(&store)
        .expect("Can't get password for collection 1");
    assert_eq!(actual1, password1);
    let actual2 = entry2
        .get_password(&store)
        .expect("Can't get password for collection 2");
    assert_eq!(actual2, password2);
    let actual3 = entry3
        .get_password(&store)
        .expect("Can't get password for default collection");
    assert_eq!(actual3, password3);
    entry1
        .delete_credential(&mut store)
        .expect("Couldn't delete password for collection 1");
    assert!(matches!(entry1.get_password(&store), Err(Error::NoEntry)));
    entry2
        .delete_credential(&mut store)
        .expect("Couldn't delete password for collection 2");
    assert!(matches!(entry2.get_password(&store), Err(Error::NoEntry)));
    entry3
        .delete_credential(&mut store)
        .expect("Couldn't delete password for default collection");
    assert!(matches!(entry3.get_password(&store), Err(Error::NoEntry)));
}

#[test]
fn test_legacy_entry() {
    let mut store = SecretStore::new();
    let name = generate_random_string("legacy");
    let pw = "test password";
    let v3_entry = entry_new(&name, &name);
    let _ = v3_entry.get_password(&store).expect_err("Found v3 entry");
    create_v1_entry(&mut store, &name, pw);
    let password = v3_entry.get_password(&store).expect("Can't find v1 entry");
    assert_eq!(password, pw);
    v3_entry.delete_credential(&mut store).expect("Can't delete v1 entry");
    let _ = v3_entry
        .get_password(&store)
        .expect_err("Got password for v1 entry after delete");
}

#[test]
fn builder_builds_target_credentials() {
    let builder = default_credential_builder();
    let cred = builder.build(Some("work"), "svc", "usr").expect("Can't build credential");
    assert_eq!(cred.label, "usr@svc:work (keyring v4)");
    assert_eq!(cred.attributes.get("target"), Some("work"));
    assert!(matches!(builder.build(Some(""), "svc", "usr"), Err(Error::Invalid(_, _))));
}

#[test]
fn credential_api_forwards_to_the_credential() {
    let mut store = SecretStore::new();
    let cred = entry_new("svc", "usr");
    CredentialApi::set_password(&cred, &mut store, "through the trait").unwrap();
    assert_eq!(CredentialApi::get_password(&cred, &store).unwrap(), "through the trait");
    CredentialApi::delete_credential(&cred, &mut store).unwrap();
    assert!(matches!(CredentialApi::get_secret(&cred, &store), Err(Error::NoEntry)));
}
