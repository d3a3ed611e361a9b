use rust_native_keyring::attributes::AttrMap;
use rust_native_keyring::error::{decode_error, decode_password, Error, StoreFailure};
use rust_native_keyring::internalize;
use rust_native_keyring::secret_service::{
    empty_target, names_default_collection, verdict, SsCredential, Verdict,
};
use rust_native_keyring::store::SecretStore;

fn default_collection(store: &SecretStore) -> usize {
    store.get_collection(&"default".to_string()).unwrap()
}

fn legacy_item(store: &mut SecretStore, service: &str, user: &str, secret: &[u8]) {
    let cred = SsCredential::new_with_no_target(service, user).unwrap();
    let default = default_collection(store);
    store.create_item(default, &cred.label, &cred.attributes, secret);
}

#[test]
fn delete_before_any_set_is_no_entry() {
    let mut store = SecretStore::new();
    let cred = SsCredential::new_with_target(Some("work"), "svc", "usr").unwrap();
    assert!(matches!(cred.delete_credential(&mut store), Err(Error::NoEntry)));
    assert!(matches!(cred.get_secret(&store), Err(Error::NoEntry)));
}

#[test]
fn delete_twice_is_no_entry_the_second_time() {
    let mut store = SecretStore::new();
    let cred = SsCredential::new_with_target(None, "svc", "usr").unwrap();
    cred.set_password(&mut store, "pw").unwrap();
    assert!(matches!(cred.delete_credential(&mut store), Ok(())));
    assert!(matches!(cred.delete_credential(&mut store), Err(Error::NoEntry)));
}

#[test]
fn identical_identities_are_interchangeable() {
    let mut store = SecretStore::new();
    let writer = SsCredential::new_with_target(Some("work"), "svc", "usr").unwrap();
    let reader = SsCredential::new_with_target(Some("work"), "svc", "usr").unwrap();
    writer.set_secret(&mut store, &[1, 2, 3]).unwrap();
    assert_eq!(reader.get_secret(&store).unwrap(), vec![1, 2, 3]);
    reader.set_password(&mut store, "second").unwrap();
    assert_eq!(writer.get_password(&store).unwrap(), "second");
}

#[test]
fn two_legacy_records_are_ambiguous() {
    let mut store = SecretStore::new();
    legacy_item(&mut store, "svc", "usr", b"first");
    legacy_item(&mut store, "svc", "usr", b"second");
    let cred = SsCredential::new_with_target(None, "svc", "usr").unwrap();
    match cred.get_password(&store) {
        Err(Error::Ambiguous(creds)) => {
            assert_eq!(creds.len(), 2);
            for c in &creds {
                assert_eq!(c.attributes.get("service"), Some("svc"));
                assert_eq!(c.attributes.get("username"), Some("usr"));
                assert!(!c.attributes.contains_key("target"));
                assert_eq!(c.label, "keyring-rs v4 for no target, service 'svc', user 'usr'");
            }
        }
        other => panic!("expected an ambiguous result, got {other:?}"),
    }
    // setting never overwrites one of several candidates
    assert!(matches!(cred.set_password(&mut store, "new"), Err(Error::Ambiguous(_))));
    assert_eq!(cred.get_all_passwords(&store).unwrap(), vec!["first", "second"]);
    cred.delete_all_passwords(&mut store).unwrap();
    assert!(matches!(cred.get_password(&store), Err(Error::NoEntry)));
}

#[test]
fn legacy_record_is_found_only_by_the_default_target() {
    let mut store = SecretStore::new();
    legacy_item(&mut store, "svc", "usr", b"old secret");
    let default = SsCredential::new_with_target(None, "svc", "usr").unwrap();
    assert_eq!(default.get_password(&store).unwrap(), "old secret");
    let other = SsCredential::new_with_target(Some("work"), "svc", "usr").unwrap();
    assert!(matches!(other.get_password(&store), Err(Error::NoEntry)));
    let legacy = SsCredential::new_with_no_target("svc", "usr").unwrap();
    assert_eq!(legacy.get_password(&store).unwrap(), "old secret");
}

#[test]
fn targeted_record_hides_legacy_record() {
    let mut store = SecretStore::new();
    legacy_item(&mut store, "svc", "usr", b"old");
    let default = SsCredential::new_with_target(Some("default"), "svc", "usr").unwrap();
    let other = SsCredential::new_with_target(Some("work"), "svc", "usr").unwrap();
    // a record with another target does not hide the legacy one
    other.set_password(&mut store, "work secret").unwrap();
    assert_eq!(default.get_password(&store).unwrap(), "old");
    assert_eq!(other.get_password(&store).unwrap(), "work secret");
}

#[test]
fn legacy_credential_cannot_create() {
    let mut store = SecretStore::new();
    let legacy = SsCredential::new_with_no_target("svc", "usr").unwrap();
    match legacy.set_password(&mut store, "pw") {
        Err(Error::Invalid(field, reason)) => {
            assert_eq!(field, "target");
            assert_eq!(reason, "cannot be empty");
        }
        other => panic!("expected an invalid target, got {other:?}"),
    }
    assert!(matches!(legacy.get_password(&store), Err(Error::NoEntry)));
}

#[test]
fn attributes_scenario() {
    let mut store = SecretStore::new();
    let cred = SsCredential::new_with_target(None, "svc", "usr").unwrap();
    cred.set_password(&mut store, "hello").unwrap();
    assert_eq!(cred.get_password(&store).unwrap(), "hello");
    let mut updates = AttrMap::new();
    updates.insert("color", "blue");
    cred.update_attributes(&mut store, &updates).unwrap();
    let attrs = cred.get_attributes(&store).unwrap();
    assert_eq!(attrs.get("color"), Some("blue"));
    cred.delete_credential(&mut store).unwrap();
    assert!(matches!(cred.get_password(&store), Err(Error::NoEntry)));
}

#[test]
fn controlled_attributes_are_hidden_and_kept() {
    let mut store = SecretStore::new();
    let cred = SsCredential::new_with_target(None, "svc", "usr").unwrap();
    cred.set_password(&mut store, "pw").unwrap();
    let mut updates = AttrMap::new();
    updates.insert("service", "other service");
    updates.insert("username", "other user");
    updates.insert("target", "other target");
    updates.insert("application", "other application");
    cred.update_attributes(&mut store, &updates).unwrap();
    // the item is still found by its identity, with its identity unchanged
    let item = cred.new_from_matching_item(&store).unwrap();
    assert_eq!(item.attributes.get("service"), Some("svc"));
    assert_eq!(item.attributes.get("username"), Some("usr"));
    assert_eq!(item.attributes.get("target"), Some("default"));
    assert_eq!(item.attributes.get("application"), Some("rust-keyring"));
    let attrs = cred.get_attributes(&store).unwrap();
    assert!(!attrs.contains_key("application"));
    assert!(!attrs.contains_key("service"));
    assert!(!attrs.contains_key("username"));
    assert!(!attrs.contains_key("target"));
    assert_eq!(attrs.get("label"), Some("usr@svc:default (keyring v4)"));
}

#[test]
fn empty_label_is_refused_and_label_kept() {
    let mut store = SecretStore::new();
    let cred = SsCredential::new_with_target(None, "svc", "usr").unwrap();
    cred.set_password(&mut store, "pw").unwrap();
    let mut updates = AttrMap::new();
    updates.insert("label", "");
    updates.insert("color", "blue");
    match cred.update_attributes(&mut store, &updates) {
        Err(Error::Invalid(field, _)) => assert_eq!(field, "label"),
        other => panic!("expected an invalid label, got {other:?}"),
    }
    let attrs = cred.get_attributes(&store).unwrap();
    assert_eq!(attrs.get("label"), Some("usr@svc:default (keyring v4)"));
    assert!(!attrs.contains_key("color"));
}

#[test]
fn label_update_changes_the_label() {
    let mut store = SecretStore::new();
    let cred = SsCredential::new_with_target(None, "svc", "usr").unwrap();
    cred.set_password(&mut store, "pw").unwrap();
    let mut updates = AttrMap::new();
    updates.insert("label", "my label");
    cred.update_attributes(&mut store, &updates).unwrap();
    let item = cred.new_from_matching_item(&store).unwrap();
    assert_eq!(item.label, "my label");
    // the label is not an attribute of the item
    assert!(!item.attributes.contains_key("label"));
}

#[test]
fn labels_follow_their_formulas() {
    let cred = SsCredential::new_with_target(None, "svc", "usr").unwrap();
    assert_eq!(cred.label, "usr@svc:default (keyring v4)");
    assert_eq!(cred.attributes.get("service"), Some("svc"));
    assert_eq!(cred.attributes.get("username"), Some("usr"));
    assert_eq!(cred.attributes.get("target"), Some("default"));
    assert_eq!(cred.attributes.get("application"), Some("rust-keyring"));
    let legacy = SsCredential::new_with_no_target("svc", "usr").unwrap();
    assert_eq!(legacy.label, "keyring-rs v4 for no target, service 'svc', user 'usr'");
    assert!(!legacy.attributes.contains_key("target"));
}

#[test]
fn search_attributes_omit_target_on_request() {
    let cred = SsCredential::new_with_target(Some("work"), "svc", "usr").unwrap();
    let full = cred.search_attributes(false);
    assert_eq!(full.get("target"), Some("work"));
    assert_eq!(full.get("service"), Some("svc"));
    assert!(!full.contains_key("application"));
    let partial = cred.search_attributes(true);
    assert!(!partial.contains_key("target"));
    assert_eq!(partial.get("username"), Some("usr"));
}

#[test]
fn non_utf8_secret_is_bad_encoding() {
    let mut store = SecretStore::new();
    let cred = SsCredential::new_with_target(None, "svc", "usr").unwrap();
    cred.set_secret(&mut store, &[0xff, 0xfe, 0x41]).unwrap();
    match cred.get_password(&store) {
        Err(Error::BadEncoding(bytes)) => assert_eq!(bytes, vec![0xff, 0xfe, 0x41]),
        other => panic!("expected a bad encoding, got {other:?}"),
    }
    assert!(matches!(cred.get_all_passwords(&store), Err(Error::BadEncoding(_))));
    assert_eq!(cred.get_secret(&store).unwrap(), vec![0xff, 0xfe, 0x41]);
}

#[test]
fn decode_password_reads_utf8() {
    assert_eq!(decode_password("桜 ok".as_bytes().to_vec()).unwrap(), "桜 ok");
    assert!(matches!(decode_password(vec![0xc3]), Err(Error::BadEncoding(b)) if b == vec![0xc3]));
}

#[test]
fn empty_target_error_names_the_field() {
    match empty_target() {
        Error::Invalid(field, reason) => {
            assert_eq!(field, "target");
            assert_eq!(reason, "cannot be empty");
        }
        other => panic!("expected an invalid target, got {other:?}"),
    }
}

#[test]
fn internalize_copies_or_starts_empty() {
    let mut config = AttrMap::new();
    config.insert("backing-file", "/tmp/keys");
    let copy = internalize(Some(&config));
    assert_eq!(copy.get("backing-file"), Some("/tmp/keys"));
    let empty = internalize(None);
    assert!(empty.keys().is_empty());
}

#[test]
fn attribute_map_inserts_replaces_and_removes() {
    let mut m = AttrMap::new();
    m.insert("a", "1");
    m.insert("b", "2");
    m.insert("a", "3");
    assert_eq!(m.get("a"), Some("3"));
    assert_eq!(m.keys().len(), 2);
    m.remove("a");
    assert!(!m.contains_key("a"));
    assert_eq!(m.get("b"), Some("2"));
    let mut other = AttrMap::new();
    other.insert("b", "2");
    other.insert("c", "4");
    assert!(m.is_submap_of(&other));
    assert!(!other.is_submap_of(&m));
}

#[test]
fn new_collection_is_created_once() {
    let mut store = SecretStore::new();
    let first = SsCredential::new_with_target(Some("work"), "svc", "first").unwrap();
    let second = SsCredential::new_with_target(Some("work"), "svc", "second").unwrap();
    assert!(store.get_collection(&"work".to_string()).is_none());
    first.set_password(&mut store, "one").unwrap();
    let work = store.get_collection(&"work".to_string()).unwrap();
    second.set_password(&mut store, "two").unwrap();
    assert_eq!(store.get_collection(&"work".to_string()), Some(work));
    assert_ne!(work, default_collection(&store));
    assert_eq!(store.get_collection(&"Login".to_string()), Some(0));
}

#[test]
fn uniqueness_policy() {
    assert_eq!(verdict(0, true), Verdict::NoEntry);
    assert_eq!(verdict(1, true), Verdict::Proceed);
    assert_eq!(verdict(3, true), Verdict::Ambiguous);
    assert_eq!(verdict(0, false), Verdict::Proceed);
    assert_eq!(verdict(3, false), Verdict::Proceed);
}

#[test]
fn legacy_search_follows_only_an_empty_default_search() {
    let default = SsCredential::new_with_target(None, "svc", "usr").unwrap();
    assert!(default.falls_back(0));
    assert!(!default.falls_back(1));
    let other = SsCredential::new_with_target(Some("work"), "svc", "usr").unwrap();
    assert!(!other.falls_back(0));
    let legacy = SsCredential::new_with_no_target("svc", "usr").unwrap();
    assert!(!legacy.falls_back(0));
}

#[test]
fn creation_only_after_no_entry_and_with_a_target() {
    let cred = SsCredential::new_with_target(Some("work"), "svc", "usr").unwrap();
    assert_eq!(cred.creation_target(Error::NoEntry).unwrap(), "work");
    assert!(matches!(
        cred.creation_target(Error::Ambiguous(Vec::new())),
        Err(Error::Ambiguous(_))
    ));
    let legacy = SsCredential::new_with_no_target("svc", "usr").unwrap();
    assert!(matches!(legacy.creation_target(Error::NoEntry), Err(Error::Invalid(f, _)) if f == "target"));
}

#[test]
fn default_collection_name() {
    assert!(names_default_collection(&"default".to_string()));
    assert!(!names_default_collection(&"Login".to_string()));
    assert!(!names_default_collection(&"".to_string()));
}

#[test]
fn native_failures_are_classified() {
    assert!(matches!(
        decode_error(StoreFailure::Locked("locked".to_string())),
        Error::NoStorageAccess(c) if c == "locked"
    ));
    assert!(matches!(
        decode_error(StoreFailure::NoResult("none".to_string())),
        Error::NoStorageAccess(_)
    ));
    assert!(matches!(
        decode_error(StoreFailure::Prompt("declined".to_string())),
        Error::NoStorageAccess(_)
    ));
    assert!(matches!(
        decode_error(StoreFailure::Other("dbus".to_string())),
        Error::PlatformFailure(c) if c == "dbus"
    ));
}

#[test]
fn round_trip_over_an_existing_record() {
    let mut store = SecretStore::new();
    let first = SsCredential::new_with_target(Some("work"), "svc", "usr").unwrap();
    first.set_password(&mut store, "old").unwrap();
    let cred = SsCredential::new_with_target(Some("work"), "svc", "usr").unwrap();
    cred.set_password(&mut store, "new ☂").unwrap();
    assert_eq!(cred.get_password(&store).unwrap(), "new ☂");
    cred.delete_credential(&mut store).unwrap();
    assert!(matches!(cred.get_password(&store), Err(Error::NoEntry)));
}

#[test]
fn readiness_is_checked_at_run_time() {
    let store = SecretStore::new();
    let cred = SsCredential::new_with_target(None, "svc", "usr").unwrap();
    assert!(rust_native_keyring::credential::CredentialApi::is_ready(&cred, &store));
    assert!(store.is_well_formed());
    let mut bare = SsCredential { attributes: AttrMap::new(), label: "x".to_string() };
    assert!(!bare.is_well_formed());
    bare.attributes.insert("service", "svc");
    bare.attributes.insert("username", "usr");
    assert!(bare.is_well_formed());
}
