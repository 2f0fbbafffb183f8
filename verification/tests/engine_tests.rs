use credential_engine::alias::CredentialId;
use credential_engine::engine::CredentialStore;
use credential_engine::error::Error;

fn id(service: &str, account: &str) -> CredentialId {
    CredentialId::new(service.to_string(), account.to_string())
}

#[test]
fn golden_path() {
    let mut store = CredentialStore::new();
    let entry1 = id("myservice", "myuser");
    let entry2 = id("myservice", "myuser2");
    let entry3 = id("myservice2", "myuser");

    store.set_password(&entry1, b"test").unwrap();
    assert_eq!(store.get_password(&entry1).unwrap(), b"test".to_vec());
    match store.get_password(&entry2) {
        Err(Error::NoEntry) => {}
        x => panic!("unexpected result on entry2 get_password(): {x:?}"),
    }
    match store.get_password(&entry3) {
        Err(Error::NoEntry) => {}
        x => panic!("unexpected result on entry3 get_password(): {x:?}"),
    }

    store.set_password(&entry2, b"test2").unwrap();
    assert_eq!(store.get_password(&entry2).unwrap(), b"test2".to_vec());

    store.set_password(&entry3, b"test3").unwrap();
    assert_eq!(store.get_password(&entry3).unwrap(), b"test3".to_vec());

    assert_eq!(store.get_password(&entry1).unwrap(), b"test".to_vec());
}

#[test]
fn corrupted_entry() {
    let mut store = CredentialStore::new();
    let entry = id("corrupted", "myuser");
    store.set_password(&entry, b"test").unwrap();

    // Replace the key behind the alias out-of-band, corrupting the entry.
    store.regenerate_key(&entry).unwrap();

    match store.get_password(&entry) {
        Err(Error::PlatformFailure) => {}
        x => panic!("unexpected result on corrupted get_password(): {x:?}"),
    }
    match store.get_password(&entry) {
        Err(Error::PlatformFailure) => {}
        x => panic!("unexpected result on corrupted get_password(): {x:?}"),
    }

    store.set_password(&entry, b"reset").unwrap();
    assert_eq!(store.get_password(&entry).unwrap(), b"reset".to_vec());
}

#[test]
fn concurrent_access() {
    // Operations on the engine serialize through exclusive access, so the
    // schedule 64 same-value writers produce is this sequence of writes;
    // the read after it must see that value, whole.
    let mut store = CredentialStore::new();
    let entry = id("concurrent", "user");
    for _ in 0..64 {
        store.set_password(&entry, b"same").unwrap();
    }
    assert_eq!(store.get_password(&entry).unwrap(), b"same".to_vec());
}

#[test]
fn overwrite_returns_second_secret() {
    let mut store = CredentialStore::new();
    let entry = id("svc", "user");
    store.set_password(&entry, b"first").unwrap();
    store.set_password(&entry, b"second").unwrap();
    assert_eq!(store.get_password(&entry).unwrap(), b"second".to_vec());
}

#[test]
fn isolation_between_credentials() {
    let mut store = CredentialStore::new();
    let a = id("svc", "u1");
    let b = id("svc", "u2");
    let c = id("svc2", "u1");
    store.set_password(&a, b"alpha").unwrap();
    store.set_password(&b, b"beta").unwrap();
    store.set_password(&c, b"gamma").unwrap();
    assert_eq!(store.get_password(&a).unwrap(), b"alpha".to_vec());
    assert_eq!(store.get_password(&b).unwrap(), b"beta".to_vec());
    assert_eq!(store.get_password(&c).unwrap(), b"gamma".to_vec());
}

#[test]
fn missing_entry_is_no_entry() {
    let store = CredentialStore::new();
    let entry = id("svc", "user");
    match store.get_password(&entry) {
        Err(Error::NoEntry) => {}
        x => panic!("unexpected result: {x:?}"),
    }
}

#[test]
fn delete_then_get_is_no_entry() {
    let mut store = CredentialStore::new();
    let entry = id("svc", "user");
    store.set_password(&entry, b"secret").unwrap();
    store.delete_credential(&entry).unwrap();
    match store.get_password(&entry) {
        Err(Error::NoEntry) => {}
        x => panic!("unexpected result: {x:?}"),
    }
}

#[test]
fn delete_without_entry_is_no_entry() {
    let mut store = CredentialStore::new();
    let entry = id("svc", "user");
    match store.delete_credential(&entry) {
        Err(Error::NoEntry) => {}
        x => panic!("unexpected result: {x:?}"),
    }
}

#[test]
fn delete_leaves_other_entries() {
    let mut store = CredentialStore::new();
    let a = id("svc", "u1");
    let b = id("svc", "u2");
    store.set_password(&a, b"alpha").unwrap();
    store.set_password(&b, b"beta").unwrap();
    store.delete_credential(&a).unwrap();
    assert_eq!(store.get_password(&b).unwrap(), b"beta".to_vec());
}

#[test]
fn empty_secret_round_trips() {
    let mut store = CredentialStore::new();
    let entry = id("svc", "user");
    store.set_password(&entry, b"").unwrap();
    assert_eq!(store.get_password(&entry).unwrap(), Vec::<u8>::new());
}

#[test]
fn invalid_identifiers_are_rejected() {
    let mut store = CredentialStore::new();
    for bad in [
        id("", "user"),
        id("svc", ""),
        id("svc:extra", "user"),
        id("svc", "us:er"),
        id("sv c", "user"),
        id("h\u{e9}llo", "user"),
    ] {
        match store.set_password(&bad, b"x") {
            Err(Error::InvalidArgument) => {}
            x => panic!("unexpected set_password result for {bad:?}: {x:?}"),
        }
        match store.get_password(&bad) {
            Err(Error::InvalidArgument) => {}
            x => panic!("unexpected get_password result for {bad:?}: {x:?}"),
        }
        match store.delete_credential(&bad) {
            Err(Error::InvalidArgument) => {}
            x => panic!("unexpected delete_credential result for {bad:?}: {x:?}"),
        }
    }
}

#[test]
fn set_after_delete_round_trips() {
    let mut store = CredentialStore::new();
    let entry = id("svc", "user");
    store.set_password(&entry, b"one").unwrap();
    store.delete_credential(&entry).unwrap();
    store.set_password(&entry, b"two").unwrap();
    assert_eq!(store.get_password(&entry).unwrap(), b"two".to_vec());
}
