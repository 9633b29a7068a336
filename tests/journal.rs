use crud_app::{
    create_journal_entry, delete_journal_entry, derive_key, journal_entry_address,
    update_journal_entry, CreateJournalEntry, DeleteJournalEntry, JournalError, JournalStore,
    Pubkey, UpdateJournalEntry,
};

fn key(b: u8) -> Pubkey {
    Pubkey::new([b; 32])
}

fn create(store: &mut JournalStore, owner: Pubkey, title: &str, message: &str) -> Result<(), JournalError> {
    let ctx = CreateJournalEntry { owner, owner_is_signer: true };
    create_journal_entry(store, &ctx, title.to_string(), message.to_string())
}

fn update(store: &mut JournalStore, owner: Pubkey, title: &str, message: &str) -> Result<(), JournalError> {
    let ctx = UpdateJournalEntry { owner, owner_is_signer: true };
    update_journal_entry(store, &ctx, title.to_string(), message.to_string())
}

fn delete(store: &mut JournalStore, owner: Pubkey, title: &str) -> Result<(), JournalError> {
    let ctx = DeleteJournalEntry { owner, owner_is_signer: true };
    delete_journal_entry(store, &ctx, title.to_string())
}

fn message_at(store: &JournalStore, owner: Pubkey, title: &str) -> Option<String> {
    store.read(&derive_key(title, &owner)).map(|e| e.message.clone())
}

#[test]
fn derive_key_is_title_bytes_then_owner() {
    let k = derive_key("Notes", &key(7));
    let mut expected = b"Notes".to_vec();
    expected.extend_from_slice(&[7u8; 32]);
    assert_eq!(k, expected);
    assert_eq!(derive_key("", &key(1)), vec![1u8; 32]);
}

#[test]
fn derive_key_is_deterministic_and_distinct() {
    assert_eq!(derive_key("Notes", &key(1)), derive_key("Notes", &key(1)));
    let pairs = [("Notes", 1u8), ("Notes", 2), ("Note", 1), ("Notes2", 1), ("", 1), ("é", 1)];
    for (i, (t1, o1)) in pairs.iter().enumerate() {
        for (j, (t2, o2)) in pairs.iter().enumerate() {
            if i != j {
                assert_ne!(derive_key(t1, &key(*o1)), derive_key(t2, &key(*o2)));
            }
        }
    }
}

#[test]
fn create_then_read() {
    let mut store = JournalStore::new();
    let caller = key(1);
    assert_eq!(create(&mut store, caller, "Notes", "hello"), Ok(()));
    let entry = store.read(&derive_key("Notes", &caller)).unwrap();
    assert_eq!(entry.owner.bytes, caller.bytes);
    assert_eq!(entry.title, "Notes");
    assert_eq!(entry.message, "hello");
    assert_eq!(store.len(), 1);
}

#[test]
fn read_of_missing_key_is_none() {
    let store = JournalStore::new();
    assert!(store.read(&derive_key("Notes", &key(1))).is_none());
    assert_eq!(store.len(), 0);
}

#[test]
fn duplicate_create_rejected() {
    let mut store = JournalStore::new();
    let caller = key(1);
    assert_eq!(create(&mut store, caller, "Notes", "x"), Ok(()));
    assert_eq!(create(&mut store, caller, "Notes", "y"), Err(JournalError::AlreadyExists));
    assert_eq!(message_at(&store, caller, "Notes"), Some("x".to_string()));
    assert_eq!(store.len(), 1);
}

#[test]
fn update_preserves_key_fields() {
    let mut store = JournalStore::new();
    let caller = key(1);
    create(&mut store, caller, "Notes", "hello").unwrap();
    assert_eq!(update(&mut store, caller, "Notes", "world"), Ok(()));
    let entry = store.read(&derive_key("Notes", &caller)).unwrap();
    assert_eq!(entry.title, "Notes");
    assert_eq!(entry.owner.bytes, caller.bytes);
    assert_eq!(entry.message, "world");
}

#[test]
fn cross_owner_isolation() {
    let mut store = JournalStore::new();
    let a = key(1);
    let b = key(2);
    assert_eq!(create(&mut store, a, "Notes", "a"), Ok(()));
    assert_eq!(create(&mut store, b, "Notes", "b"), Ok(()));
    assert_eq!(update(&mut store, b, "Notes", "x"), Ok(()));
    assert_eq!(message_at(&store, a, "Notes"), Some("a".to_string()));
    assert_eq!(message_at(&store, b, "Notes"), Some("x".to_string()));
    assert_eq!(delete(&mut store, a, "Notes"), Ok(()));
    assert_eq!(message_at(&store, a, "Notes"), None);
    assert_eq!(message_at(&store, b, "Notes"), Some("x".to_string()));
}

#[test]
fn delete_then_not_found() {
    let mut store = JournalStore::new();
    let caller = key(1);
    create(&mut store, caller, "Notes", "hello").unwrap();
    assert_eq!(delete(&mut store, caller, "Notes"), Ok(()));
    assert_eq!(update(&mut store, caller, "Notes", "anything"), Err(JournalError::NotFound));
    assert_eq!(delete(&mut store, caller, "Notes"), Err(JournalError::NotFound));
    assert_eq!(store.len(), 0);
}

#[test]
fn bound_enforcement() {
    let mut store = JournalStore::new();
    let caller = key(1);
    let long_title = "t".repeat(51);
    assert_eq!(create(&mut store, caller, &long_title, "msg"), Err(JournalError::FieldTooLong));
    assert_eq!(store.len(), 0);
    create(&mut store, caller, "Notes", "hello").unwrap();
    let long_message = "m".repeat(1001);
    assert_eq!(update(&mut store, caller, "Notes", &long_message), Err(JournalError::FieldTooLong));
    assert_eq!(message_at(&store, caller, "Notes"), Some("hello".to_string()));
}

#[test]
fn bounds_are_inclusive_and_counted_in_bytes() {
    let mut store = JournalStore::new();
    let caller = key(1);
    assert_eq!(create(&mut store, caller, &"t".repeat(50), &"m".repeat(1000)), Ok(()));
    assert_eq!(create(&mut store, caller, "Other", &"m".repeat(1001)), Err(JournalError::FieldTooLong));
    // 26 two-byte characters: 52 bytes.
    assert_eq!(create(&mut store, caller, &"é".repeat(26), "msg"), Err(JournalError::FieldTooLong));
    assert_eq!(create(&mut store, caller, &"é".repeat(25), "msg"), Ok(()));
    assert_eq!(store.len(), 2);
}

#[test]
fn unsigned_requests_are_unauthenticated() {
    let mut store = JournalStore::new();
    let caller = key(1);
    let c = CreateJournalEntry { owner: caller, owner_is_signer: false };
    assert_eq!(
        create_journal_entry(&mut store, &c, "Notes".to_string(), "hello".to_string()),
        Err(JournalError::Unauthenticated)
    );
    assert_eq!(store.len(), 0);
    create(&mut store, caller, "Notes", "hello").unwrap();
    let u = UpdateJournalEntry { owner: caller, owner_is_signer: false };
    assert_eq!(
        update_journal_entry(&mut store, &u, "Notes".to_string(), "world".to_string()),
        Err(JournalError::Unauthenticated)
    );
    let d = DeleteJournalEntry { owner: caller, owner_is_signer: false };
    assert_eq!(delete_journal_entry(&mut store, &d, "Notes".to_string()), Err(JournalError::Unauthenticated));
    assert_eq!(message_at(&store, caller, "Notes"), Some("hello".to_string()));
}

#[test]
fn update_of_missing_entry_is_not_found() {
    let mut store = JournalStore::new();
    assert_eq!(update(&mut store, key(1), "Notes", "x"), Err(JournalError::NotFound));
    create(&mut store, key(2), "Notes", "b").unwrap();
    assert_eq!(update(&mut store, key(1), "Notes", "x"), Err(JournalError::NotFound));
    assert_eq!(delete(&mut store, key(1), "Notes"), Err(JournalError::NotFound));
}

#[test]
fn recreate_after_delete() {
    let mut store = JournalStore::new();
    let caller = key(1);
    create(&mut store, caller, "Notes", "one").unwrap();
    delete(&mut store, caller, "Notes").unwrap();
    assert_eq!(create(&mut store, caller, "Notes", "two"), Ok(()));
    assert_eq!(message_at(&store, caller, "Notes"), Some("two".to_string()));
}

#[test]
fn journal_entry_address_is_derived_from_seeds() {
    let program = key(9);
    let owner = key(1);
    let (addr, _bump) = journal_entry_address("Notes", &owner, &program).unwrap();
    assert_ne!(addr, owner.bytes);
    assert_ne!(addr, program.bytes);
    assert_eq!(journal_entry_address("Notes", &owner, &program), Some((addr, _bump)));
    let (other, _) = journal_entry_address("Notes", &key(2), &program).unwrap();
    assert_ne!(addr, other);
    let (other_title, _) = journal_entry_address("Diary", &owner, &program).unwrap();
    assert_ne!(addr, other_title);
}

#[test]
fn journal_entry_address_refuses_long_seed() {
    let program = key(9);
    let owner = key(1);
    assert!(journal_entry_address(&"t".repeat(32), &owner, &program).is_some());
    assert_eq!(journal_entry_address(&"t".repeat(33), &owner, &program), None);
}
