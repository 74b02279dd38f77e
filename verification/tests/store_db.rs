use std::collections::BTreeMap;

use dratchet::store::contacts::{Contact, VerificationState};
use dratchet::store::crypto::{decrypt, encrypt, encrypt_with};
use dratchet::store::db::{Change, Db, Scope};
use dratchet::store::error::Error;
use dratchet::store::messages::Message;

const CONTENT_DEK_KEY: &str = "__content_dek__";
const IDENTITY_DEK_KEY: &str = "__identity_dek__";
const CONTACTS_DEK_KEY: &str = "__contacts_dek__";

type Table = BTreeMap<Vec<u8>, Vec<u8>>;

fn apply(table: &mut Table, change: Change) {
    match change {
        Change::Put { name, value } => {
            table.insert(name, value);
        }
        Change::Remove { names } => {
            for name in names {
                table.remove(&name);
            }
        }
    }
}

fn commit(table: &mut Table, db: &mut Db) {
    for change in db.take_changes() {
        apply(table, change);
    }
}

fn entries(table: &Table) -> Vec<(Vec<u8>, Vec<u8>)> {
    table.iter().map(|(k, v)| (k.clone(), v.clone())).collect()
}

fn create(passphrase: &str) -> (Table, Db) {
    let mut db = Db::create(passphrase).unwrap();
    let mut table = Table::new();
    commit(&mut table, &mut db);
    (table, db)
}

fn raw_record(table: &Table, key: &str) -> Vec<u8> {
    table.get(key.as_bytes()).unwrap().clone()
}

fn sample_contact(fingerprint: u8) -> Contact {
    Contact {
        fingerprint: vec![fingerprint; 32],
        username: Some("alice".to_string()),
        discriminator: Some(1234),
        verification_state: VerificationState::Verified,
        mailbox_id: vec![0xAB; 16],
        created_at: 0,
        local_routing_id: vec![0xCD; 32],
        peer_routing_id: None,
        wipe_ask_before_delete: false,
        peer_wipe_ask_before_delete: None,
        wipe_include_session: false,
        peer_wipe_include_session: None,
        wipe_request_pending: false,
        wipe_boundary_timestamp: None,
        wipe_boundary_sequence: None,
        peer_wipe_boundary_timestamp: None,
        peer_wipe_boundary_sequence: None,
    }
}

fn sample_message(id: u8, timestamp: u64, content: &[u8]) -> Message {
    Message {
        id: vec![id; 16],
        sender_is_local: true,
        content: content.to_vec(),
        timestamp,
        sequence: 0,
        send_n: None,
        send_dh_pub: None,
        delivered: false,
        uncertain: false,
    }
}

#[test]
fn create_then_open_round_trips_a_generic_encrypted_value() {
    let (mut table, mut db) = create("correct horse battery staple");
    db.put_encrypted(Scope::Content, b"k", b"hello world").unwrap();
    assert_eq!(db.get_encrypted(Scope::Content, b"k").unwrap().unwrap(), b"hello world");
    commit(&mut table, &mut db);
    drop(db);

    let db = Db::open(entries(&table), "correct horse battery staple").unwrap();
    assert_eq!(db.get_encrypted(Scope::Content, b"k").unwrap().unwrap(), b"hello world");
}

#[test]
fn opening_with_the_wrong_passphrase_fails_cleanly() {
    let (table, _db) = create("the right passphrase");
    match Db::open(entries(&table), "definitely the wrong passphrase") {
        Err(Error::WrongPassphraseOrCorrupted) => {}
        Err(other) => panic!("expected WrongPassphraseOrCorrupted, got {}", other.message()),
        Ok(_) => panic!("opening with the wrong passphrase must not succeed"),
    }
}

#[test]
fn delete_and_keys_with_prefix_work() {
    let (_, mut db) = create("pw");
    db.put_encrypted(Scope::Content, b"thing:1", b"a").unwrap();
    db.put_encrypted(Scope::Content, b"thing:2", b"b").unwrap();
    db.put_encrypted(Scope::Content, b"other:1", b"c").unwrap();

    let mut things = db.keys_with_prefix(b"thing:");
    things.sort();
    assert_eq!(things, vec![b"thing:1".to_vec(), b"thing:2".to_vec()]);

    db.delete(b"thing:1");
    assert_eq!(db.get_encrypted(Scope::Content, b"thing:1").unwrap(), None);
    assert_eq!(db.keys_with_prefix(b"thing:"), vec![b"thing:2".to_vec()]);
}

#[test]
fn quick_wipe_erases_messages_and_ratchet_state_but_keeps_identity_and_contacts() {
    let (_, mut db) = create("pw");
    let conv = [9u8; 16];

    db.save_account(b"exported account").unwrap();
    let contact = sample_contact(1);
    db.save_contact(&contact).unwrap();
    db.save_ratchet(conv, b"exported ratchet").unwrap();
    db.save_message(conv, &sample_message(1, 100, b"gone after a quick wipe")).unwrap();

    let removed = db.quick_wipe().unwrap();
    assert_eq!(removed, 2, "one message + one ratchet record");

    assert_eq!(
        db.load_account().unwrap().as_deref(),
        Some(&b"exported account"[..]),
        "identity must survive a quick wipe"
    );
    assert!(
        db.load_contact(&contact.fingerprint).unwrap().is_some(),
        "contacts must survive a quick wipe"
    );
    assert!(
        db.load_ratchet(conv).unwrap().is_none(),
        "ratchet/session state must not survive a quick wipe"
    );
    assert!(
        db.list_messages(conv).unwrap().is_empty(),
        "message history must not survive a quick wipe"
    );
}

#[test]
fn quick_wipe_rotates_the_content_encryption_key() {
    let (mut table, mut db) = create("pw");
    let wrapped_before = raw_record(&table, CONTENT_DEK_KEY);

    db.quick_wipe().unwrap();
    commit(&mut table, &mut db);

    let wrapped_after = raw_record(&table, CONTENT_DEK_KEY);
    assert_ne!(
        wrapped_before, wrapped_after,
        "quick_wipe must rotate the content encryption key, not merely delete records"
    );

    let conv = [5u8; 16];
    db.save_message(
        conv,
        &sample_message(2, 200, b"written after the wipe, under the new key"),
    )
    .unwrap();
    commit(&mut table, &mut db);
    drop(db);

    let db = Db::open(entries(&table), "pw").unwrap();
    let messages = db.list_messages(conv).unwrap();
    assert_eq!(messages.len(), 1);
    assert_eq!(messages[0].content, b"written after the wipe, under the new key");
}

#[test]
fn quick_wipe_does_not_rotate_identity_or_contacts_keys() {
    let (mut table, mut db) = create("pw");
    let identity_before = raw_record(&table, IDENTITY_DEK_KEY);
    let contacts_before = raw_record(&table, CONTACTS_DEK_KEY);

    db.quick_wipe().unwrap();
    commit(&mut table, &mut db);

    assert_eq!(identity_before, raw_record(&table, IDENTITY_DEK_KEY));
    assert_eq!(contacts_before, raw_record(&table, CONTACTS_DEK_KEY));
}

#[test]
fn full_wipe_makes_the_database_permanently_unopenable() {
    let (mut table, mut db) = create("pw");
    db.save_account(b"exported account").unwrap();
    db.save_contact(&sample_contact(1)).unwrap();

    db.full_wipe().unwrap();
    commit(&mut table, &mut db);
    drop(db);

    for passphrase in ["pw", "some other passphrase entirely"] {
        match Db::open(entries(&table), passphrase) {
            Err(Error::MalformedRecord(_)) => {}
            Err(other) => panic!("expected a missing salt error, got {}", other.message()),
            Ok(_) => panic!("opening a fully wiped database must not succeed"),
        }
    }
}

#[test]
fn full_wipe_removes_every_wrapped_key_record() {
    let (mut table, mut db) = create("pw");
    assert_eq!(table.len(), 5);
    db.full_wipe().unwrap();
    commit(&mut table, &mut db);
    for key in [
        "__salt__",
        "__kdf_check__",
        IDENTITY_DEK_KEY,
        CONTACTS_DEK_KEY,
        CONTENT_DEK_KEY,
    ] {
        assert!(table.get(key.as_bytes()).is_none(), "{key} must not survive a full wipe");
    }
}

#[test]
fn account_and_session_bytes_survive_a_restart() {
    let (mut table, mut db) = create("pw");
    db.save_account(b"account bytes").unwrap();
    db.save_ratchet([7u8; 16], b"session bytes").unwrap();
    commit(&mut table, &mut db);

    let db = Db::open(entries(&table), "pw").unwrap();
    assert_eq!(db.load_account().unwrap().unwrap(), b"account bytes");
    assert_eq!(db.load_ratchet([7u8; 16]).unwrap().unwrap(), b"session bytes");
    assert!(db.load_ratchet([8u8; 16]).unwrap().is_none());
    let raw = raw_record(&table, "ratchet:07070707070707070707070707070707");
    assert!(!raw.windows(13).any(|w| w == b"session bytes"));
    assert_eq!(raw.len(), 12 + b"session bytes".len() + 16);
}

#[test]
fn every_stage_of_a_quick_wipe_is_safe_to_be_cut_short() {
    let (mut table, mut db) = create("pw");
    let conv = [0x55u8; 16];
    db.save_account(b"account").unwrap();
    db.save_contact(&sample_contact(1)).unwrap();
    for id in 0..5u8 {
        db.save_message(conv, &sample_message(id, 100, b"must become unrecoverable")).unwrap();
    }
    commit(&mut table, &mut db);
    let wrapped_before = raw_record(&table, CONTENT_DEK_KEY);

    assert_eq!(db.quick_wipe().unwrap(), 5);
    let mut stage = 0;
    for change in db.take_changes() {
        apply(&mut table, change);
        stage += 1;
        assert_ne!(raw_record(&table, CONTENT_DEK_KEY), wrapped_before);
        let db = Db::open(entries(&table), "pw").expect("the store opens at every stage");
        assert!(db.list_messages(conv).unwrap().is_empty());
        assert_eq!(db.unreadable_messages(conv), if stage == 1 { 5 } else { 0 });
        assert_eq!(db.load_account().unwrap().unwrap(), b"account");
        assert_eq!(db.list_contacts().unwrap().len(), 1);
    }
    assert_eq!(stage, 2);
}

#[test]
fn one_junk_message_record_denies_nothing_else() {
    let (mut table, mut db) = create("pw");
    let conv = [1u8; 16];
    db.save_account(b"account").unwrap();
    let mut message = sample_message(1, 100, b"kept");
    message.sequence = 41;
    db.save_message(conv, &message).unwrap();
    commit(&mut table, &mut db);
    table.insert(b"message:junk".to_vec(), b"x".to_vec());
    table.insert(
        dratchet::store::messages::message_key(conv, &[9; 16]),
        b"something that does not decrypt at all".to_vec(),
    );

    let db = Db::open(entries(&table), "pw").unwrap();
    assert_eq!(db.load_account().unwrap().unwrap(), b"account");
    assert_eq!(db.list_messages(conv).unwrap().len(), 1);
    assert_eq!(db.unreadable_messages(conv), 1);
    assert_eq!(db.message_sequence(), 42);
}

#[test]
fn a_record_under_another_name_does_not_decrypt() {
    let (mut table, mut db) = create("pw");
    db.put_encrypted(Scope::Identity, b"here", b"value").unwrap();
    commit(&mut table, &mut db);
    let moved = table.remove(&b"here"[..]).unwrap();
    table.insert(b"there".to_vec(), moved);

    let db = Db::open(entries(&table), "pw").unwrap();
    assert!(matches!(
        db.get_encrypted(Scope::Identity, b"there"),
        Err(Error::DecryptionFailed)
    ));
    assert!(db.get_encrypted(Scope::Identity, b"here").unwrap().is_none());
}

#[test]
fn a_record_does_not_decrypt_in_another_scope() {
    let (_, mut db) = create("pw");
    db.put_encrypted(Scope::Contacts, b"n", b"value").unwrap();
    assert!(matches!(db.get_encrypted(Scope::Content, b"n"), Err(Error::DecryptionFailed)));
}

#[test]
fn damaged_tables_are_refused_with_their_reason() {
    let (table, _) = create("pw");

    let reason = |table: &Table| match Db::open(entries(table), "pw") {
        Ok(_) => "opened".to_string(),
        Err(e) => e.message(),
    };

    let mut t = table.clone();
    t.insert(b"__salt__".to_vec(), vec![0xff; 22]);
    assert_eq!(reason(&t), "stored record is malformed: salt is not valid UTF-8");

    let mut t = table.clone();
    t.insert(b"__salt__".to_vec(), b"short".to_vec());
    assert_eq!(reason(&t), "passphrase hashing failed: salt is too short");

    let mut t = table.clone();
    t.remove(&b"__kdf_check__"[..]);
    assert_eq!(reason(&t), "stored record is malformed: missing KDF check value");

    let mut t = table.clone();
    t.insert(b"__kdf_check__".to_vec(), vec![1, 2, 3]);
    assert_eq!(reason(&t), "stored record is malformed: stored value shorter than a nonce");

    let mut t = table.clone();
    t.remove(&b"__contacts_dek__"[..]);
    assert_eq!(
        reason(&t),
        "stored record is malformed: missing wrapped data-encryption key — not a dratchet-store database"
    );

    assert_eq!(
        reason(&Table::new()),
        "stored record is malformed: missing salt — not a dratchet-store database"
    );
}

#[test]
fn what_is_drawn_is_what_is_used() {
    let salt = "c2FsdHNhbHRzYWx0c2FsdA";
    let mut db = Db::create_with("pw", salt, [1; 32], [2; 32], [3; 32]).unwrap();
    let mut table = Table::new();
    commit(&mut table, &mut db);
    assert_eq!(raw_record(&table, "__salt__"), salt.as_bytes());
    assert!(matches!(
        Db::create_with("pw", "short", [1; 32], [2; 32], [3; 32]),
        Err(Error::PassphraseHash(_))
    ));

    db.put_encrypted_with(Scope::Contacts, &[7; 12], b"n", b"value").unwrap();
    commit(&mut table, &mut db);
    let stored = encrypt_with(&[2; 32], &[7; 12], b"n", b"value").unwrap();
    assert_eq!(raw_record(&table, "n"), stored);
    assert_eq!(stored[..12], [7; 12]);
    assert_eq!(decrypt(&[2; 32], b"n", &stored).unwrap(), b"value");
    assert_ne!(
        encrypt(&[2; 32], b"n", b"value").unwrap(),
        encrypt(&[2; 32], b"n", b"value").unwrap()
    );

    db.put_encrypted_with(Scope::Content, &[8; 12], b"c", b"before").unwrap();
    assert_eq!(db.quick_wipe_with([9; 32]).unwrap(), 0);
    assert!(matches!(db.get_encrypted(Scope::Content, b"c"), Err(Error::DecryptionFailed)));
    db.put_encrypted_with(Scope::Content, &[8; 12], b"c", b"after").unwrap();
    commit(&mut table, &mut db);
    let stored = raw_record(&table, "c");
    assert_eq!(decrypt(&[9; 32], b"c", &stored).unwrap(), b"after");
    assert!(decrypt(&[3; 32], b"c", &stored).is_err());
    let db = Db::open(entries(&table), "pw").unwrap();
    assert_eq!(db.get_encrypted(Scope::Content, b"c").unwrap().unwrap(), b"after");
}

#[test]
fn two_stores_with_one_passphrase_share_no_secret() {
    let (first, _) = create("pw");
    let (second, _) = create("pw");
    assert_ne!(raw_record(&first, "__salt__"), raw_record(&second, "__salt__"));
    assert_ne!(raw_record(&first, CONTENT_DEK_KEY), raw_record(&second, CONTENT_DEK_KEY));
    assert_eq!(raw_record(&first, "__salt__").len(), 22);
}

#[test]
fn zeroized_keys_read_nothing_any_more() {
    let (_, mut db) = create("pw");
    db.put_encrypted(Scope::Identity, b"n", b"value").unwrap();
    db.zeroize_keys();
    assert!(matches!(db.get_encrypted(Scope::Identity, b"n"), Err(Error::DecryptionFailed)));
}
