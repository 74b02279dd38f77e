use std::collections::BTreeMap;

use dratchet::store::contacts::{contact_key, Contact, VerificationState};
use dratchet::store::db::{Change, Db, Scope};
use dratchet::store::error::Error;
use dratchet::store::gate::{decrypt_gated, encrypt_gated};
use dratchet::store::messages::{message_key, Message};
use dratchet::store::notification_prefs::NotificationPreviewLevel;
use dratchet::store::profile::OwnProfile;

const PAYLOAD_CHAT: u8 = 0;
const PAYLOAD_DELIVERY_ACK: u8 = 1;
const NOW: u64 = 1_700_000_000;

type Table = BTreeMap<Vec<u8>, Vec<u8>>;

fn commit(table: &mut Table, db: &mut Db) {
    for change in db.take_changes() {
        match change {
            Change::Put { name, value } => {
                table.insert(name, value);
            }
            Change::Remove { names } => {
                for name in names {
                    table.remove(&name);
                }
            }
        }
    }
}

fn reopen(table: &Table) -> Db {
    Db::open(table.iter().map(|(k, v)| (k.clone(), v.clone())).collect(), "pw").unwrap()
}

fn temp_db() -> Db {
    Db::create("pw").unwrap()
}

fn sample_contact(fingerprint: u8) -> Contact {
    Contact {
        fingerprint: vec![fingerprint; 32],
        username: Some("alice".to_string()),
        discriminator: Some(1234),
        verification_state: VerificationState::Pending,
        mailbox_id: vec![0xAB; 16],
        created_at: 1_700_000_000,
        local_routing_id: vec![0xCD; 32],
        peer_routing_id: None,
        wipe_ask_before_delete: false,
        peer_wipe_ask_before_delete: None,
        wipe_include_session: false,
        peer_wipe_include_session: None,
        wipe_request_pending: false,
        wipe_boundary_timestamp: None,
        wipe_boundary_sequence: None,
        peer_wipe_boundary_timestamp: None,
        peer_wipe_boundary_sequence: None,
    }
}

fn named_contact(username: Option<&str>, discriminator: Option<u16>) -> Contact {
    let mut contact = sample_contact(1);
    contact.username = username.map(String::from);
    contact.discriminator = discriminator;
    contact.verification_state = VerificationState::Verified;
    contact
}

fn contact_with_state(state: VerificationState) -> Contact {
    let mut contact = sample_contact(1);
    contact.verification_state = state;
    contact
}

fn contact_with_prefs(
    fingerprint: u8,
    ask: bool,
    peer_ask: Option<bool>,
    session: bool,
    peer_session: Option<bool>,
) -> Contact {
    let mut contact = sample_contact(fingerprint);
    contact.wipe_ask_before_delete = ask;
    contact.peer_wipe_ask_before_delete = peer_ask;
    contact.wipe_include_session = session;
    contact.peer_wipe_include_session = peer_session;
    contact
}

fn random_id() -> Vec<u8> {
    dratchet::random::random_16().to_vec()
}

fn sample_message(timestamp: u64, content: &str) -> Message {
    sample_message_with_sequence(timestamp, 0, content)
}

fn sample_message_with_sequence(timestamp: u64, sequence: u64, content: &str) -> Message {
    Message {
        id: random_id(),
        sender_is_local: true,
        content: content.as_bytes().to_vec(),
        timestamp,
        sequence,
        send_n: None,
        send_dh_pub: None,
        delivered: false,
        uncertain: false,
    }
}

fn contents(messages: &[Message]) -> Vec<String> {
    messages.iter().map(|m| String::from_utf8(m.content.clone()).unwrap()).collect()
}

// Contacts.

#[test]
fn one_unreadable_contact_does_not_deny_the_whole_contact_list() {
    let mut table = Table::new();
    let mut db = temp_db();
    let planted = sample_contact(2);
    db.save_contact(&sample_contact(1)).unwrap();
    db.save_contact(&planted).unwrap();
    db.save_contact(&sample_contact(3)).unwrap();
    assert_eq!(db.list_contacts().unwrap().len(), 3);
    commit(&mut table, &mut db);

    let victim_key = contact_key(&planted.fingerprint);
    table.insert(victim_key, b"garbage".to_vec());
    let db = reopen(&table);

    let surviving = db.list_contacts().expect("the readable contacts");
    let mut fingerprints: Vec<u8> = surviving.iter().map(|c| c.fingerprint[0]).collect();
    fingerprints.sort();
    assert_eq!(
        fingerprints,
        vec![1, 3],
        "every still-readable contact must survive; only the damaged one is lost"
    );
    assert!(db.load_contact(&planted.fingerprint).is_err());
    assert_eq!(db.unreadable_contacts(), 1);
}

#[test]
fn contacts_save_then_load_round_trips() {
    let mut db = temp_db();
    let contact = sample_contact(1);
    db.save_contact(&contact).unwrap();

    let loaded = db.load_contact(&contact.fingerprint).unwrap().unwrap();
    assert_eq!(loaded.fingerprint, contact.fingerprint);
    assert_eq!(loaded.username, contact.username);
    assert_eq!(loaded.verification_state, VerificationState::Pending);
    assert_eq!(loaded.mailbox_id, contact.mailbox_id);
}

#[test]
fn every_field_of_a_contact_survives_a_restart() {
    let mut table = Table::new();
    let mut db = temp_db();
    let contact = Contact {
        fingerprint: vec![7; 32],
        username: None,
        discriminator: Some(65535),
        verification_state: VerificationState::Mismatch,
        mailbox_id: vec![1, 2, 3],
        created_at: u64::MAX,
        local_routing_id: Vec::new(),
        peer_routing_id: Some(vec![9; 32]),
        wipe_ask_before_delete: true,
        peer_wipe_ask_before_delete: Some(false),
        wipe_include_session: true,
        peer_wipe_include_session: Some(true),
        wipe_request_pending: true,
        wipe_boundary_timestamp: Some(1),
        wipe_boundary_sequence: Some(2),
        peer_wipe_boundary_timestamp: None,
        peer_wipe_boundary_sequence: Some(4),
    };
    db.save_contact(&contact).unwrap();
    commit(&mut table, &mut db);
    let loaded = reopen(&table).load_contact(&[7; 32]).unwrap().unwrap();
    assert_eq!(format!("{contact:?}"), format!("{loaded:?}"));
}

#[test]
fn missing_contact_is_none_not_an_error() {
    let db = temp_db();
    assert!(db.load_contact(&[9u8; 32]).unwrap().is_none());
}

#[test]
fn list_contacts_returns_every_saved_contact_and_nothing_else() {
    let mut db = temp_db();
    db.save_contact(&sample_contact(1)).unwrap();
    db.save_contact(&sample_contact(2)).unwrap();
    db.save_contact(&sample_contact(3)).unwrap();

    let mut fingerprints: Vec<u8> =
        db.list_contacts().unwrap().into_iter().map(|c| c.fingerprint[0]).collect();
    fingerprints.sort();
    assert_eq!(fingerprints, vec![1, 2, 3]);
}

#[test]
fn updating_verification_state_persists() {
    let mut db = temp_db();
    let mut contact = sample_contact(1);
    db.save_contact(&contact).unwrap();

    contact.verification_state = VerificationState::Verified;
    db.save_contact(&contact).unwrap();

    let loaded = db.load_contact(&contact.fingerprint).unwrap().unwrap();
    assert_eq!(loaded.verification_state, VerificationState::Verified);
}

#[test]
fn delete_contact_removes_it() {
    let mut db = temp_db();
    let contact = sample_contact(1);
    db.save_contact(&contact).unwrap();
    db.delete_contact(&contact.fingerprint).unwrap();
    assert!(db.load_contact(&contact.fingerprint).unwrap().is_none());
}

#[test]
fn a_contact_from_before_the_wipe_boundaries_still_reads() {
    let mut db = temp_db();
    let value = ciborium::Value::Map(
        [
            ("fingerprint", ciborium::Value::Bytes(vec![1; 32])),
            ("username", ciborium::Value::Text("bob".into())),
            ("discriminator", ciborium::Value::Integer(7.into())),
            ("verification_state", ciborium::Value::Text("Verified".into())),
            ("mailbox_id", ciborium::Value::Bytes(vec![2; 16])),
            ("created_at", ciborium::Value::Integer(5.into())),
            ("local_routing_id", ciborium::Value::Bytes(vec![3; 32])),
            ("peer_routing_id", ciborium::Value::Null),
            ("wipe_ask_before_delete", ciborium::Value::Bool(true)),
            ("wipe_include_session", ciborium::Value::Bool(false)),
            ("wipe_request_pending", ciborium::Value::Bool(false)),
            ("some_later_field", ciborium::Value::Array(vec![ciborium::Value::Null])),
        ]
        .into_iter()
        .map(|(k, v)| (ciborium::Value::Text(k.into()), v))
        .collect(),
    );
    let mut bytes = Vec::new();
    ciborium::into_writer(&value, &mut bytes).unwrap();
    db.put_encrypted(Scope::Contacts, &contact_key(&[1; 32]), &bytes).unwrap();

    let contact = db.load_contact(&[1; 32]).unwrap().unwrap();
    assert_eq!(contact.username.as_deref(), Some("bob"));
    assert_eq!(contact.discriminator, Some(7));
    assert_eq!(contact.verification_state, VerificationState::Verified);
    assert_eq!(contact.peer_wipe_ask_before_delete, None);
    assert_eq!(contact.wipe_boundary_timestamp, None);
    assert!(contact.wipe_ask_before_delete);
}

#[test]
fn records_of_another_shape_are_malformed() {
    let mut db = temp_db();
    let name = contact_key(&[1; 32]);
    for bytes in [&b""[..], &b"\xff"[..], &b"\x01"[..], &b"\xa0"[..], &b"\xa1\x61a\x01"[..]] {
        db.put_encrypted(Scope::Contacts, &name, bytes).unwrap();
        assert!(matches!(db.load_contact(&[1; 32]), Err(Error::MalformedRecord(_))));
        assert!(db.list_contacts().unwrap().is_empty());
    }
}

#[test]
fn tags_and_lists_of_numbers_are_read_like_what_they_stand_for() {
    let mut db = temp_db();
    let tagged = |v: ciborium::Value| {
        ciborium::Value::Tag(99, Box::new(ciborium::Value::Tag(7, Box::new(v))))
    };
    let list = |b: u8| ciborium::Value::Array(vec![ciborium::Value::Integer(b.into()); 3]);
    let fields = |id: ciborium::Value, content: ciborium::Value| {
        tagged(ciborium::Value::Map(
            [
                ("id", id),
                ("sender_is_local", tagged(ciborium::Value::Bool(true))),
                ("content", content),
                ("timestamp", tagged(ciborium::Value::Integer(5.into()))),
                ("sequence", ciborium::Value::Integer(6.into())),
                ("delivered", ciborium::Value::Bool(false)),
            ]
            .into_iter()
            .map(|(k, v)| (tagged(ciborium::Value::Text(k.into())), v))
            .collect(),
        ))
    };
    let conv = [1u8; 16];
    let store = |db: &mut Db, value: ciborium::Value| {
        let mut bytes = Vec::new();
        ciborium::into_writer(&value, &mut bytes).unwrap();
        db.put_encrypted(Scope::Content, &message_key(conv, &[4; 16]), &bytes).unwrap();
    };
    store(&mut db, fields(list(4), tagged(list(8))));
    let messages = db.list_messages(conv).unwrap();
    assert_eq!(messages.len(), 1);
    assert_eq!(messages[0].id, vec![4; 3]);
    assert_eq!(messages[0].content, vec![8; 3]);
    assert_eq!(messages[0].timestamp, 5);
    assert!(messages[0].sender_is_local);

    let negative = ciborium::Value::Array(vec![ciborium::Value::Integer((-1).into())]);
    store(&mut db, fields(negative, list(1)));
    assert!(db.list_messages(conv).unwrap().is_empty());
    store(&mut db, fields(ciborium::Value::Null, list(1)));
    assert!(db.list_messages(conv).unwrap().is_empty());
    store(&mut db, fields(list(1), ciborium::Value::Float(1.0)));
    assert!(db.list_messages(conv).unwrap().is_empty());

    let level = ciborium::Value::Map(vec![(
        ciborium::Value::Text("HandleOnly".into()),
        ciborium::Value::Null,
    )]);
    let mut bytes = Vec::new();
    ciborium::into_writer(&level, &mut bytes).unwrap();
    db.put_encrypted(Scope::Identity, b"notification_preview_level", &bytes).unwrap();
    assert_eq!(
        db.load_notification_preview_level().unwrap(),
        NotificationPreviewLevel::HandleOnly
    );
}

// Messages.

#[test]
fn messages_debug_output_never_contains_the_plaintext_content() {
    let message = sample_message(100, "a secret only the recipient should read");
    let debug_output = message.debug_text();
    assert!(
        !debug_output.contains("secret"),
        "plaintext message content must never appear in Debug output: {debug_output}"
    );
}

#[test]
fn the_log_text_of_a_message_shows_its_metadata() {
    let mut message = sample_message(100, "eleven char");
    message.id = vec![0xab, 0x01];
    message.send_n = Some(12);
    message.send_dh_pub = Some(vec![0xff]);
    assert_eq!(
        message.debug_text(),
        "Message { id: \"ab01\", sender_is_local: true, content: \"<11 bytes redacted>\", \
         timestamp: 100, sequence: 0, send_n: Some(12), send_dh_pub: Some(\"ff\"), \
         delivered: false, uncertain: false }"
    );
    message.send_n = None;
    message.send_dh_pub = None;
    message.delivered = true;
    assert!(message
        .debug_text()
        .ends_with("send_n: None, send_dh_pub: None, delivered: true, uncertain: false }"));
}

#[test]
fn save_and_list_returns_messages_in_timestamp_order() {
    let mut db = temp_db();
    let conv = [1u8; 16];

    db.save_message(conv, &sample_message(300, "third")).unwrap();
    db.save_message(conv, &sample_message(100, "first")).unwrap();
    db.save_message(conv, &sample_message(200, "second")).unwrap();

    let messages = db.list_messages(conv).unwrap();
    assert_eq!(contents(&messages), vec!["first", "second", "third"]);
}

#[test]
fn messages_sharing_the_same_timestamp_still_sort_by_insertion_order() {
    let mut db = temp_db();
    let conv = [1u8; 16];

    for (i, text) in ["a", "b", "c", "d", "e"].iter().enumerate() {
        db.save_message(conv, &sample_message_with_sequence(500, i as u64, text)).unwrap();
    }

    let messages = db.list_messages(conv).unwrap();
    assert_eq!(
        contents(&messages),
        vec!["a", "b", "c", "d", "e"],
        "same-timestamp messages must still come back in the order they were actually saved"
    );
}

#[test]
fn save_message_now_assigns_increasing_sequence_numbers() {
    let mut db = temp_db();
    let conv = [1u8; 16];

    let texts = ["alpha", "beta", "gamma", "delta"];
    for text in texts {
        db.save_message_now(conv, text.as_bytes().to_vec(), true, None, None, NOW).unwrap();
    }

    let messages = db.list_messages(conv).unwrap();
    assert_eq!(contents(&messages), texts);
    for pair in messages.windows(2) {
        assert!(pair[0].sequence < pair[1].sequence);
    }
}

#[test]
fn sequence_survives_a_real_restart_within_the_same_wall_clock_second() {
    let mut table = Table::new();
    let conv = [9u8; 16];

    {
        let mut db = temp_db();
        for text in ["one", "two", "three"] {
            db.save_message_now(conv, text.as_bytes().to_vec(), true, None, None, NOW).unwrap();
        }
        commit(&mut table, &mut db);
    }

    let mut db = reopen(&table);
    db.save_message_now(conv, b"four".to_vec(), true, None, None, NOW).unwrap();

    let messages = db.list_messages(conv).unwrap();
    assert_eq!(contents(&messages), vec!["one", "two", "three", "four"]);
    for pair in messages.windows(2) {
        assert!(
            pair[0].sequence < pair[1].sequence,
            "strictly increasing across the restart, not just distinct: {:?} then {:?}",
            pair[0].sequence,
            pair[1].sequence
        );
    }
}

#[test]
fn messages_in_different_conversations_never_mix() {
    let mut db = temp_db();
    let conv_a = [1u8; 16];
    let conv_b = [2u8; 16];

    db.save_message(conv_a, &sample_message(100, "for a")).unwrap();
    db.save_message(conv_b, &sample_message(100, "for b")).unwrap();

    let a = db.list_messages(conv_a).unwrap();
    let b = db.list_messages(conv_b).unwrap();
    assert_eq!(a.len(), 1);
    assert_eq!(b.len(), 1);
    assert_eq!(String::from_utf8(a[0].content.clone()).unwrap(), "for a");
    assert_eq!(String::from_utf8(b[0].content.clone()).unwrap(), "for b");
}

#[test]
fn delete_message_removes_only_that_message() {
    let mut db = temp_db();
    let conv = [1u8; 16];
    let keep = sample_message(100, "keep");
    let remove = sample_message(200, "remove");
    db.save_message(conv, &keep).unwrap();
    db.save_message(conv, &remove).unwrap();

    db.delete_message(conv, &remove.id).unwrap();

    let messages = db.list_messages(conv).unwrap();
    assert_eq!(messages.len(), 1);
    assert_eq!(messages[0].id, keep.id);
}

#[test]
fn empty_conversation_returns_no_messages_not_an_error() {
    let db = temp_db();
    assert!(db.list_messages([9u8; 16]).unwrap().is_empty());
}

#[test]
fn mark_message_delivered_flips_the_matching_sent_message() {
    let mut db = temp_db();
    let conv = [1u8; 16];
    let dh_pub = vec![1u8; 32];

    let sent = db
        .save_message_now(conv, b"hi".to_vec(), true, Some(7), Some(dh_pub.clone()), NOW)
        .unwrap();
    assert!(!sent.delivered);

    let updated = db.mark_message_delivered(conv, &dh_pub, 7).unwrap().unwrap();
    assert_eq!(updated.id, sent.id);
    assert!(updated.delivered);

    let reloaded = db.list_messages(conv).unwrap();
    assert_eq!(reloaded.len(), 1);
    assert!(reloaded[0].delivered);
}

#[test]
fn mark_message_delivered_ignores_received_messages_and_wrong_n_or_dh_pub() {
    let mut db = temp_db();
    let conv = [1u8; 16];
    let dh_pub = vec![2u8; 32];
    let other_dh_pub = vec![9u8; 32];

    db.save_message_now(conv, b"incoming".to_vec(), false, None, None, NOW).unwrap();
    db.save_message_now(conv, b"outgoing".to_vec(), true, Some(3), Some(dh_pub.clone()), NOW)
        .unwrap();

    assert!(db.mark_message_delivered(conv, &other_dh_pub, 3).unwrap().is_none());
    assert!(db.mark_message_delivered(conv, &dh_pub, 99).unwrap().is_none());
    assert!(db.mark_message_delivered(conv, &dh_pub, 3).unwrap().is_some());
    assert!(db.mark_message_delivered(conv, &dh_pub, 3).unwrap().is_none());
}

#[test]
fn mark_message_delivered_disambiguates_same_n_across_different_chains() {
    let mut db = temp_db();
    let conv = [1u8; 16];
    let chain_a = vec![0xAAu8; 32];
    let chain_b = vec![0xBBu8; 32];

    let first = db
        .save_message_now(
            conv,
            b"first chain, n=0".to_vec(),
            true,
            Some(0),
            Some(chain_a.clone()),
            NOW,
        )
        .unwrap();
    let second = db
        .save_message_now(
            conv,
            b"second chain, also n=0".to_vec(),
            true,
            Some(0),
            Some(chain_b.clone()),
            NOW,
        )
        .unwrap();

    let updated = db.mark_message_delivered(conv, &chain_b, 0).unwrap().unwrap();
    assert_eq!(
        updated.id, second.id,
        "must match the message from the acked chain, not merely the oldest n=0"
    );

    let after_one_ack = db.list_messages(conv).unwrap();
    let first_reloaded = after_one_ack.iter().find(|m| m.id == first.id).unwrap();
    assert!(
        !first_reloaded.delivered,
        "the other chain's still-unacked message must not be touched"
    );

    let updated = db.mark_message_delivered(conv, &chain_a, 0).unwrap().unwrap();
    assert_eq!(updated.id, first.id);
}

#[test]
fn a_cumulative_acknowledgement_covers_its_chain_up_to_its_number() {
    let mut db = temp_db();
    let conv = [1u8; 16];
    let chain = vec![0xAAu8; 32];
    for n in 0..4u32 {
        db.save_message_now(conv, vec![n as u8], true, Some(n), Some(chain.clone()), NOW).unwrap();
    }
    db.save_message_now(conv, b"x".to_vec(), true, Some(0), Some(vec![0xBB; 32]), NOW).unwrap();
    assert_eq!(db.mark_undelivered_uncertain(conv).unwrap(), 5);
    assert_eq!(db.mark_undelivered_uncertain(conv).unwrap(), 0);

    let marked = db.mark_messages_delivered_up_to(conv, &chain, 2).unwrap();
    assert_eq!(marked.iter().map(|m| m.content[0]).collect::<Vec<_>>(), vec![0, 1, 2]);
    assert!(marked.iter().all(|m| m.delivered && !m.uncertain));
    assert!(db.mark_messages_delivered_up_to(conv, &chain, 2).unwrap().is_empty());

    let states: Vec<(bool, bool)> =
        db.list_messages(conv).unwrap().iter().map(|m| (m.delivered, m.uncertain)).collect();
    assert_eq!(
        states,
        vec![(true, false), (true, false), (true, false), (false, true), (false, true)]
    );
}

#[test]
fn one_unreadable_message_does_not_deny_the_whole_conversation() {
    let mut db = temp_db();
    let conv = [1u8; 16];
    db.save_message(conv, &sample_message(1, "kept")).unwrap();
    db.put_encrypted(Scope::Content, &message_key(conv, &[0; 16]), b"junk").unwrap();
    assert_eq!(contents(&db.list_messages(conv).unwrap()), vec!["kept"]);
}

#[test]
fn a_message_from_before_the_later_fields_still_reads() {
    let mut db = temp_db();
    let conv = [1u8; 16];
    let value = ciborium::Value::Map(
        [
            ("id", ciborium::Value::Bytes(vec![4; 16])),
            ("sender_is_local", ciborium::Value::Bool(true)),
            ("content", ciborium::Value::Bytes(b"old".to_vec())),
            ("timestamp", ciborium::Value::Integer(5.into())),
            ("sequence", ciborium::Value::Integer(6.into())),
            ("send_n", ciborium::Value::Integer(7.into())),
            ("delivered", ciborium::Value::Bool(false)),
        ]
        .into_iter()
        .map(|(k, v)| (ciborium::Value::Text(k.into()), v))
        .collect(),
    );
    let mut bytes = Vec::new();
    ciborium::into_writer(&value, &mut bytes).unwrap();
    db.put_encrypted(Scope::Content, &message_key(conv, &[4; 16]), &bytes).unwrap();
    let messages = db.list_messages(conv).unwrap();
    assert_eq!(messages.len(), 1);
    assert_eq!(messages[0].send_n, Some(7));
    assert_eq!(messages[0].send_dh_pub, None);
    assert_eq!(messages[0].sequence, 6);
    assert!(!messages[0].uncertain);
}

// Notification levels.

#[test]
fn defaults_to_the_most_private_level_before_anything_is_saved() {
    let db = temp_db();
    assert_eq!(
        db.load_notification_preview_level().unwrap(),
        NotificationPreviewLevel::Nothing
    );
}

#[test]
fn save_then_load_round_trips_every_level() {
    let mut db = temp_db();
    for level in [
        NotificationPreviewLevel::Nothing,
        NotificationPreviewLevel::HandleOnly,
        NotificationPreviewLevel::HandleAndMessage,
    ] {
        db.save_notification_preview_level(level).unwrap();
        assert_eq!(db.load_notification_preview_level().unwrap(), level);
    }
}

#[test]
fn saving_again_overwrites_the_previous_level() {
    let mut db = temp_db();
    db.save_notification_preview_level(NotificationPreviewLevel::HandleAndMessage).unwrap();
    db.save_notification_preview_level(NotificationPreviewLevel::Nothing).unwrap();
    assert_eq!(
        db.load_notification_preview_level().unwrap(),
        NotificationPreviewLevel::Nothing
    );
}

// Profiles.

#[test]
fn no_profile_before_registration() {
    let db = temp_db();
    assert!(db.load_own_profile().unwrap().is_none());
}

#[test]
fn profile_save_then_load_round_trips() {
    let mut db = temp_db();
    let profile = OwnProfile {
        username: "alice".into(),
        discriminator: 4821,
        signed_prekey_id: 1,
    };
    db.save_own_profile(&profile).unwrap();

    let loaded = db.load_own_profile().unwrap().unwrap();
    assert_eq!(loaded.username, "alice");
    assert_eq!(loaded.discriminator, 4821);
    assert_eq!(loaded.signed_prekey_id, 1);
}

#[test]
fn saving_again_overwrites_the_previous_profile() {
    let mut db = temp_db();
    db.save_own_profile(&OwnProfile {
        username: "alice".into(),
        discriminator: 4821,
        signed_prekey_id: 1,
    })
    .unwrap();
    db.save_own_profile(&OwnProfile {
        username: "alice2".into(),
        discriminator: 4821,
        signed_prekey_id: 2,
    })
    .unwrap();

    let loaded = db.load_own_profile().unwrap().unwrap();
    assert_eq!(loaded.username, "alice2");
    assert_eq!(loaded.signed_prekey_id, 2);
}

#[test]
fn record_peer_profile_updates_the_contact_and_reports_a_change() {
    let mut db = temp_db();
    let contact = named_contact(Some("bob"), Some(1490));
    db.save_contact(&contact).unwrap();

    let (updated, changed) =
        db.record_peer_profile(&contact.fingerprint, "bob".into(), 9999).unwrap();
    assert!(changed, "a genuine discriminator change must be reported");
    assert_eq!(updated.username.as_deref(), Some("bob"));
    assert_eq!(updated.discriminator, Some(9999));

    let reloaded = db.load_contact(&contact.fingerprint).unwrap().unwrap();
    assert_eq!(reloaded.discriminator, Some(9999));
}

#[test]
fn record_peer_profile_learning_the_handle_for_the_first_time_is_not_a_change() {
    let mut db = temp_db();
    let contact = named_contact(None, None);
    db.save_contact(&contact).unwrap();

    let (updated, changed) =
        db.record_peer_profile(&contact.fingerprint, "bob".into(), 1490).unwrap();
    assert!(!changed, "learning a handle for the first time is not a reassignment");
    assert_eq!(updated.username.as_deref(), Some("bob"));
}

#[test]
fn record_peer_profile_is_a_no_op_when_nothing_changed() {
    let mut db = temp_db();
    let contact = named_contact(Some("bob"), Some(1490));
    db.save_contact(&contact).unwrap();

    let (_, changed) = db.record_peer_profile(&contact.fingerprint, "bob".into(), 1490).unwrap();
    assert!(!changed, "re-announcing the same handle is not a change");
}

#[test]
fn record_peer_profile_refuses_to_impersonate_an_already_known_contacts_handle() {
    let mut db = temp_db();
    let real_bob = named_contact(Some("bob"), Some(1490));
    db.save_contact(&real_bob).unwrap();

    let mut impostor = named_contact(None, None);
    impostor.fingerprint = vec![2u8; 32];
    db.save_contact(&impostor).unwrap();

    let (updated, changed) =
        db.record_peer_profile(&impostor.fingerprint, "bob".into(), 1490).unwrap();
    assert!(!changed);
    assert_eq!(
        updated.username, None,
        "the impostor's own contact record must not pick up the claimed handle"
    );

    let real_bob_reloaded = db.load_contact(&real_bob.fingerprint).unwrap().unwrap();
    assert_eq!(real_bob_reloaded.username.as_deref(), Some("bob"));
    assert_eq!(real_bob_reloaded.discriminator, Some(1490));
}

#[test]
fn record_peer_profile_refuses_a_unicode_homograph_of_an_already_known_contacts_handle() {
    let mut db = temp_db();
    let real_carol = named_contact(Some("carol"), Some(4242));
    db.save_contact(&real_carol).unwrap();

    let mut impostor = named_contact(None, None);
    impostor.fingerprint = vec![2u8; 32];
    db.save_contact(&impostor).unwrap();

    let lookalike = "\u{0441}arol";
    assert_ne!(lookalike, "carol", "sanity check: distinct strings");

    let (updated, changed) =
        db.record_peer_profile(&impostor.fingerprint, lookalike.into(), 4242).unwrap();
    assert!(!changed);
    assert_eq!(
        updated.username, None,
        "the impostor's own contact record must not pick up the lookalike handle"
    );

    let real_carol_reloaded = db.load_contact(&real_carol.fingerprint).unwrap().unwrap();
    assert_eq!(real_carol_reloaded.username.as_deref(), Some("carol"));
}

#[test]
fn record_peer_profile_still_allows_a_genuine_non_colliding_rename() {
    let mut db = temp_db();
    let other = named_contact(Some("carol"), Some(4242));
    db.save_contact(&other).unwrap();

    let mut renaming = named_contact(Some("bob"), Some(1490));
    renaming.fingerprint = vec![2u8; 32];
    db.save_contact(&renaming).unwrap();

    let (updated, changed) =
        db.record_peer_profile(&renaming.fingerprint, "bob".into(), 9999).unwrap();
    assert!(changed, "a genuine rename to an unclaimed handle must go through");
    assert_eq!(updated.discriminator, Some(9999));
}

#[test]
fn announcements_of_strangers_are_refused() {
    let mut db = temp_db();
    for error in [
        db.record_peer_profile(&[1; 32], "bob".into(), 1).err().unwrap(),
        db.record_peer_routing_id(&[1; 32], vec![1], [0; 16]).err().unwrap(),
        db.record_peer_wipe_policy(&[1; 32], true, true, NOW).err().unwrap(),
    ] {
        assert!(error.message().ends_with(": no such contact"));
    }
}

// Routing.

#[test]
fn recording_the_peer_routing_id_transitions_off_the_bootstrap_mailbox() {
    let mut db = temp_db();
    let contact = sample_contact(1);
    let bootstrap = contact.mailbox_id.clone();
    db.save_contact(&contact).unwrap();

    let peer_routing_id = vec![0xBBu8; 32];
    let derived = [0x5Au8; 16];
    let updated = db
        .record_peer_routing_id(&contact.fingerprint, peer_routing_id.clone(), derived)
        .unwrap();

    assert_ne!(
        updated.mailbox_id, bootstrap,
        "mailbox_id must move off the bootstrap mailbox once the peer's routing id arrives"
    );
    assert_eq!(updated.mailbox_id, derived);
    assert_eq!(updated.peer_routing_id, Some(peer_routing_id));

    let reloaded = db.load_contact(&contact.fingerprint).unwrap().unwrap();
    assert_eq!(reloaded.mailbox_id, updated.mailbox_id);
}

#[test]
fn both_sides_converge_on_the_identical_mailbox_id() {
    let mut db_alice = temp_db();
    let mut db_bob = temp_db();
    let derived = [0x77u8; 16];
    let alice_contact = sample_contact(1);
    db_alice.save_contact(&alice_contact).unwrap();
    let bob_contact = sample_contact(2);
    db_bob.save_contact(&bob_contact).unwrap();

    let alice_updated = db_alice
        .record_peer_routing_id(&alice_contact.fingerprint, vec![0x22u8; 32], derived)
        .unwrap();
    let bob_updated = db_bob
        .record_peer_routing_id(&bob_contact.fingerprint, vec![0x11u8; 32], derived)
        .unwrap();

    assert_eq!(alice_updated.mailbox_id, bob_updated.mailbox_id);
}

#[test]
fn recording_the_same_peer_routing_id_twice_is_a_no_op() {
    let mut db = temp_db();
    let contact = sample_contact(1);
    db.save_contact(&contact).unwrap();

    let peer_routing_id = vec![0xBBu8; 32];
    let first = db
        .record_peer_routing_id(&contact.fingerprint, peer_routing_id.clone(), [1; 16])
        .unwrap();
    db.take_changes();
    let second =
        db.record_peer_routing_id(&contact.fingerprint, peer_routing_id, [2; 16]).unwrap();

    assert_eq!(first.mailbox_id, second.mailbox_id);
    assert!(db.take_changes().is_empty());
}

// Wipe policy.

#[test]
fn ask_before_delete_requires_unanimous_agreement() {
    let cases = [
        (false, None, false),
        (false, Some(false), false),
        (false, Some(true), false),
        (true, None, false),
        (true, Some(false), false),
        (true, Some(true), true),
    ];
    for (own, peer, expected) in cases {
        let contact = contact_with_prefs(1, own, peer, false, None);
        assert_eq!(
            contact.effective_wipe_ask_before_delete(),
            expected,
            "own={own} peer={peer:?}"
        );
    }
}

#[test]
fn include_session_is_most_restrictive_wins() {
    let cases = [
        (false, None, false),
        (false, Some(false), false),
        (false, Some(true), true),
        (true, None, true),
        (true, Some(false), true),
        (true, Some(true), true),
    ];
    for (own, peer, expected) in cases {
        let contact = contact_with_prefs(1, false, None, own, peer);
        assert_eq!(
            contact.effective_wipe_include_session(),
            expected,
            "own={own} peer={peer:?}"
        );
    }
}

#[test]
fn record_peer_wipe_policy_persists_and_is_idempotent() {
    let mut db = temp_db();
    let contact = contact_with_prefs(1, false, None, false, None);
    db.save_contact(&contact).unwrap();

    let updated = db.record_peer_wipe_policy(&contact.fingerprint, true, true, NOW).unwrap();
    assert_eq!(updated.peer_wipe_ask_before_delete, Some(true));
    assert_eq!(updated.peer_wipe_include_session, Some(true));

    let reloaded = db.load_contact(&contact.fingerprint).unwrap().unwrap();
    assert_eq!(reloaded.peer_wipe_ask_before_delete, Some(true));

    let again = db.record_peer_wipe_policy(&contact.fingerprint, true, true, NOW).unwrap();
    assert_eq!(again.peer_wipe_ask_before_delete, Some(true));
}

#[test]
fn a_wipe_policy_comes_with_the_boundary_that_was_reached() {
    let mut db = temp_db();
    let contact = sample_contact(1);
    db.save_contact(&contact).unwrap();
    db.save_message_now([1; 16], b"before".to_vec(), true, None, None, NOW).unwrap();
    db.save_message_now([1; 16], b"before".to_vec(), true, None, None, NOW).unwrap();
    let updated =
        db.record_peer_wipe_policy(&contact.fingerprint, false, true, NOW + 9).unwrap();
    assert_eq!(updated.peer_wipe_boundary_timestamp, Some(NOW + 9));
    assert_eq!(updated.peer_wipe_boundary_sequence, Some(2));
}

#[test]
fn wipe_conversation_messages_only_leaves_the_ratchet_and_other_conversations_alone() {
    let mut db = temp_db();
    let conv = [1u8; 16];
    let other_conv = [2u8; 16];

    db.save_message(conv, &sample_message(100, "hello")).unwrap();
    db.save_message(conv, &sample_message(100, "hello")).unwrap();
    db.save_ratchet(conv, b"ratchet").unwrap();
    db.save_message(other_conv, &sample_message(100, "hello")).unwrap();
    db.save_ratchet(other_conv, b"ratchet").unwrap();

    let removed = db.wipe_conversation(conv, false).unwrap();
    assert_eq!(removed, 2);

    assert!(db.list_messages(conv).unwrap().is_empty());
    assert!(
        db.load_ratchet(conv).unwrap().is_some(),
        "messages-only wipe must leave the ratchet intact"
    );
    assert_eq!(db.list_messages(other_conv).unwrap().len(), 1);
    assert!(db.load_ratchet(other_conv).unwrap().is_some());
}

#[test]
fn wipe_conversation_with_session_also_removes_the_ratchet() {
    let mut db = temp_db();
    let conv = [3u8; 16];

    db.save_message(conv, &sample_message(100, "hello")).unwrap();
    db.save_ratchet(conv, b"ratchet").unwrap();

    let removed = db.wipe_conversation(conv, true).unwrap();
    assert_eq!(removed, 2, "one message + one ratchet record");

    assert!(db.list_messages(conv).unwrap().is_empty());
    assert!(db.load_ratchet(conv).unwrap().is_none());
}

#[test]
fn wipe_conversation_never_touches_the_account_or_contacts() {
    let mut db = temp_db();
    let conv = [4u8; 16];
    db.save_account(b"account").unwrap();
    let contact = contact_with_prefs(9, false, None, false, None);
    db.save_contact(&contact).unwrap();
    db.save_message(conv, &sample_message(100, "hello")).unwrap();
    db.save_ratchet(conv, b"ratchet").unwrap();

    db.wipe_conversation(conv, true).unwrap();

    assert!(db.load_account().unwrap().is_some());
    assert!(db.load_contact(&contact.fingerprint).unwrap().is_some());
}

// Chat with unverified contacts.

#[test]
fn chat_content_is_blocked_both_ways_while_pending() {
    let pending = contact_with_state(VerificationState::Pending);
    assert!(matches!(encrypt_gated(&pending, true), Err(Error::NotVerified)));
    assert!(matches!(
        decrypt_gated(&pending, true, PAYLOAD_CHAT, b"hi".to_vec()),
        Err(Error::NotVerified)
    ));
}

#[test]
fn chat_content_flows_normally_once_verified() {
    let verified = contact_with_state(VerificationState::Verified);
    assert!(encrypt_gated(&verified, true).is_ok());
    let (payload_type, content) =
        decrypt_gated(&verified, true, PAYLOAD_CHAT, b"hello bob".to_vec()).unwrap();
    assert_eq!(payload_type, PAYLOAD_CHAT);
    assert_eq!(content, b"hello bob");
}

#[test]
fn a_mismatch_contact_is_blocked_exactly_like_pending() {
    let mismatch = contact_with_state(VerificationState::Mismatch);
    assert!(matches!(encrypt_gated(&mismatch, true), Err(Error::NotVerified)));
    assert!(matches!(
        decrypt_gated(&mismatch, true, PAYLOAD_CHAT, b"hi".to_vec()),
        Err(Error::NotVerified)
    ));
}

#[test]
fn non_chat_payloads_are_never_gated_even_while_pending() {
    let pending = contact_with_state(VerificationState::Pending);
    assert!(encrypt_gated(&pending, false).is_ok());
    let (payload_type, content) =
        decrypt_gated(&pending, false, PAYLOAD_DELIVERY_ACK, b"profile".to_vec()).unwrap();
    assert_eq!(payload_type, PAYLOAD_DELIVERY_ACK);
    assert_eq!(content, b"profile");
}

#[test]
fn mark_verified_then_mark_mismatch_is_a_hard_stop_not_reversible_by_itself() {
    let mut contact = contact_with_state(VerificationState::Pending);
    contact.mark_verified();
    assert_eq!(contact.verification_state, VerificationState::Verified);

    contact.mark_mismatch();
    assert_eq!(contact.verification_state, VerificationState::Mismatch);

    assert!(matches!(encrypt_gated(&contact, true), Err(Error::NotVerified)));
}

#[test]
fn every_error_has_its_text() {
    assert_eq!(
        Error::NotVerified.message(),
        "contact is not verified — chat content is blocked until §6.2's mandatory gate is satisfied"
    );
    assert_eq!(Error::PassphraseHash("x".into()).message(), "passphrase hashing failed: x");
    assert_eq!(
        Error::DecryptionFailed.message(),
        "stored record failed to decrypt (corrupted or tampered)"
    );
    assert_eq!(Error::EncryptionFailed.message(), "record is too long to encrypt");
    assert_eq!(
        Error::WrongPassphraseOrCorrupted.message(),
        "wrong passphrase, or the database is corrupted"
    );
}
