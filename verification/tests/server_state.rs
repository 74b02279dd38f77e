use std::collections::HashMap;

use dratchet::map::ByteMap;
use dratchet::server::persistence::{load_all, RawRecord};
use dratchet::server::protocol::{OneTimePrekeyWire, PrekeyBundleWire};
use dratchet::server::pruning::{sweep_once, SweepSummary};
use dratchet::server::state::{
    add_member, now_unix, prune_expired, ttl_from_secs, username_has_only_allowed_characters,
    AppState, Inner, LoadedBundle, MailboxEntry, PresenceState, StoredBundle, UsernameKey,
    MAX_CONCURRENT_CONNECTIONS,
};

const SECOND: u64 = 1_000_000_000;
const NOW: u64 = 1_700_000_000 * SECOND;
const STALE: u64 = 600 * SECOND;

fn entry(expires_in: u64) -> MailboxEntry {
    MailboxEntry {
        entry_id: [1u8; 16],
        envelope: vec![1, 2, 3],
        expires_at: NOW + expires_in,
        written_by: [0u8; 32],
    }
}

fn expired_entry() -> MailboxEntry {
    MailboxEntry {
        entry_id: [2u8; 16],
        envelope: vec![4, 5, 6],
        expires_at: NOW - SECOND,
        written_by: [0u8; 32],
    }
}

fn bundle(username: &str) -> PrekeyBundleWire {
    PrekeyBundleWire {
        username: username.to_string(),
        discriminator: 1,
        identity_key: vec![0u8; 32],
        identity_dh_public: vec![0u8; 32],
        identity_dh_signature: vec![0u8; 64],
        signed_prekey_id: 1,
        signed_prekey: vec![0u8; 32],
        signed_prekey_sig: vec![0u8; 64],
        signed_prekey_expires_at: 0,
        one_time_prekeys: Vec::new(),
        registration_pow: None,
    }
}

fn directory_resident(username: &str) -> StoredBundle {
    StoredBundle { bundle: bundle(username), one_time_prekeys: HashMap::new() }
}

#[test]
fn sweep_once_prunes_expired_entries_and_removes_an_emptied_mailbox() {
    let mut state = AppState::new();
    state.inner.mailboxes.insert(&[1u8; 16], vec![expired_entry(), expired_entry()]);

    let summary = sweep_once(&mut state, STALE, NOW, 0);
    assert_eq!(summary.mailbox_entries_pruned, 2);
    assert_eq!(summary.mailboxes_emptied, 1);
    assert!(
        !state.inner.mailboxes.contains_key(&[1u8; 16]),
        "an emptied mailbox key must be removed entirely, not left as an empty Vec"
    );
}

#[test]
fn sweep_once_leaves_a_mailbox_with_still_valid_entries_untouched() {
    let mut state = AppState::new();
    state.inner.mailboxes.insert(&[1u8; 16], vec![entry(600 * SECOND), expired_entry()]);

    let summary = sweep_once(&mut state, STALE, NOW, 0);
    assert_eq!(summary.mailbox_entries_pruned, 1);
    assert_eq!(summary.mailboxes_emptied, 0);
    assert_eq!(
        state.inner.mailboxes.get(&[1u8; 16]).map(Vec::len),
        Some(1),
        "the still-valid entry must survive; only the expired one is pruned"
    );
}

#[test]
fn sweep_once_never_touches_a_durable_identitys_state_or_the_directory() {
    let mut state = AppState::new();
    let fp = [7u8; 32];
    let subscriber = [8u8; 32];
    let inner = &mut state.inner;
    inner.directory.insert(&fp, directory_resident("watched"));
    inner.directory.insert(&subscriber, directory_resident("watcher"));
    inner.presence.insert(&fp, PresenceState::Offline { last_seen: now_unix(NOW) });
    add_member(&mut inner.subscriptions, &fp, &subscriber);
    add_member(&mut inner.fetch_evidence, &subscriber, &fp);
    inner.otp_exhaustion_attempts.insert(&fp, 3);

    let summary = sweep_once(&mut state, STALE, NOW, 0);
    assert_eq!(summary.presence_entries_pruned, 0);
    assert_eq!(summary.fetch_evidence_entries_pruned, 0);
    assert_eq!(summary.stale_subscribers_pruned, 0);
    assert_eq!(summary, SweepSummary::default());

    let inner = &state.inner;
    assert_eq!(inner.presence.len(), 1);
    assert_eq!(inner.subscriptions.get(&fp).map(|s| s.len()), Some(1));
    assert_eq!(inner.fetch_evidence.get(&subscriber).map(|s| s.len()), Some(1));
    assert_eq!(inner.otp_exhaustion_attempts.get(&fp), Some(&3));
    assert_eq!(inner.directory.len(), 2, "the directory is never pruned");
}

#[test]
fn sweep_once_drops_per_identity_state_left_by_throwaway_identities() {
    let mut state = AppState::new();
    let watched = [7u8; 32];
    let throwaway = [9u8; 32];
    let inner = &mut state.inner;
    inner.directory.insert(&watched, directory_resident("watched"));
    inner.presence.insert(&throwaway, PresenceState::Offline { last_seen: now_unix(NOW) });
    add_member(&mut inner.subscriptions, &watched, &throwaway);
    add_member(&mut inner.fetch_evidence, &throwaway, &watched);

    let summary = sweep_once(&mut state, STALE, NOW, 0);
    assert_eq!(summary.presence_entries_pruned, 1);
    assert_eq!(summary.fetch_evidence_entries_pruned, 1);
    assert_eq!(summary.stale_subscribers_pruned, 1);

    let inner = &state.inner;
    assert!(!inner.presence.contains_key(&throwaway));
    assert!(!inner.fetch_evidence.contains_key(&throwaway));
    assert!(
        !inner.subscriptions.contains_key(&watched),
        "a subscriber set emptied by the sweep is removed, not left behind empty"
    );
    assert!(
        inner.directory.contains_key(&watched),
        "the watched account itself is untouched"
    );
}

#[test]
fn a_currently_connected_identity_is_not_swept() {
    let mut state = AppState::new();
    let fp = [3u8; 32];
    state.inner.connections.insert(&fp, ());
    add_member(&mut state.inner.fetch_evidence, &fp, &[4u8; 32]);

    let summary = sweep_once(&mut state, STALE, NOW, 0);
    assert_eq!(summary.fetch_evidence_entries_pruned, 0);
    assert!(state.inner.fetch_evidence.contains_key(&fp));
}

#[test]
fn an_online_identity_is_not_swept_and_idle_buckets_are() {
    let mut state = AppState::new();
    state.inner.presence.insert(&[1; 32], PresenceState::Away);
    state.inner.fetch_rate_limiter.allow([1; 16], [2; 32], 0);
    state.inner.new_mailbox_rate_limiter.allow([1; 32], STALE);
    let summary = sweep_once(&mut state, STALE, NOW, STALE);
    assert_eq!(summary.presence_entries_pruned, 0);
    assert_eq!(summary.rate_limit_buckets_pruned, 1);
    assert_eq!(summary.new_mailbox_rate_limit_buckets_pruned, 0);
    let again = sweep_once(&mut state, STALE, NOW, STALE);
    assert_eq!(again, SweepSummary::default());
}

#[test]
fn an_entry_expires_at_its_moment_and_not_before() {
    let mut entries = vec![entry(1), entry(0), entry(2)];
    prune_expired(&mut entries, NOW);
    assert_eq!(entries.len(), 2);
    prune_expired(&mut entries, NOW + 1);
    assert_eq!(entries.len(), 1);
    assert_eq!(entries[0].expires_at, NOW + 2);
    assert_eq!(ttl_from_secs(3), 3 * SECOND);
    assert_eq!(ttl_from_secs(u32::MAX), 4_294_967_295 * SECOND);
    assert_eq!(now_unix(NOW + 999), 1_700_000_000);
}

#[test]
fn usernames_are_ascii_letters_digits_underscores_and_hyphens() {
    for good in ["alice", "A-z_09", "-", "_"] {
        assert!(username_has_only_allowed_characters(good));
    }
    for bad in ["", "al ice", "\u{0430}lice", "a#b", "alice\n", "é", "a.b"] {
        assert!(!username_has_only_allowed_characters(bad));
    }
}

#[test]
fn handles_are_filed_apart() {
    let key = |username: &str, discriminator: u16| {
        UsernameKey { username: username.to_string(), discriminator }.to_bytes()
    };
    assert_eq!(key("ab", 0x0102), vec![b'a', b'b', 1, 2]);
    assert_ne!(key("a", 1), key("a", 256));
    assert_ne!(key("a", 1), key("b", 1));
}

#[test]
fn the_connection_cap_is_kept() {
    let mut state = AppState::new_with_connection_cap(2);
    assert!(state.try_connect());
    assert!(state.try_connect());
    assert!(!state.try_connect());
    state.disconnect();
    assert!(state.try_connect());
    assert_eq!(state.active_connections, 2);
    assert_eq!(AppState::new().connection_cap, MAX_CONCURRENT_CONNECTIONS);
}

#[test]
fn a_restarted_server_knows_its_directory_again() {
    let records = vec![
        RawRecord { key: vec![1; 32], stored: Some(directory_resident("alice")) },
        RawRecord { key: vec![2; 31], stored: Some(directory_resident("short")) },
        RawRecord { key: vec![3; 32], stored: None },
        RawRecord { key: vec![4; 32], stored: Some(directory_resident("bob")) },
    ];
    let loaded: Vec<LoadedBundle> = load_all(records)
        .into_iter()
        .map(|r| LoadedBundle {
            fingerprint: r.fingerprint,
            bootstrap_mailbox: [r.fingerprint[0]; 16],
            stored: r.stored,
        })
        .collect();
    assert_eq!(loaded.len(), 2);
    let state = AppState::with_persistence(loaded);
    assert!(state.persistent);
    assert_eq!(state.inner.directory.len(), 2);
    let bob = UsernameKey { username: "bob".into(), discriminator: 1 };
    assert_eq!(state.inner.username_index.get(&bob.to_bytes()), Some(&[4; 32]));
    assert!(state.inner.bootstrap_mailbox_belongs_to_another(&[4; 16], &[1; 32]));
    assert!(!state.inner.bootstrap_mailbox_belongs_to_another(&[4; 16], &[4; 32]));
    assert!(!state.inner.bootstrap_mailbox_belongs_to_another(&[9; 16], &[4; 32]));
}

#[test]
fn prekeys_are_handed_out_by_their_ids_each_once() {
    let mut wire = bundle("alice");
    wire.one_time_prekeys = vec![
        OneTimePrekeyWire { id: 9, key: vec![9] },
        OneTimePrekeyWire { id: 3, key: vec![1] },
        OneTimePrekeyWire { id: 3, key: vec![3] },
    ];
    let mut stored = StoredBundle::from_wire(wire);
    assert_eq!(stored.one_time_prekeys.len(), 2);
    let first = stored.take_one_time_prekey().unwrap();
    assert_eq!((first.id, first.key), (3, vec![3]));
    let second = stored.take_one_time_prekey().unwrap();
    assert_eq!((second.id, second.key), (9, vec![9]));
    assert!(stored.take_one_time_prekey().is_none());
}

#[test]
fn a_byte_map_keeps_its_keys_in_order() {
    let mut map: ByteMap<u32> = ByteMap::new();
    for (i, key) in [&b"b"[..], b"", b"ab", b"a", b"b"].iter().enumerate() {
        map.insert(key, i as u32);
    }
    assert_eq!(map.len(), 4);
    let keys: Vec<Vec<u8>> = (0..4).map(|i| map.key_at(i).clone()).collect();
    assert_eq!(keys, vec![b"".to_vec(), b"a".to_vec(), b"ab".to_vec(), b"b".to_vec()]);
    assert_eq!(map.get(b"b"), Some(&4));
    assert_eq!(map.remove(b"a"), Some(3));
    assert_eq!(map.remove(b"a"), None);
    assert!(!map.contains_key(b"a"));
    assert_eq!(map.retain_marked(&vec![true, false, true]), 1);
    assert_eq!(map.get(b"ab"), None);
    assert_eq!(map.replace_at(1, 7), 4);
    assert_eq!(*map.value_at(1), 7);
    let inner = Inner::default();
    assert_eq!(inner.directory.len(), 0);
}
