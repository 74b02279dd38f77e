use dratchet::hex;
use dratchet::store::contacts::{Contact, VerificationState};
use dratchet::store::messages::Message;
use dratchet::store::profile::OwnProfile;
use dratchet::ui::dto::{
    handle_of, plan_reconciliation, to_contact_dto, to_message_dto, to_own_profile_dto,
    to_peer_notice, ProfileReconciliation,
};
use dratchet::ui::poll::{
    is_connection_error, Action, AppError, ConnectionStatus, Poller, Received,
    RECONNECT_MAX_BACKOFF,
};

const SECOND: u64 = 1_000_000_000;

fn contact(state: VerificationState) -> Contact {
    Contact {
        fingerprint: vec![0xab, 0xcd, 0x01, 0x23, 0x45],
        username: Some("alice".to_string()),
        discriminator: Some(7),
        verification_state: state,
        mailbox_id: vec![0xAB; 16],
        created_at: 0,
        local_routing_id: vec![0xCD; 32],
        peer_routing_id: None,
        wipe_ask_before_delete: true,
        peer_wipe_ask_before_delete: None,
        wipe_include_session: false,
        peer_wipe_include_session: None,
        wipe_request_pending: true,
        wipe_boundary_timestamp: None,
        wipe_boundary_sequence: None,
        peer_wipe_boundary_timestamp: None,
        peer_wipe_boundary_sequence: None,
    }
}

#[test]
fn is_connection_error_matches_only_the_transport_variant() {
    assert!(is_connection_error(AppError::Connection));
    assert!(!is_connection_error(AppError::NotAcknowledged));
    assert!(!is_connection_error(AppError::NoSession));
    assert!(!is_connection_error(AppError::UsernameTaken));
}

#[test]
fn hexadecimal_goes_both_ways() {
    assert_eq!(hex::encode(&[0x00, 0x0f, 0xa0, 0xff]), "000fa0ff");
    assert_eq!(hex::encode(&[]), "");
    assert_eq!(hex::decode("000fA0Ff").unwrap(), vec![0x00, 0x0f, 0xa0, 0xff]);
    let all: Vec<u8> = (0..=255).collect();
    assert_eq!(hex::decode(&hex::encode(&all)).unwrap(), all);
}

#[test]
fn text_that_is_no_hexadecimal_is_refused_like_the_standard_parser() {
    let expected = |s: &str| -> Result<Vec<u8>, String> {
        (0..s.len())
            .step_by(2)
            .map(|i| {
                u8::from_str_radix(s.get(i..i + 2).ok_or("odd-length hex string")?, 16)
                    .map_err(|e| e.to_string())
            })
            .collect()
    };
    for text in ["", "0", "abc", "zz", "0g", "+f", "f+", "-1", "é", "0é", "aé0", "日本", "00é", "++", "ab+c"] {
        assert_eq!(hex::decode(text), expected(text), "{text}");
    }
    assert_eq!(hex::decode("abc").unwrap_err(), "odd-length hex string");
    assert_eq!(hex::decode("xy").unwrap_err(), "invalid digit found in string");
}

#[test]
fn handles_have_at_least_four_digits() {
    for d in [0u16, 7, 42, 999, 1000, 1234, 9999, 10000, 65535] {
        assert_eq!(handle_of("bob", d), format!("{}#{:04}", "bob", d));
    }
    let profile =
        OwnProfile { username: "zoë".into(), discriminator: 42, signed_prekey_id: 1 };
    let dto = to_own_profile_dto(&profile);
    assert_eq!(dto.handle, "zoë#0042");
    assert_eq!(dto.username, "zoë");
    assert_eq!(dto.discriminator, 42);
}

#[test]
fn a_contact_is_shown_by_its_handle_or_its_fingerprint() {
    let dto = to_contact_dto(&contact(VerificationState::Verified));
    assert_eq!(dto.fingerprint, "abcd012345");
    assert_eq!(dto.handle, "alice#0007");
    assert_eq!(dto.initials, "AL");
    assert!(dto.verified && !dto.pending);
    assert!(dto.wipe_ask_before_delete && !dto.wipe_include_session && dto.wipe_request_pending);

    let mut unnamed = contact(VerificationState::Pending);
    unnamed.discriminator = None;
    let dto = to_contact_dto(&unnamed);
    assert_eq!(dto.handle, "abcd0123");
    assert_eq!(dto.initials, "AB");
    assert!(!dto.verified && dto.pending);

    let mut odd = contact(VerificationState::Mismatch);
    odd.username = Some("ßx".into());
    assert_eq!(to_contact_dto(&odd).initials, "SSX");
    odd.username = Some("".into());
    assert_eq!(to_contact_dto(&odd).initials, "#0");
}

#[test]
fn a_message_is_shown_as_text() {
    let mut message = Message {
        id: vec![1, 2],
        sender_is_local: true,
        content: "grüße".as_bytes().to_vec(),
        timestamp: 9,
        sequence: 0,
        send_n: None,
        send_dh_pub: None,
        delivered: true,
        uncertain: false,
    };
    let dto = to_message_dto(&message);
    assert_eq!(dto.id, "0102");
    assert_eq!(dto.content, "grüße");
    assert_eq!(dto.timestamp, 9);
    assert!(dto.sender_is_local && dto.delivered);
    message.content = vec![b'a', 0xff];
    assert_eq!(to_message_dto(&message).content, "a\u{fffd}");
    let notice = to_peer_notice(&[0xaa], "x#0001".into(), "x#0002".into());
    assert_eq!(
        (notice.fingerprint.as_str(), notice.old_handle.as_str(), notice.new_handle.as_str()),
        ("aa", "x#0001", "x#0002")
    );
}

#[test]
fn a_changed_handle_is_announced_to_verified_contacts_only() {
    let old = OwnProfile { username: "me".into(), discriminator: 1, signed_prekey_id: 1 };
    let new = OwnProfile { username: "me".into(), discriminator: 2, signed_prekey_id: 1 };
    let contacts = vec![
        contact(VerificationState::Pending),
        contact(VerificationState::Verified),
        contact(VerificationState::Mismatch),
        contact(VerificationState::Verified),
    ];
    let changed = ProfileReconciliation::DiscriminatorChanged { old, new };
    let plan = plan_reconciliation(&changed, &contacts);
    assert_eq!(plan.announce_to, vec![1, 3]);
    let notice = plan.notice.unwrap();
    assert_eq!(notice.old_handle, "me#0001");
    assert_eq!(notice.new_handle, "me#0002");
    for quiet in [ProfileReconciliation::Unchanged, ProfileReconciliation::Unregistered] {
        let plan = plan_reconciliation(&quiet, &contacts);
        assert!(plan.notice.is_none() && plan.announce_to.is_empty());
    }
}

#[test]
fn a_quiet_tick_goes_through_all_contacts_and_says_nothing() {
    let mut p = Poller::new();
    assert_eq!(p.on_tick(0).next, Action::ReceiveFirstContacts);
    assert_eq!(p.on_first_contacts(Ok(0), 0).next, Action::ListContacts);
    assert_eq!(p.on_contacts(Some(2), 0).next, Action::ReceivePending(0));
    let nothing =
        Received { messages: 0, delivered: 0, wipe_activity: false, profile_changes: 0 };
    assert_eq!(p.on_received(Ok(nothing), false, 0).next, Action::ReceivePending(1));
    let end = p.on_received(Err(AppError::NoSession), false, 0);
    assert_eq!(end.next, Action::Wait);
    assert!(!end.inbox_updated && !end.status_changed);
    assert_eq!(p.status, ConnectionStatus::Connected);
}

#[test]
fn anything_new_updates_the_inbox_once_at_the_end() {
    let nothing =
        Received { messages: 0, delivered: 0, wipe_activity: false, profile_changes: 0 };
    let news = [
        (Received { messages: 1, ..nothing }, false),
        (Received { delivered: 1, ..nothing }, false),
        (Received { wipe_activity: true, ..nothing }, false),
        (Received { profile_changes: 1, ..nothing }, false),
        (nothing, true),
    ];
    for (received, moved) in news {
        let mut p = Poller::new();
        p.on_tick(0);
        p.on_first_contacts(Ok(0), 0);
        p.on_contacts(Some(2), 0);
        assert!(!p.on_received(Ok(received), moved, 0).inbox_updated);
        assert!(p.on_received(Ok(nothing), false, 0).inbox_updated);
        p.on_tick(0);
        p.on_first_contacts(Ok(0), 0);
        assert!(!p.on_contacts(Some(0), 0).inbox_updated);
    }
    let mut p = Poller::new();
    p.on_tick(0);
    p.on_first_contacts(Ok(3), 0);
    assert!(p.on_contacts(Some(0), 0).inbox_updated);
    p.on_tick(0);
    p.on_first_contacts(Ok(3), 0);
    assert!(!p.on_contacts(None, 0).inbox_updated);
}

#[test]
fn prekeys_are_looked_after_at_every_thirtieth_tick() {
    let mut p = Poller::new();
    for tick in 1..=60u32 {
        p.on_tick(0);
        let next = p.on_first_contacts(Err(AppError::Other), 0).next;
        if tick % 30 == 0 {
            assert_eq!(next, Action::ReplenishPrekeys);
            assert_eq!(p.on_replenished(Err(AppError::NotAcknowledged), 0).next, Action::ListContacts);
        } else {
            assert_eq!(next, Action::ListContacts);
        }
    }
}

#[test]
fn a_lost_connection_is_tried_again_ever_more_slowly() {
    let mut p = Poller::new();
    p.on_tick(0);
    let lost = p.on_first_contacts(Err(AppError::Connection), 0);
    assert_eq!(lost.next, Action::Wait);
    assert!(lost.status_changed && !lost.inbox_updated);
    assert_eq!(p.status, ConnectionStatus::Reconnecting);

    let mut now = 2 * SECOND;
    for wait in [2, 4, 8, 16, 32, 60, 60] {
        assert_eq!(p.on_tick(now).next, Action::Reconnect);
        assert_eq!(p.on_reconnect_failed(now).next, Action::Wait);
        assert_eq!(p.on_tick(now + wait * SECOND - 1).next, Action::Wait);
        now += wait * SECOND;
    }
    assert_eq!(p.reconnect_backoff, RECONNECT_MAX_BACKOFF);
    assert_eq!(p.on_tick(now).next, Action::Reconnect);
    let back = p.on_reconnected();
    assert_eq!(back.next, Action::ReceiveFirstContacts);
    assert!(back.status_changed);
    assert_eq!(p.status, ConnectionStatus::Connected);
    assert_eq!(p.reconnect_backoff, 2 * SECOND);
    assert_eq!(p.on_tick(now).next, Action::ReceiveFirstContacts);
}

#[test]
fn a_connection_lost_half_way_still_reports_what_came_before() {
    let mut p = Poller::new();
    p.on_tick(0);
    p.on_first_contacts(Ok(1), 0);
    p.on_contacts(Some(3), 0);
    let lost = p.on_received(Err(AppError::Connection), false, 5);
    assert_eq!(lost.next, Action::Wait);
    assert!(lost.status_changed && lost.inbox_updated);
    assert_eq!(p.next_reconnect_attempt, Some(5));
}
