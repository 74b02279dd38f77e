use dratchet::server::abuse::solve_registration_pow;
use dratchet::server::action::{Action, Frame, KeyFacts, Request, Session};
use dratchet::server::protocol::{
    AuthResponse, FetchBundle, FetchOwnPrekeyCount, FetchedBundleWire, FrameTag, MailboxDelete,
    MailboxEntryWire, MailboxFetch, MailboxWrite, OneTimePrekeyWire, PrekeyBundleWire,
    PresenceAnnounce, PresenceSubscribe, PublishBundle, RendezvousAnswer, RendezvousOffer,
};
use dratchet::server::state::{Inner, MAX_ENTRIES_PER_WRITER_PER_MAILBOX, MAX_ENVELOPE_LEN};
use dratchet::server::ws::{
    authentication_key, dispatch, handle_close, handle_frame, relay_acknowledgement,
};

const SECOND: u64 = 1_000_000_000;
const NOW: u64 = 1_700_000_000 * SECOND;

fn facts(key: u8) -> KeyFacts {
    KeyFacts { fingerprint: [key; 32], bootstrap_mailbox: [key; 16], signature_valid: true }
}

fn auth(key: u8) -> AuthResponse {
    AuthResponse {
        identity_fingerprint: vec![key; 32],
        signature: vec![1],
        identity_key: Some(vec![key; 32]),
    }
}

fn tag_of(request: &Request) -> FrameTag {
    match request {
        Request::AuthResponse(_) => FrameTag::AuthResponse,
        Request::PublishBundle(_) => FrameTag::PublishBundle,
        Request::FetchBundle(_) => FrameTag::FetchBundle,
        Request::PresenceAnnounce(_) => FrameTag::PresenceAnnounce,
        Request::PresenceSubscribe(_) => FrameTag::PresenceSubscribe,
        Request::RendezvousOffer(_) => FrameTag::RendezvousOffer,
        Request::RendezvousAnswer(_) => FrameTag::RendezvousAnswer,
        Request::MailboxWrite(_) => FrameTag::MailboxWrite,
        Request::MailboxFetch(_) => FrameTag::MailboxFetch,
        Request::MailboxDelete(_) => FrameTag::MailboxDelete,
        Request::FetchOwnPrekeyCount(_) => FrameTag::FetchOwnPrekeyCount,
    }
}

struct Client {
    session: Session,
    key: u8,
}

impl Client {
    fn connect(key: u8) -> Client {
        let (session, challenge) = Session::open([key; 32], [key; 16]);
        match challenge {
            Frame::AuthChallenge(c) => assert_eq!(c.nonce, vec![key; 32]),
            _ => panic!("a connection starts with a challenge"),
        }
        Client { session, key }
    }

    fn send_at(&mut self, inner: &mut Inner, request: Request, wall: u64, mono: u64) -> Vec<Action> {
        let frame = [tag_of(&request).to_u8()];
        let facts = facts(self.key);
        handle_frame(inner, &mut self.session, &frame, Some(request), &facts, wall, mono)
    }

    fn send(&mut self, inner: &mut Inner, request: Request) -> Vec<Action> {
        self.send_at(inner, request, NOW, 0)
    }

    fn authenticated(inner: &mut Inner, key: u8) -> Client {
        let mut client = Client::connect(key);
        let actions = client.send(
            inner,
            Request::AuthResponse(auth(key)),
        );
        assert!(matches!(&actions[0], Action::Reply(Frame::Ack(a)) if a.ok));
        client
    }

    fn publish(&mut self, inner: &mut Inner, bundle: PrekeyBundleWire) -> Vec<Action> {
        self.send(inner, Request::PublishBundle(PublishBundle { bundle }))
    }

    fn fetch(&mut self, inner: &mut Inner, username: &str) -> Vec<Action> {
        self.send(
            inner,
            Request::FetchBundle(FetchBundle { username: username.into(), discriminator: 1 }),
        )
    }

    fn write(&mut self, inner: &mut Inner, mailbox: [u8; 16], envelope: &[u8]) -> Vec<Action> {
        self.send(
            inner,
            Request::MailboxWrite(MailboxWrite {
                mailbox_id: mailbox.to_vec(),
                envelope: envelope.to_vec(),
                ttl: 600,
            }),
        )
    }

    fn read(&mut self, inner: &mut Inner, mailbox: [u8; 16]) -> Vec<Action> {
        self.send(
            inner,
            Request::MailboxFetch(MailboxFetch { mailbox_id: mailbox.to_vec() }),
        )
    }
}

fn bundle(key: u8, username: &str, prekeys: u32) -> PrekeyBundleWire {
    PrekeyBundleWire {
        username: username.to_string(),
        discriminator: 1,
        identity_key: vec![key; 32],
        identity_dh_public: vec![2u8; 32],
        identity_dh_signature: vec![3u8; 64],
        signed_prekey_id: 4,
        signed_prekey: vec![5u8; 32],
        signed_prekey_sig: vec![6u8; 64],
        signed_prekey_expires_at: 7,
        one_time_prekeys: (0..prekeys)
            .map(|id| OneTimePrekeyWire { id, key: vec![id as u8; 32] })
            .collect(),
        registration_pow: Some(solve_registration_pow(username, 1, &[key; 32])),
    }
}

fn error_of(actions: &[Action]) -> &str {
    match actions {
        [Action::Reply(Frame::Error(e))] => &e.message,
        _ => panic!("expected an error frame alone"),
    }
}

fn acked(actions: &[Action]) -> bool {
    matches!(actions.last(), Some(Action::Reply(Frame::Ack(a))) if a.ok)
}

fn entries_of(actions: &[Action]) -> &[MailboxEntryWire] {
    match actions {
        [Action::Reply(Frame::MailboxEntries(e))] => &e.entries,
        _ => panic!("expected mailbox entries"),
    }
}

fn bundle_of(actions: &[Action]) -> Option<&FetchedBundleWire> {
    match actions.last() {
        Some(Action::Reply(Frame::BundleResult(r))) => r.bundle.as_ref(),
        _ => panic!("expected a bundle result"),
    }
}

#[test]
fn malformed_frames_are_answered_not_fatal() {
    let mut inner = Inner::default();
    let mut client = Client::connect(1);
    let f = facts(1);
    let s = &mut client.session;
    let actions = handle_frame(&mut inner, s, &[], None, &f, NOW, 0);
    assert_eq!(error_of(&actions), "malformed frame: empty frame");
    let actions = handle_frame(&mut inner, s, &[0xEE], None, &f, NOW, 0);
    assert_eq!(error_of(&actions), "malformed frame: unknown frame tag");
    let actions = handle_frame(&mut inner, s, &[0x03, 9], None, &f, NOW, 0);
    assert_eq!(
        error_of(&actions),
        "malformed frame: body did not decode as expected CBOR shape"
    );
    for tag in [0x01u8, 0x05, 0x07, 0x0D, 0x0F, 0x10, 0x12] {
        let actions = handle_frame(&mut inner, s, &[tag], None, &f, NOW, 0);
        assert_eq!(
            error_of(&actions),
            "malformed frame: this frame type is server-to-client only"
        );
    }
    let other = Some(Request::FetchOwnPrekeyCount(FetchOwnPrekeyCount {}));
    let actions = handle_frame(&mut inner, s, &[0x03], other, &f, NOW, 0);
    assert_eq!(
        error_of(&actions),
        "malformed frame: body did not decode as expected CBOR shape"
    );
}

#[test]
fn frames_that_take_an_identity_are_refused_without_one() {
    let mut inner = Inner::default();
    let mut client = Client::connect(1);
    let f = facts(1);
    for tag in [0x06u8, 0x08, 0x09, 0x0A, 0x0B, 0x0C, 0x0E, 0x11] {
        let actions = handle_frame(&mut inner, &mut client.session, &[tag], None, &f, NOW, 0);
        assert_eq!(error_of(&actions), "authentication required for this operation");
    }
    assert!(client.session.authenticated.is_none());
}

#[test]
fn authentication_takes_a_valid_signature_and_happens_once() {
    let mut inner = Inner::default();
    let mut client = Client::connect(1);
    let mut f = facts(1);
    f.signature_valid = false;
    let mut send = |inner: &mut Inner, response: AuthResponse, f: &KeyFacts| {
        let request = Some(Request::AuthResponse(response));
        handle_frame(inner, &mut client.session, &[0x02], request, f, NOW, 0)
    };
    let failed = "authentication failed";
    assert_eq!(error_of(&send(&mut inner, auth(1), &f)), failed);
    f.signature_valid = true;
    let mut short = auth(1);
    short.identity_fingerprint.pop();
    assert_eq!(
        error_of(&send(&mut inner, short, &f)),
        "malformed frame: identity_fingerprint must be 32 bytes"
    );
    assert_eq!(error_of(&send(&mut inner, auth(2), &f)), failed);
    let mut keyless = auth(1);
    keyless.identity_key = None;
    assert_eq!(error_of(&send(&mut inner, keyless, &f)), failed);
    assert!(acked(&send(&mut inner, auth(1), &f)));
    assert_eq!(
        error_of(&send(&mut inner, auth(1), &f)),
        "connection is already authenticated"
    );
    assert_eq!(client.session.authenticated, Some([1; 32]));
}

#[test]
fn a_registered_identity_answers_without_its_key() {
    let mut inner = Inner::default();
    Client::connect(1).publish(&mut inner, bundle(1, "alice", 0));
    let mut keyless = auth(1);
    keyless.identity_key = None;
    assert_eq!(authentication_key(&inner, &keyless), Some(vec![1; 32]));
    let mut foreign = auth(1);
    foreign.identity_key = Some(vec![9; 32]);
    assert_eq!(authentication_key(&inner, &foreign), Some(vec![1; 32]));
    assert_eq!(authentication_key(&inner, &auth(2)), Some(vec![2; 32]));
    let mut client = Client::connect(1);
    assert!(acked(&client.send(&mut inner, Request::AuthResponse(keyless))));
}

#[test]
fn a_bundle_is_published_fetched_and_its_prekeys_are_used_up() {
    let mut inner = Inner::default();
    let mut owner = Client::connect(1);
    let actions = owner.publish(&mut inner, bundle(1, "alice", 2));
    assert!(matches!(&actions[0], Action::Save { fingerprint } if *fingerprint == vec![1; 32]));
    assert!(acked(&actions));

    let mut reader = Client::connect(2);
    assert!(bundle_of(&reader.fetch(&mut inner, "nobody")).is_none());
    let mut ids = Vec::new();
    for _ in 0..2 {
        let actions = reader.fetch(&mut inner, "alice");
        assert!(matches!(&actions[0], Action::Save { .. }));
        let fetched = bundle_of(&actions).unwrap();
        assert_eq!(fetched.identity_key, vec![1; 32]);
        assert_eq!(fetched.signed_prekey_expires_at, 7);
        ids.push(fetched.one_time_prekey.as_ref().unwrap().id);
    }
    assert_eq!(ids, vec![0, 1]);
    assert!(bundle_of(&reader.fetch(&mut inner, "alice")).unwrap().one_time_prekey.is_none());
}

#[test]
fn fetches_are_limited_per_connection_and_target() {
    let mut inner = Inner::default();
    Client::connect(1).publish(&mut inner, bundle(1, "alice", 10));
    let mut reader = Client::connect(2);
    for _ in 0..5 {
        assert!(bundle_of(&reader.fetch(&mut inner, "alice")).is_some());
    }
    assert_eq!(
        error_of(&reader.fetch(&mut inner, "alice")),
        "rate limit exceeded for this target, try again shortly"
    );
    assert!(bundle_of(&Client::connect(3).fetch(&mut inner, "alice")).is_some());
    let mut owner = Client::authenticated(&mut inner, 1);
    let actions =
        owner.send(&mut inner, Request::FetchOwnPrekeyCount(FetchOwnPrekeyCount {}));
    assert!(matches!(&actions[0], Action::Reply(Frame::OwnPrekeyCount(c)) if c.remaining == 4));
}

#[test]
fn an_alert_is_due_at_every_tenth_fetch_without_a_prekey() {
    let mut inner = Inner::default();
    Client::connect(1).publish(&mut inner, bundle(1, "alice", 0));
    for attempt in 1..=20u8 {
        let actions = Client::connect(100 + attempt).fetch(&mut inner, "alice");
        if attempt % 10 == 0 {
            assert!(matches!(
                &actions[0],
                Action::Alert { target, attempts }
                    if *target == vec![1; 32] && *attempts == attempt as u32
            ));
        } else {
            assert_eq!(actions.len(), 1);
        }
    }
}

#[test]
fn a_handle_stays_with_its_owner_and_takes_work_to_claim() {
    let mut inner = Inner::default();
    let mut unsolved = bundle(1, "alice", 0);
    unsolved.registration_pow = None;
    assert_eq!(
        error_of(&Client::connect(1).publish(&mut inner, unsolved.clone())),
        "registering a new username requires a valid proof-of-work solution"
    );
    assert!(acked(&Client::connect(1).publish(&mut inner, bundle(1, "alice", 0))));
    assert!(acked(&Client::connect(1).publish(&mut inner, unsolved)));
    assert_eq!(
        error_of(&Client::connect(2).publish(&mut inner, bundle(2, "alice", 0))),
        "username is already registered to a different identity"
    );
}

#[test]
fn bundles_of_a_wrong_shape_are_refused() {
    let mut inner = Inner::default();
    let mut send = |b: PrekeyBundleWire| {
        let actions = Client::connect(1).publish(&mut inner, b);
        error_of(&actions).to_string()
    };
    assert_eq!(
        send(bundle(1, "alice", 101)),
        "too many one-time prekeys in a single publish"
    );
    let mut b = bundle(1, "alice", 1);
    b.username = "a".repeat(65);
    assert_eq!(send(b), "username exceeds the maximum allowed length");
    let mut b = bundle(1, "alice", 1);
    b.username = "\u{0430}lice".into();
    assert_eq!(send(b), "username may only contain ASCII letters, digits, '_', and '-'");
    let mut b = bundle(1, "alice", 1);
    b.username = String::new();
    assert_eq!(send(b), "username may only contain ASCII letters, digits, '_', and '-'");
    let mut b = bundle(1, "alice", 1);
    b.one_time_prekeys[0].key.push(0);
    assert_eq!(
        send(b),
        "bundle is not internally consistent: one-time prekey must be 32 bytes"
    );
    let mut b = bundle(1, "alice", 1);
    b.identity_dh_public.pop();
    assert_eq!(
        send(b),
        "bundle is not internally consistent: identity_dh_public must be 32 bytes"
    );
    let mut b = bundle(1, "alice", 1);
    b.signed_prekey.pop();
    assert_eq!(
        send(b),
        "bundle is not internally consistent: signed_prekey must be 32 bytes"
    );
    let mut f = facts(1);
    f.signature_valid = false;
    let mut client = Client::connect(1);
    let request = Some(Request::PublishBundle(PublishBundle { bundle: bundle(1, "alice", 100) }));
    let actions = handle_frame(&mut inner, &mut client.session, &[3], request, &f, NOW, 0);
    assert_eq!(
        error_of(&actions),
        "bundle is not internally consistent: signature verification failed"
    );
    assert_eq!(inner.directory.len(), 0);
}

#[test]
fn an_identity_that_never_registered_has_no_prekeys() {
    let mut inner = Inner::default();
    let mut client = Client::authenticated(&mut inner, 1);
    let actions =
        client.send(&mut inner, Request::FetchOwnPrekeyCount(FetchOwnPrekeyCount {}));
    assert!(matches!(&actions[0], Action::Reply(Frame::OwnPrekeyCount(c)) if c.remaining == 0));
}

#[test]
fn presence_reaches_those_who_subscribed_after_a_fetch() {
    let mut inner = Inner::default();
    Client::connect(1).publish(&mut inner, bundle(1, "alice", 0));
    let mut bob = Client::authenticated(&mut inner, 2);
    let subscribe =
        || Request::PresenceSubscribe(PresenceSubscribe { identity_fingerprint: vec![1; 32] });
    assert_eq!(
        error_of(&bob.send(&mut inner, subscribe())),
        "authentication required for this operation"
    );
    bob.fetch(&mut inner, "alice");
    assert!(bob.send(&mut inner, subscribe()).is_empty());

    let mut alice = Client::connect(1);
    let actions = alice.send(&mut inner, Request::AuthResponse(auth(1)));
    assert!(matches!(&actions[0], Action::Reply(Frame::Ack(a)) if a.ok));
    assert!(matches!(&actions[1], Action::Push { to, frame: Frame::PresenceUpdate(u) }
        if *to == vec![2; 32] && u.identity_fingerprint == vec![1; 32]
            && u.state == 0 && u.last_seen.is_none()));
    assert_eq!(actions.len(), 2);

    let away = alice
        .send(&mut inner, Request::PresenceAnnounce(PresenceAnnounce { state: 1 }));
    assert!(matches!(&away[0], Action::Push { frame: Frame::PresenceUpdate(u), .. } if u.state == 1));
    assert_eq!(
        error_of(&alice.send(
            &mut inner,
            Request::PresenceAnnounce(PresenceAnnounce { state: 2 })
        )),
        "malformed frame: unknown presence state"
    );
    let now = bob.send(&mut inner, subscribe());
    assert!(matches!(&now[0], Action::Reply(Frame::PresenceUpdate(u)) if u.state == 1));

    let gone = handle_close(&mut inner, &alice.session, NOW + 5);
    assert!(matches!(&gone[0], Action::Push { frame: Frame::PresenceUpdate(u), .. }
        if u.state == 2 && u.last_seen == Some(1_700_000_000)));
    assert!(!inner.connections.contains_key(&[1; 32]));
    let stranger = Client::connect(9);
    assert!(handle_close(&mut inner, &stranger.session, NOW).is_empty());
    assert_eq!(
        error_of(&bob.send(
            &mut inner,
            Request::PresenceSubscribe(PresenceSubscribe { identity_fingerprint: vec![1; 31] })
        )),
        "malformed frame: identity_fingerprint must be 32 bytes"
    );
}

#[test]
fn rendezvous_goes_between_peers_that_know_each_other() {
    let mut inner = Inner::default();
    let mut alice = Client::authenticated(&mut inner, 1);
    alice.publish(&mut inner, bundle(1, "alice", 0));
    let mut bob = Client::authenticated(&mut inner, 2);
    let offer = |peer: u8, sdp: usize, candidates: usize, each: usize| {
        Request::RendezvousOffer(RendezvousOffer {
            peer_fingerprint: vec![peer; 32],
            sdp_offer: "s".repeat(sdp),
            ice_candidates: vec!["c".repeat(each); candidates],
        })
    };
    assert_eq!(
        error_of(&bob.send(&mut inner, offer(1, 65537, 0, 0))),
        "SDP payload exceeds the maximum allowed length"
    );
    assert_eq!(
        error_of(&bob.send(&mut inner, offer(1, 1, 65, 1))),
        "too many or too large ICE candidates"
    );
    assert_eq!(
        error_of(&bob.send(&mut inner, offer(1, 1, 1, 4097))),
        "too many or too large ICE candidates"
    );
    assert_eq!(
        error_of(&bob.send(&mut inner, offer(1, 1, 1, 1))),
        "authentication required for this operation"
    );
    bob.fetch(&mut inner, "alice");
    let actions = bob.send(&mut inner, offer(1, 65536, 64, 4096));
    assert!(matches!(&actions[..], [Action::Relay { to, frame: Frame::RendezvousOffer(o) }]
        if *to == vec![1; 32] && o.peer_fingerprint == vec![2; 32] && o.sdp_offer.len() == 65536));
    let answer = Request::RendezvousAnswer(RendezvousAnswer {
        peer_fingerprint: vec![2; 32],
        sdp_answer: "yes".into(),
        ice_candidates: vec!["c".into()],
    });
    let actions = alice.send(&mut inner, answer);
    assert!(matches!(&actions[..], [Action::Relay { to, frame: Frame::RendezvousAnswer(a) }]
        if *to == vec![2; 32] && a.peer_fingerprint == vec![1; 32] && a.sdp_answer == "yes"));
    assert!(matches!(relay_acknowledgement(true), Frame::Ack(a) if a.ok));

    handle_close(&mut inner, &alice.session, NOW);
    for _ in 0..9 {
        let offline = bob.send(&mut inner, offer(1, 1, 0, 0));
        assert!(matches!(&offline[..], [Action::Reply(Frame::Ack(a))] if !a.ok));
    }
    assert_eq!(
        error_of(&bob.send(&mut inner, offer(1, 1, 0, 0))),
        "rate limit exceeded for this target, try again shortly"
    );
}

#[test]
fn what_is_written_to_a_mailbox_is_read_by_the_other_side_until_it_is_deleted() {
    let mut inner = Inner::default();
    let mut alice = Client::authenticated(&mut inner, 1);
    let mut bob = Client::authenticated(&mut inner, 2);
    let mailbox = [0x55; 16];
    assert!(acked(&alice.write(&mut inner, mailbox, b"first")));
    assert!(acked(&alice.write(&mut inner, mailbox, b"second")));
    assert!(entries_of(&alice.read(&mut inner, mailbox)).is_empty());

    let read = bob.read(&mut inner, mailbox);
    let got = entries_of(&read);
    assert_eq!(got.len(), 2);
    assert_eq!(got[0].envelope, b"first");
    assert_eq!(got[1].envelope, b"second");
    assert_ne!(got[0].entry_id, got[1].entry_id);
    assert_eq!(entries_of(&bob.read(&mut inner, mailbox)).len(), 2);

    let delete = Request::MailboxDelete(MailboxDelete {
        mailbox_id: mailbox.to_vec(),
        entry_id: got[0].entry_id.clone(),
    });
    assert!(acked(&bob.send(&mut inner, delete)));
    let read = bob.read(&mut inner, mailbox);
    assert_eq!(entries_of(&read).len(), 1);
    assert_eq!(entries_of(&read)[0].envelope, b"second");

    let late = Request::MailboxFetch(MailboxFetch { mailbox_id: mailbox.to_vec() });
    let read = bob.send_at(&mut inner, late, NOW + 600 * SECOND, 0);
    assert!(entries_of(&read).is_empty());
}

#[test]
fn reading_a_mailbox_that_does_not_exist_does_not_create_it() {
    let mut inner = Inner::default();
    let mut alice = Client::authenticated(&mut inner, 1);
    for i in 0..50u8 {
        assert!(entries_of(&alice.read(&mut inner, [i; 16])).is_empty());
    }
    assert_eq!(inner.mailboxes.len(), 0);
}

#[test]
fn a_bootstrap_mailbox_is_written_by_anybody_and_read_by_its_owner() {
    let mut inner = Inner::default();
    let mut owner = Client::authenticated(&mut inner, 1);
    owner.publish(&mut inner, bundle(1, "alice", 0));
    let mut sender = Client::authenticated(&mut inner, 2);
    let mut intruder = Client::authenticated(&mut inner, 3);
    assert!(acked(&sender.write(&mut inner, [1; 16], b"first contact")));
    assert_eq!(
        error_of(&intruder.read(&mut inner, [1; 16])),
        "this mailbox belongs to a different identity"
    );
    let delete = Request::MailboxDelete(MailboxDelete {
        mailbox_id: vec![1; 16],
        entry_id: vec![0; 16],
    });
    assert_eq!(
        error_of(&intruder.send(&mut inner, delete)),
        "this mailbox belongs to a different identity"
    );
    assert_eq!(entries_of(&owner.read(&mut inner, [1; 16]))[0].envelope, b"first contact");
}

#[test]
fn one_side_flooding_a_shared_mailbox_cannot_block_the_other_sides_own_writes() {
    let mut inner = Inner::default();
    let mut alice = Client::authenticated(&mut inner, 1);
    let mut bob = Client::authenticated(&mut inner, 2);
    let mut carol = Client::authenticated(&mut inner, 3);
    let mailbox = [0x11; 16];
    for _ in 0..MAX_ENTRIES_PER_WRITER_PER_MAILBOX {
        assert!(acked(&alice.write(&mut inner, mailbox, b"flood")));
    }
    assert_eq!(
        error_of(&alice.write(&mut inner, mailbox, b"flood")),
        "you have already written your share of this mailbox's capacity"
    );
    for _ in 0..MAX_ENTRIES_PER_WRITER_PER_MAILBOX {
        assert!(acked(&bob.write(&mut inner, mailbox, b"fine")));
    }
    assert_eq!(
        error_of(&carol.write(&mut inner, mailbox, b"late")),
        "mailbox is full, try again once existing entries are collected"
    );
    assert_eq!(entries_of(&bob.read(&mut inner, mailbox)).len(), 128);
}

#[test]
fn envelopes_and_ids_have_their_sizes() {
    let mut inner = Inner::default();
    let mut alice = Client::authenticated(&mut inner, 1);
    assert!(acked(&alice.write(&mut inner, [1; 16], &vec![0; MAX_ENVELOPE_LEN])));
    assert_eq!(
        error_of(&alice.write(&mut inner, [1; 16], &vec![0; MAX_ENVELOPE_LEN + 1])),
        "envelope exceeds the maximum allowed size"
    );
    let requests = [
        Request::MailboxWrite(MailboxWrite { mailbox_id: vec![1], envelope: vec![], ttl: 1 }),
        Request::MailboxFetch(MailboxFetch { mailbox_id: vec![1; 17] }),
        Request::MailboxDelete(MailboxDelete { mailbox_id: vec![], entry_id: vec![1; 16] }),
    ];
    for request in requests {
        assert_eq!(
            error_of(&alice.send(&mut inner, request)),
            "malformed frame: mailbox_id must be 16 bytes"
        );
    }
    let request =
        Request::MailboxDelete(MailboxDelete { mailbox_id: vec![1; 16], entry_id: vec![1] });
    assert_eq!(
        error_of(&alice.send(&mut inner, request)),
        "malformed frame: entry_id must be 16 bytes"
    );
}

#[test]
fn a_single_connection_cannot_create_unbounded_distinct_mailboxes() {
    let mut inner = Inner::default();
    let mut alice = Client::authenticated(&mut inner, 1);
    for i in 0..20u8 {
        assert!(acked(&alice.write(&mut inner, [i; 16], b"x")));
    }
    assert_eq!(
        error_of(&alice.write(&mut inner, [99; 16], b"x")),
        "rate limit exceeded for creating new mailboxes, try again shortly"
    );
    assert!(acked(&alice.write(&mut inner, [0; 16], b"into one that exists")));
    assert_eq!(inner.mailboxes.len(), 20);
    let mut bob = Client::authenticated(&mut inner, 2);
    assert!(acked(&bob.write(&mut inner, [99; 16], b"x")));
}

#[test]
fn reads_and_deletes_are_limited() {
    let mut inner = Inner::default();
    let mut alice = Client::authenticated(&mut inner, 1);
    for _ in 0..600 {
        assert!(entries_of(&alice.read(&mut inner, [1; 16])).is_empty());
    }
    assert_eq!(
        error_of(&alice.read(&mut inner, [1; 16])),
        "rate limit exceeded for this target, try again shortly"
    );
    let delete = || {
        Request::MailboxDelete(MailboxDelete { mailbox_id: vec![1; 16], entry_id: vec![1; 16] })
    };
    for _ in 0..600 {
        assert!(acked(&alice.send(&mut inner, delete())));
    }
    assert_eq!(
        error_of(&alice.send(&mut inner, delete())),
        "rate limit exceeded for this target, try again shortly"
    );
}

#[test]
fn a_written_entry_has_the_id_it_was_given() {
    let mut inner = Inner::default();
    let mut alice = Client::authenticated(&mut inner, 1);
    let request = Request::MailboxWrite(MailboxWrite {
        mailbox_id: vec![7; 16],
        envelope: b"e".to_vec(),
        ttl: 2,
    });
    let tag = FrameTag::MailboxWrite;
    let f = facts(1);
    let done =
        dispatch(&mut inner, &mut alice.session, tag, Some(request), &f, [0xEE; 16], NOW, 0);
    assert!(done.is_ok());
    let entries = inner.mailboxes.get(&[7; 16]).unwrap();
    assert_eq!(entries[0].entry_id, [0xEE; 16]);
    assert_eq!(entries[0].expires_at, NOW + 2 * SECOND);
    assert_eq!(entries[0].written_by, [1; 32]);
}
