//! What the server does about each frame of a connection.

use vstd::prelude::*;
use vstd::utf8::encode_utf8;
use crate::bytes::{array_16, bytes_equal, copy_bytes};
use crate::map::{in_order, keys_sorted, lemma_in_order, lookup, ByteMap};
use crate::username::username_allowed;
use super::abuse::{
    allowed, charge, fetch_key, fetch_limit, is_pow, mailbox_delete_limit, mailbox_fetch_limit,
    new_mailbox_limit, rendezvous_limit, verify_registration_pow, ConnectionId,
};
use super::action::{
    actions_view, fingerprint_view, prekey_view, texts, Action, ActionView, EntryWireView,
    FetchedView, Frame, FrameView, KeyFacts, Request, Session,
};
use super::error::{Error, Result};
use super::protocol::{
    frame_parts, split_tag, Ack, AuthChallenge, AuthResponse, BundleResult, ErrorFrame, FetchBundle,
    FetchedBundleWire, FrameTag, MailboxDelete, MailboxEntries, MailboxEntryWire, MailboxFetch,
    MailboxWrite, OneTimePrekeyWire, OwnPrekeyCount, PrekeyBundleWire, PresenceAnnounce,
    PresenceSubscribe, PresenceUpdate, RendezvousAnswer, RendezvousOffer,
};
use super::state::{
    add_member, entries_view, handle_bytes, has_member, members, next_prekey, now_unix, prekey_pool,
    prune_expired, random_16, ttl_from_secs, unexpired, username_has_only_allowed_characters,
    with_member, BundleView, EntryView, Fingerprint, FingerprintSet, Inner, InnerView, MailboxEntry,
    MailboxId, OneTimePrekeyView, PresenceState, StoredBundle, StoredView, UsernameKey,
    MAX_ENTRIES_PER_WRITER_PER_MAILBOX, MAX_ENVELOPE_LEN, MAX_ICE_CANDIDATES, MAX_ICE_CANDIDATE_LEN,
    MAX_MAILBOX_ENTRIES, MAX_ONE_TIME_PREKEYS_PER_PUBLISH, MAX_SDP_LEN, MAX_USERNAME_LEN,
    MAX_WALL_CLOCK, NANOS_PER_SEC,
};

verus! {

/// Every so many fetches of a bundle with no one-time prekey left, an alert is due.
pub const OTP_EXHAUSTION_ALERT_THRESHOLD: u32 = 10;

/// What a request leads to: the new state, and the actions or the refusal.
pub struct Step {
    pub inner: InnerView,
    pub outcome: std::result::Result<Seq<ActionView>, Error>,
}

/// A refusal that leaves the state as it is.
pub open spec fn refused(st: InnerView, error: Error) -> Step {
    Step { inner: st, outcome: Err(error) }
}

pub open spec fn ack(ok: bool) -> ActionView {
    ActionView::Reply(FrameView::Ack(ok))
}

/// Whether an outcome is the one that a step states.
pub open spec fn outcome_is(
    outcome: Result<Vec<Action>>,
    stated: std::result::Result<Seq<ActionView>, Error>,
) -> bool {
    match outcome {
        Ok(actions) => stated == Ok::<Seq<ActionView>, Error>(actions_view(actions@)),
        Err(e) => stated == Err::<Seq<ActionView>, Error>(e),
    }
}

fn one_action(action: Action) -> (actions: Vec<Action>)
    ensures
        actions_view(actions@) == seq![action@],
{
    let mut actions: Vec<Action> = Vec::new();
    let ghost view = action@;
    actions.push(action);
    assert(actions_view(actions@) =~= seq![view]);
    actions
}

fn ack_reply(ok: bool) -> (actions: Vec<Action>)
    ensures
        actions_view(actions@) == seq![ack(ok)],
{
    one_action(Action::Reply(Frame::Ack(Ack { ok })))
}

// Presence.

/// A presence state on the wire.
pub open spec fn presence_bytes(state: PresenceState) -> (u8, Option<u64>) {
    match state {
        PresenceState::Online => (0, None),
        PresenceState::Away => (1, None),
        PresenceState::Offline { last_seen } => (2, Some(last_seen)),
    }
}

fn presence_wire(state: PresenceState) -> (wire: (u8, Option<u64>))
    ensures
        wire == presence_bytes(state),
{
    match state {
        PresenceState::Online => (0, None),
        PresenceState::Away => (1, None),
        PresenceState::Offline { last_seen } => (2, Some(last_seen)),
    }
}

/// The frame that tells of `who`'s presence.
pub open spec fn presence_frame(who: Seq<u8>, state: PresenceState) -> FrameView {
    FrameView::PresenceUpdate {
        identity_fingerprint: who,
        state: presence_bytes(state).0,
        last_seen: presence_bytes(state).1,
    }
}

fn presence_update(who: &[u8], state: PresenceState) -> (frame: Frame)
    ensures
        frame@ == presence_frame(who@, state),
{
    let (byte, last_seen) = presence_wire(state);
    Frame::PresenceUpdate(
        PresenceUpdate { identity_fingerprint: copy_bytes(who), state: byte, last_seen },
    )
}

/// The subscribers of `who` that are connected, in dictionary order.
pub open spec fn reachable_subscribers(st: InnerView, who: Seq<u8>) -> Seq<Seq<u8>> {
    in_order(members(st.subscriptions, who).intersect(st.connections))
}

/// One push to each connected subscriber of `who`.
pub open spec fn presence_pushes(st: InnerView, who: Seq<u8>, state: PresenceState) -> Seq<ActionView> {
    reachable_subscribers(st, who).map_values(
        |to: Seq<u8>| ActionView::Push { to, frame: presence_frame(who, state) },
    )
}

fn notify_presence(
    subscribers: &FingerprintSet,
    connections: &FingerprintSet,
    who: &Fingerprint,
    state: PresenceState,
) -> (pushes: Vec<Action>)
    ensures
        actions_view(pushes@) == in_order(
            subscribers@.dom().intersect(connections@.dom()),
        ).map_values(|to: Seq<u8>| ActionView::Push { to, frame: presence_frame(who@, state) }),
{
    subscribers.layout();
    let ghost keys = subscribers.key_seq();
    let ghost both = subscribers@.dom().intersect(connections@.dom());
    let ghost mut targets: Seq<Seq<u8>> = Seq::empty();
    let ghost to_push = |to: Seq<u8>| ActionView::Push { to, frame: presence_frame(who@, state) };
    let mut pushes: Vec<Action> = Vec::new();
    let n: usize = subscribers.len();
    let mut i: usize = 0;
    while i < n
        invariant
            i <= n,
            n == keys.len(),
            keys == subscribers.key_seq(),
            keys_sorted(keys),
            both == subscribers@.dom().intersect(connections@.dom()),
            forall|j: int| 0 <= j < n ==> subscribers@.dom().contains(#[trigger] keys[j]),
            keys_sorted(targets),
            to_push == (|to: Seq<u8>|
                ActionView::Push { to, frame: presence_frame(who@, state) }),
            actions_view(pushes@) == targets.map_values(to_push),
            forall|t: int| 0 <= t < targets.len() ==> both.contains(#[trigger] targets[t]),
            forall|t: int|
                0 <= t < targets.len() ==> exists|j: int| 0 <= j < i && keys[j] == #[trigger] targets[t],
            forall|j: int|
                0 <= j < i && connections@.dom().contains(keys[j]) ==> targets.contains(
                    #[trigger] keys[j],
                ),
        decreases n - i,
    {
        let subscriber: &Vec<u8> = subscribers.key_at(i);
        assert(subscribers@.dom().contains(keys[i as int]));
        if connections.contains_key(subscriber.as_slice()) {
            let ghost before = actions_view(pushes@);
            let ghost targets0 = targets;
            pushes.push(
                Action::Push {
                    to: copy_bytes(subscriber.as_slice()),
                    frame: presence_update(who.as_slice(), state),
                },
            );
            proof {
                targets = targets.push(subscriber@);
                assert(actions_view(pushes@) =~= before.push(to_push(subscriber@)));
                assert(targets.map_values(to_push) =~= before.push(to_push(subscriber@)));
                assert forall|a: int, b: int| 0 <= a < b < targets.len() implies crate::bytes::bytes_lt(
                    #[trigger] targets[a],
                    #[trigger] targets[b],
                ) by {
                    if b == targets0.len() {
                        let j = choose|j: int| 0 <= j < i && keys[j] == targets0[a];
                        assert(crate::bytes::bytes_lt(keys[j], keys[i as int]));
                    } else {
                        assert(targets[a] == targets0[a] && targets[b] == targets0[b]);
                    }
                }
                assert forall|t: int| 0 <= t < targets.len() implies exists|j: int|
                    0 <= j < i + 1 && keys[j] == #[trigger] targets[t] by {
                    if t < targets0.len() {
                        let j = choose|j: int| 0 <= j < i && keys[j] == targets0[t];
                        assert(keys[j] == targets[t]);
                    } else {
                        assert(keys[i as int] == targets[t]);
                    }
                }
                assert forall|j: int| 0 <= j < i + 1 && connections@.dom().contains(keys[j]) implies
                    targets.contains(#[trigger] keys[j]) by {
                    if j < i {
                        assert(targets0.contains(keys[j]));
                        let t = choose|t: int| 0 <= t < targets0.len() && targets0[t] == keys[j];
                        assert(targets[t] == keys[j]);
                    } else {
                        assert(targets[targets0.len() as int] == keys[j]);
                    }
                }
            }
        } else {
            proof {
                assert forall|t: int| 0 <= t < targets.len() implies exists|j: int|
                    0 <= j < i + 1 && keys[j] == #[trigger] targets[t] by {
                    let j = choose|j: int| 0 <= j < i && keys[j] == targets[t];
                    assert(keys[j] == targets[t]);
                }
            }
        }
        i = i + 1;
    }
    proof {
        assert forall|k: Seq<u8>| targets.contains(k) <==> both.contains(k) by {
            if targets.contains(k) {
                let t = choose|t: int| 0 <= t < targets.len() && targets[t] == k;
                assert(both.contains(targets[t]));
            }
            if both.contains(k) {
                assert(keys.contains(k));
                let j = choose|j: int| 0 <= j < keys.len() && keys[j] == k;
                assert(targets.contains(keys[j]));
            }
        }
        lemma_in_order(targets, both);
    }
    pushes
}

/// The state in which `who`'s presence is `state`.
pub open spec fn with_presence(st: InnerView, who: Seq<u8>, state: PresenceState) -> InnerView {
    InnerView { presence: st.presence.insert(who, state), ..st }
}

fn set_presence(inner: &mut Inner, who: &Fingerprint, state: PresenceState) -> (pushes: Vec<Action>)
    ensures
        final(inner)@ == with_presence(old(inner)@, who@, state),
        actions_view(pushes@) == presence_pushes(old(inner)@, who@, state),
{
    inner.presence.insert(who.as_slice(), state);
    assert(inner@ =~= with_presence(old(inner)@, who@, state));
    match inner.subscriptions.get(who.as_slice()) {
        Some(subscribers) => {
            notify_presence(subscribers, &inner.connections, who, state)
        },
        None => {
            let none: FingerprintSet = ByteMap::new();
            assert(none@.dom() =~= Set::<Seq<u8>>::empty());
            notify_presence(&none, &inner.connections, who, state)
        },
    }
}

/// The key that an `AuthResponse` is to be verified with: the one that the identity has
/// published, or where it is not registered, the one that it has sent along.
pub open spec fn auth_key(st: InnerView, req: AuthResponse) -> Option<Seq<u8>> {
    match lookup(st.directory, req.identity_fingerprint@) {
        Some(stored) => Some(stored.bundle.identity_key),
        None => match req.identity_key {
            Some(key) => Some(key@),
            None => None,
        },
    }
}

/// The key that an `AuthResponse` is to be verified with.
pub fn authentication_key(inner: &Inner, req: &AuthResponse) -> (key: Option<Vec<u8>>)
    ensures
        match key {
            Some(k) => auth_key(inner@, *req) == Some(k@),
            None => auth_key(inner@, *req) is None,
        },
{
    match inner.directory.get(req.identity_fingerprint.as_slice()) {
        Some(stored) => Some(copy_bytes(stored.bundle.identity_key.as_slice())),
        None => match &req.identity_key {
            Some(key) => Some(copy_bytes(key.as_slice())),
            None => None,
        },
    }
}

/// The outcome of an authentication: it takes a key, of the fingerprint that is named, whose
/// signature is valid. The connection is then that identity's, which is online.
pub open spec fn auth_step(st: InnerView, req: AuthResponse, facts: KeyFacts) -> Step {
    let fp = req.identity_fingerprint@;
    if fp.len() != 32 {
        refused(st, Error::MalformedFrame("identity_fingerprint must be 32 bytes"))
    } else if auth_key(st, req) is None || !facts.signature_valid || facts.fingerprint@ != fp {
        refused(st, Error::AuthFailed)
    } else {
        let connected = InnerView { connections: st.connections.insert(fp), ..st };
        Step {
            inner: with_presence(connected, fp, PresenceState::Online),
            outcome: Ok(
                seq![ack(true)] + presence_pushes(connected, fp, PresenceState::Online),
            ),
        }
    }
}

fn authenticate(inner: &mut Inner, req: &AuthResponse, facts: &KeyFacts) -> (outcome: Result<
    Vec<Action>,
>)
    ensures
        final(inner)@ == auth_step(old(inner)@, *req, *facts).inner,
        outcome_is(outcome, auth_step(old(inner)@, *req, *facts).outcome),
{
    if req.identity_fingerprint.len() != 32 {
        return Err(Error::MalformedFrame("identity_fingerprint must be 32 bytes"));
    }
    if authentication_key(inner, req).is_none() || !facts.signature_valid || !bytes_equal(
        facts.fingerprint.as_slice(),
        req.identity_fingerprint.as_slice(),
    ) {
        return Err(Error::AuthFailed);
    }
    let ghost fp = facts.fingerprint@;
    let ghost connected = InnerView { connections: inner@.connections.insert(fp), ..inner@ };
    inner.connections.insert(facts.fingerprint.as_slice(), ());
    assert(inner@ =~= connected);
    let mut pushes: Vec<Action> = set_presence(inner, &facts.fingerprint, PresenceState::Online);
    let ghost told = actions_view(pushes@);
    let mut actions: Vec<Action> = ack_reply(true);
    actions.append(&mut pushes);
    assert(actions_view(actions@) =~= seq![ack(true)] + told);
    Ok(actions)
}

/// The outcome of announcing a presence.
pub open spec fn announce_step(st: InnerView, who: Seq<u8>, req: PresenceAnnounce) -> Step {
    if req.state == 0 {
        Step {
            inner: with_presence(st, who, PresenceState::Online),
            outcome: Ok(presence_pushes(st, who, PresenceState::Online)),
        }
    } else if req.state == 1 {
        Step {
            inner: with_presence(st, who, PresenceState::Away),
            outcome: Ok(presence_pushes(st, who, PresenceState::Away)),
        }
    } else {
        refused(st, Error::MalformedFrame("unknown presence state"))
    }
}

fn announce_presence(inner: &mut Inner, who: &Fingerprint, req: &PresenceAnnounce) -> (outcome:
    Result<Vec<Action>>)
    ensures
        final(inner)@ == announce_step(old(inner)@, who@, *req).inner,
        outcome_is(outcome, announce_step(old(inner)@, who@, *req).outcome),
{
    if req.state == 0 {
        Ok(set_presence(inner, who, PresenceState::Online))
    } else if req.state == 1 {
        Ok(set_presence(inner, who, PresenceState::Away))
    } else {
        Err(Error::MalformedFrame("unknown presence state"))
    }
}

/// The outcome of subscribing to a presence: only to one whose bundle one has fetched.
pub open spec fn subscribe_step(st: InnerView, who: Seq<u8>, req: PresenceSubscribe) -> Step {
    let target = req.identity_fingerprint@;
    if target.len() != 32 {
        refused(st, Error::MalformedFrame("identity_fingerprint must be 32 bytes"))
    } else if !members(st.fetch_evidence, who).contains(target) {
        refused(st, Error::AuthRequired)
    } else {
        Step {
            inner: InnerView { subscriptions: with_member(st.subscriptions, target, who), ..st },
            outcome: Ok(
                match lookup(st.presence, target) {
                    Some(state) => seq![ActionView::Reply(presence_frame(target, state))],
                    None => Seq::empty(),
                },
            ),
        }
    }
}

fn subscribe_presence(inner: &mut Inner, who: &Fingerprint, req: &PresenceSubscribe) -> (outcome:
    Result<Vec<Action>>)
    ensures
        final(inner)@ == subscribe_step(old(inner)@, who@, *req).inner,
        outcome_is(outcome, subscribe_step(old(inner)@, who@, *req).outcome),
{
    let target: &[u8] = req.identity_fingerprint.as_slice();
    if target.len() != 32 {
        return Err(Error::MalformedFrame("identity_fingerprint must be 32 bytes"));
    }
    if !has_member(&inner.fetch_evidence, who.as_slice(), target) {
        return Err(Error::AuthRequired);
    }
    add_member(&mut inner.subscriptions, target, who.as_slice());
    assert(inner@ =~= subscribe_step(old(inner)@, who@, *req).inner);
    match inner.presence.get(target) {
        Some(state) => Ok(one_action(Action::Reply(presence_update(target, *state)))),
        None => {
            let none: Vec<Action> = Vec::new();
            assert(actions_view(none@) =~= Seq::<ActionView>::empty());
            Ok(none)
        },
    }
}

// The directory.

/// Whether the bundle is of a shape that is worth verifying, and if not, why.
pub open spec fn bundle_fault(bundle: BundleView) -> Option<Error> {
    if bundle.one_time_prekeys.len() > MAX_ONE_TIME_PREKEYS_PER_PUBLISH {
        Some(Error::TooManyOneTimePrekeys)
    } else if encode_utf8(bundle.username).len() > MAX_USERNAME_LEN {
        Some(Error::UsernameTooLong)
    } else if !username_allowed(bundle.username) {
        Some(Error::UsernameInvalidCharacters)
    } else if exists|i: int|
        0 <= i < bundle.one_time_prekeys.len() && (#[trigger] bundle.one_time_prekeys[i]).key.len()
            != 32 {
        Some(Error::InvalidBundle("one-time prekey must be 32 bytes"))
    } else if bundle.identity_dh_public.len() != 32 {
        Some(Error::InvalidBundle("identity_dh_public must be 32 bytes"))
    } else if bundle.signed_prekey.len() != 32 {
        Some(Error::InvalidBundle("signed_prekey must be 32 bytes"))
    } else {
        None
    }
}

/// Whether the bundle is of a shape that is worth verifying, and if not, why.
pub fn check_bundle(wire: &PrekeyBundleWire) -> (checked: Result<()>)
    ensures
        match checked {
            Ok(_) => bundle_fault(wire@) is None,
            Err(e) => bundle_fault(wire@) == Some(e),
        },
{
    if wire.one_time_prekeys.len() > MAX_ONE_TIME_PREKEYS_PER_PUBLISH {
        return Err(Error::TooManyOneTimePrekeys);
    }
    if wire.username.as_str().as_bytes().len() > MAX_USERNAME_LEN {
        return Err(Error::UsernameTooLong);
    }
    if !username_has_only_allowed_characters(wire.username.as_str()) {
        return Err(Error::UsernameInvalidCharacters);
    }
    let mut i: usize = 0;
    while i < wire.one_time_prekeys.len()
        invariant
            i <= wire.one_time_prekeys@.len(),
            wire@.one_time_prekeys.len() <= MAX_ONE_TIME_PREKEYS_PER_PUBLISH,
            encode_utf8(wire@.username).len() <= MAX_USERNAME_LEN,
            username_allowed(wire@.username),
            forall|j: int| 0 <= j < i ==> (#[trigger] wire@.one_time_prekeys[j]).key.len() == 32,
        decreases wire.one_time_prekeys@.len() - i,
    {
        assert(wire@.one_time_prekeys[i as int] == wire.one_time_prekeys@[i as int]@);
        if wire.one_time_prekeys[i].key.len() != 32 {
            return Err(Error::InvalidBundle("one-time prekey must be 32 bytes"));
        }
        i = i + 1;
    }
    if wire.identity_dh_public.len() != 32 {
        return Err(Error::InvalidBundle("identity_dh_public must be 32 bytes"));
    }
    if wire.signed_prekey.len() != 32 {
        return Err(Error::InvalidBundle("signed_prekey must be 32 bytes"));
    }
    Ok(())
}

/// Whether the bundle carries a proof of work for its handle and identity.
pub open spec fn pow_solved(bundle: BundleView) -> bool {
    bundle.registration_pow matches Some(solution) && is_pow(
        bundle.username,
        bundle.discriminator,
        bundle.identity_key,
        solution,
    )
}

/// The outcome of publishing a bundle: a handle goes to the first identity that claims it with
/// a proof of work, and stays with it.
pub open spec fn publish_step(st: InnerView, bundle: BundleView, facts: KeyFacts) -> Step {
    let fp = facts.fingerprint@;
    let handle = handle_bytes(bundle.username, bundle.discriminator);
    match bundle_fault(bundle) {
        Some(error) => refused(st, error),
        None => if !facts.signature_valid {
            refused(st, Error::InvalidBundle("signature verification failed"))
        } else if lookup(st.username_index, handle) is Some && st.username_index[handle] != fp {
            refused(st, Error::UsernameTaken)
        } else if lookup(st.username_index, handle) is None && !pow_solved(bundle) {
            refused(st, Error::ProofOfWorkRequired)
        } else {
            Step {
                inner: InnerView {
                    username_index: st.username_index.insert(handle, fp),
                    ..st
                }.registered(
                    fp,
                    facts.bootstrap_mailbox@,
                    StoredView {
                        bundle,
                        one_time_prekeys: prekey_pool(bundle.one_time_prekeys),
                    },
                ),
                outcome: Ok(seq![ActionView::Save { fingerprint: fp }, ack(true)]),
            }
        },
    }
}

/// Publishes a bundle. `facts` is what the key library says of it.
pub fn publish_bundle(inner: &mut Inner, wire: PrekeyBundleWire, facts: &KeyFacts) -> (outcome:
    Result<Vec<Action>>)
    ensures
        final(inner)@ == publish_step(old(inner)@, wire@, *facts).inner,
        outcome_is(outcome, publish_step(old(inner)@, wire@, *facts).outcome),
{
    let ghost bundle = wire@;
    match check_bundle(&wire) {
        Ok(_) => {},
        Err(e) => {
            return Err(e);
        },
    }
    if !facts.signature_valid {
        return Err(Error::InvalidBundle("signature verification failed"));
    }
    let key: UsernameKey = UsernameKey {
        username: wire.username.clone(),
        discriminator: wire.discriminator,
    };
    let handle: Vec<u8> = key.to_bytes();
    match inner.username_index.get(handle.as_slice()) {
        Some(owner) => {
            if !bytes_equal(owner.as_slice(), facts.fingerprint.as_slice()) {
                return Err(Error::UsernameTaken);
            }
        },
        None => {
            let solved: bool = match wire.registration_pow {
                Some(solution) => verify_registration_pow(
                    wire.username.as_str(),
                    wire.discriminator,
                    wire.identity_key.as_slice(),
                    solution,
                ),
                None => false,
            };
            if !solved {
                return Err(Error::ProofOfWorkRequired);
            }
        },
    }
    let stored: StoredBundle = StoredBundle::from_wire(wire);
    inner.username_index.insert(handle.as_slice(), facts.fingerprint);
    assert(inner@ =~= (InnerView {
        username_index: old(inner)@.username_index.insert(handle@, facts.fingerprint@),
        ..old(inner)@
    }));
    inner.register_bundle(facts.fingerprint, facts.bootstrap_mailbox, stored);
    let mut actions: Vec<Action> = Vec::new();
    actions.push(Action::Save { fingerprint: copy_bytes(facts.fingerprint.as_slice()) });
    actions.push(Action::Reply(Frame::Ack(Ack { ok: true })));
    assert(actions_view(actions@) =~= seq![
        ActionView::Save { fingerprint: facts.fingerprint@ },
        ack(true),
    ]);
    Ok(actions)
}

/// The bundle as it is handed out with `prekey`.
pub open spec fn fetched(bundle: BundleView, prekey: Option<OneTimePrekeyView>) -> FetchedView {
    FetchedView {
        username: bundle.username,
        discriminator: bundle.discriminator,
        identity_key: bundle.identity_key,
        identity_dh_public: bundle.identity_dh_public,
        identity_dh_signature: bundle.identity_dh_signature,
        signed_prekey_id: bundle.signed_prekey_id,
        signed_prekey: bundle.signed_prekey,
        signed_prekey_sig: bundle.signed_prekey_sig,
        signed_prekey_expires_at: bundle.signed_prekey_expires_at,
        one_time_prekey: prekey,
    }
}

fn fetched_wire(b: &PrekeyBundleWire, prekey: Option<OneTimePrekeyWire>) -> (wire: FetchedBundleWire)
    ensures
        wire@ == fetched(b@, prekey_view(prekey)),
{
    FetchedBundleWire {
        username: b.username.clone(),
        discriminator: b.discriminator,
        identity_key: copy_bytes(b.identity_key.as_slice()),
        identity_dh_public: copy_bytes(b.identity_dh_public.as_slice()),
        identity_dh_signature: copy_bytes(b.identity_dh_signature.as_slice()),
        signed_prekey_id: b.signed_prekey_id,
        signed_prekey: copy_bytes(b.signed_prekey.as_slice()),
        signed_prekey_sig: copy_bytes(b.signed_prekey_sig.as_slice()),
        signed_prekey_expires_at: b.signed_prekey_expires_at,
        one_time_prekey: prekey,
    }
}

pub open spec fn no_bundle() -> Seq<ActionView> {
    seq![ActionView::Reply(FrameView::BundleResult(None))]
}

/// The count after one more fetch without a one-time prekey.
pub open spec fn attempts_after(attempts: Map<Seq<u8>, u32>, target: Seq<u8>) -> u32 {
    let before = if attempts.dom().contains(target) {
        attempts[target]
    } else {
        0
    };
    if before < u32::MAX {
        (before + 1) as u32
    } else {
        before
    }
}

/// The state and the actions of handing out the bundle of `target`, which is registered.
pub open spec fn hand_out(st: InnerView, target: Seq<u8>, fetcher: Option<Seq<u8>>) -> Step {
    let stored = st.directory[target];
    let evidence = match fetcher {
        Some(who) => with_member(st.fetch_evidence, who, target),
        None => st.fetch_evidence,
    };
    match next_prekey(stored.one_time_prekeys) {
        Some(id) => Step {
            inner: InnerView {
                directory: st.directory.insert(
                    target,
                    StoredView {
                        bundle: stored.bundle,
                        one_time_prekeys: stored.one_time_prekeys.remove(id),
                    },
                ),
                fetch_evidence: evidence,
                ..st
            },
            outcome: Ok(
                seq![
                    ActionView::Save { fingerprint: target },
                    ActionView::Reply(
                        FrameView::BundleResult(
                            Some(
                                fetched(
                                    stored.bundle,
                                    Some(OneTimePrekeyView {
                                        id,
                                        key: stored.one_time_prekeys[id],
                                    }),
                                ),
                            ),
                        ),
                    ),
                ],
            ),
        },
        None => {
            let count = attempts_after(st.otp_exhaustion_attempts, target);
            let reply = ActionView::Reply(
                FrameView::BundleResult(Some(fetched(stored.bundle, None))),
            );
            Step {
                inner: InnerView {
                    fetch_evidence: evidence,
                    otp_exhaustion_attempts: st.otp_exhaustion_attempts.insert(target, count),
                    ..st
                },
                outcome: Ok(
                    if count % OTP_EXHAUSTION_ALERT_THRESHOLD == 0 {
                        seq![ActionView::Alert { target, attempts: count }, reply]
                    } else {
                        seq![reply]
                    },
                ),
            }
        },
    }
}

/// The outcome of fetching a bundle: nothing for an unknown handle, otherwise the bundle with
/// the next one-time prekey, as often as the limit allows.
pub open spec fn fetch_step(
    st: InnerView,
    req: FetchBundle,
    fetcher: Option<Seq<u8>>,
    connection: Seq<u8>,
    monotonic: u64,
) -> Step {
    match lookup(st.username_index, handle_bytes(req.username@, req.discriminator)) {
        None => Step { inner: st, outcome: Ok(no_bundle()) },
        Some(target) => {
            let key = fetch_key(connection, target);
            let charged = InnerView {
                fetch_buckets: charge(st.fetch_buckets, key, fetch_limit(), monotonic),
                ..st
            };
            if !allowed(lookup(st.fetch_buckets, key), fetch_limit(), monotonic) {
                refused(charged, Error::RateLimited)
            } else if !st.directory.dom().contains(target) {
                Step { inner: charged, outcome: Ok(no_bundle()) }
            } else {
                hand_out(charged, target, fetcher)
            }
        },
    }
}

fn hand_out_bundle(inner: &mut Inner, target: &Fingerprint, fetcher: Option<Fingerprint>) -> (outcome:
    Result<Vec<Action>>)
    requires
        old(inner)@.directory.dom().contains(target@),
    ensures
        ({
            let who = fingerprint_view(fetcher);
            &&& final(inner)@ == hand_out(old(inner)@, target@, who).inner
            &&& outcome_is(outcome, hand_out(old(inner)@, target@, who).outcome)
        }),
{
    let ghost st = inner@;
    let ghost who = fingerprint_view(fetcher);
    let ghost step = hand_out(st, target@, who);
    let mut actions: Vec<Action> = Vec::new();
    if let Some(mut stored) = inner.directory.remove(target.as_slice()) {
        let ghost before = stored@;
        let prekey: Option<OneTimePrekeyWire> = stored.take_one_time_prekey();
        let consumed: bool = prekey.is_some();
        let ghost handed_out = prekey_view(prekey);
        let wire: FetchedBundleWire = fetched_wire(&stored.bundle, prekey);
        let ghost after = stored@;
        inner.directory.insert(target.as_slice(), stored);
        assert(inner@.directory =~= st.directory.insert(target@, after));
        if let Some(fp) = fetcher {
            add_member(&mut inner.fetch_evidence, fp.as_slice(), target.as_slice());
        }
        if consumed {
            actions.push(Action::Save { fingerprint: copy_bytes(target.as_slice()) });
        } else {
            assert(after =~= before);
            assert(inner@.directory =~= st.directory);
            let held: u32 = match inner.otp_exhaustion_attempts.get(target.as_slice()) {
                Some(count) => *count,
                None => 0,
            };
            let count: u32 = if held < u32::MAX {
                held + 1
            } else {
                held
            };
            inner.otp_exhaustion_attempts.insert(target.as_slice(), count);
            if count % OTP_EXHAUSTION_ALERT_THRESHOLD == 0 {
                actions.push(
                    Action::Alert { target: copy_bytes(target.as_slice()), attempts: count },
                );
            }
        }
        actions.push(Action::Reply(Frame::BundleResult(BundleResult { bundle: Some(wire) })));
        proof {
            assert(inner@ =~= step.inner);
            assert(Ok::<Seq<ActionView>, Error>(actions_view(actions@)) == step.outcome) by {
                if consumed {
                    assert(actions_view(actions@) =~= seq![
                        ActionView::Save { fingerprint: target@ },
                        ActionView::Reply(
                            FrameView::BundleResult(Some(fetched(before.bundle, handed_out))),
                        ),
                    ]);
                } else {
                    let count = attempts_after(st.otp_exhaustion_attempts, target@);
                    let reply = ActionView::Reply(
                        FrameView::BundleResult(Some(fetched(before.bundle, None))),
                    );
                    if count % OTP_EXHAUSTION_ALERT_THRESHOLD == 0 {
                        assert(actions_view(actions@) =~= seq![
                            ActionView::Alert { target: target@, attempts: count },
                            reply,
                        ]);
                    } else {
                        assert(actions_view(actions@) =~= seq![reply]);
                    }
                }
            }
        }
    }
    Ok(actions)
}

/// Hands out the bundle that a handle stands for.
pub fn fetch_bundle(
    inner: &mut Inner,
    req: &FetchBundle,
    fetcher: Option<Fingerprint>,
    connection_id: ConnectionId,
    monotonic: u64,
) -> (outcome: Result<Vec<Action>>)
    ensures
        ({
            let who = fingerprint_view(fetcher);
            let step = fetch_step(old(inner)@, *req, who, connection_id@, monotonic);
            &&& final(inner)@ == step.inner
            &&& outcome_is(outcome, step.outcome)
        }),
{
    let key: UsernameKey = UsernameKey {
        username: req.username.clone(),
        discriminator: req.discriminator,
    };
    let target: Fingerprint = match inner.username_index.get(key.to_bytes().as_slice()) {
        Some(fp) => *fp,
        None => {
            return Ok(one_action(Action::Reply(Frame::BundleResult(BundleResult { bundle: None }))));
        },
    };
    let within: bool = inner.fetch_rate_limiter.allow(connection_id, target, monotonic);
    assert(inner@ =~= (InnerView {
        fetch_buckets: charge(
            old(inner)@.fetch_buckets,
            fetch_key(connection_id@, target@),
            fetch_limit(),
            monotonic,
        ),
        ..old(inner)@
    }));
    if !within {
        return Err(Error::RateLimited);
    }
    if !inner.directory.contains_key(target.as_slice()) {
        return Ok(one_action(Action::Reply(Frame::BundleResult(BundleResult { bundle: None }))));
    }
    hand_out_bundle(inner, &target, fetcher)
}

/// How many of its one-time prekeys an identity has left; none if it is not registered.
pub open spec fn prekeys_left(st: InnerView, who: Seq<u8>) -> nat {
    if st.directory.dom().contains(who) {
        st.directory[who].one_time_prekeys.len()
    } else {
        0
    }
}

fn own_prekey_count(inner: &Inner, who: &Fingerprint) -> (actions: Vec<Action>)
    ensures
        actions_view(actions@) == seq![
            ActionView::Reply(FrameView::OwnPrekeyCount(prekeys_left(inner@, who@) as u64)),
        ],
{
    broadcast use vstd::std_specs::hash::group_hash_axioms;

    let remaining: u64 = match inner.directory.get(who.as_slice()) {
        Some(stored) => {
            assert(stored@.one_time_prekeys.dom() =~= stored.one_time_prekeys@.dom());
            stored.one_time_prekeys.len() as u64
        },
        None => 0,
    };
    one_action(Action::Reply(Frame::OwnPrekeyCount(OwnPrekeyCount { remaining })))
}

// Rendezvous.

/// Whether a rendezvous payload is within its limits, and if not, why.
pub open spec fn rendezvous_fault(sdp: Seq<char>, ice_candidates: Seq<Seq<char>>) -> Option<Error> {
    if encode_utf8(sdp).len() > MAX_SDP_LEN {
        Some(Error::SdpTooLarge)
    } else if ice_candidates.len() > MAX_ICE_CANDIDATES || exists|i: int|
        0 <= i < ice_candidates.len() && encode_utf8(#[trigger] ice_candidates[i]).len()
            > MAX_ICE_CANDIDATE_LEN {
        Some(Error::IceCandidatesInvalid)
    } else {
        None
    }
}

fn check_rendezvous(sdp: &str, ice_candidates: &Vec<String>) -> (checked: Result<()>)
    ensures
        match checked {
            Ok(_) => rendezvous_fault(sdp@, texts(ice_candidates@)) is None,
            Err(e) => rendezvous_fault(sdp@, texts(ice_candidates@)) == Some(e),
        },
{
    if sdp.as_bytes().len() > MAX_SDP_LEN {
        return Err(Error::SdpTooLarge);
    }
    if ice_candidates.len() > MAX_ICE_CANDIDATES {
        return Err(Error::IceCandidatesInvalid);
    }
    let ghost list = texts(ice_candidates@);
    let mut i: usize = 0;
    while i < ice_candidates.len()
        invariant
            i <= ice_candidates@.len(),
            list == texts(ice_candidates@),
            list.len() <= MAX_ICE_CANDIDATES,
            encode_utf8(sdp@).len() <= MAX_SDP_LEN,
            forall|j: int|
                0 <= j < i ==> encode_utf8(#[trigger] list[j]).len() <= MAX_ICE_CANDIDATE_LEN,
        decreases ice_candidates@.len() - i,
    {
        assert(list[i as int] == ice_candidates@[i as int]@);
        if ice_candidates[i].as_str().as_bytes().len() > MAX_ICE_CANDIDATE_LEN {
            return Err(Error::IceCandidatesInvalid);
        }
        i = i + 1;
    }
    Ok(())
}

/// Whether one of the two has fetched the other's bundle.
pub open spec fn related(st: InnerView, a: Seq<u8>, b: Seq<u8>) -> bool {
    members(st.fetch_evidence, a).contains(b) || members(st.fetch_evidence, b).contains(a)
}

/// The outcome of sending `frame`, whose payload has the given fault, to `peer`.
pub open spec fn relay_step(
    st: InnerView,
    from: Seq<u8>,
    peer: Seq<u8>,
    frame: FrameView,
    fault: Option<Error>,
    monotonic: u64,
) -> Step {
    let charged = InnerView {
        rendezvous_buckets: charge(st.rendezvous_buckets, from, rendezvous_limit(), monotonic),
        ..st
    };
    match fault {
        Some(error) => refused(st, error),
        None => if peer.len() != 32 {
            refused(st, Error::MalformedFrame("peer_fingerprint must be 32 bytes"))
        } else if !related(st, from, peer) {
            refused(st, Error::AuthRequired)
        } else if !allowed(lookup(st.rendezvous_buckets, from), rendezvous_limit(), monotonic) {
            refused(charged, Error::RateLimited)
        } else if st.connections.contains(peer) {
            Step { inner: charged, outcome: Ok(seq![ActionView::Relay { to: peer, frame }]) }
        } else {
            Step { inner: charged, outcome: Ok(seq![ack(false)]) }
        },
    }
}

fn relay_to_peer(
    inner: &mut Inner,
    from: &Fingerprint,
    peer: &[u8],
    frame: Frame,
    monotonic: u64,
) -> (outcome: Result<Vec<Action>>)
    ensures
        ({
            let step = relay_step(old(inner)@, from@, peer@, frame@, None, monotonic);
            &&& final(inner)@ == step.inner
            &&& outcome_is(outcome, step.outcome)
        }),
{
    if peer.len() != 32 {
        return Err(Error::MalformedFrame("peer_fingerprint must be 32 bytes"));
    }
    if !has_member(&inner.fetch_evidence, from.as_slice(), peer) && !has_member(
        &inner.fetch_evidence,
        peer,
        from.as_slice(),
    ) {
        return Err(Error::AuthRequired);
    }
    let within: bool = inner.rendezvous_rate_limiter.allow(*from, monotonic);
    assert(inner@ =~= (InnerView {
        rendezvous_buckets: charge(
            old(inner)@.rendezvous_buckets,
            from@,
            rendezvous_limit(),
            monotonic,
        ),
        ..old(inner)@
    }));
    if !within {
        return Err(Error::RateLimited);
    }
    if inner.connections.contains_key(peer) {
        Ok(one_action(Action::Relay { to: copy_bytes(peer), frame }))
    } else {
        Ok(ack_reply(false))
    }
}

/// The answer to the sender of a relayed frame, once it is known whether the frame could be
/// handed to the peer's connection.
pub fn relay_acknowledgement(delivered: bool) -> (frame: Frame)
    ensures
        frame@ == FrameView::Ack(delivered),
{
    Frame::Ack(Ack { ok: delivered })
}

/// The outcome of a rendezvous offer: the peer gets it under the sender's own fingerprint.
pub open spec fn offer_step(st: InnerView, from: Seq<u8>, req: RendezvousOffer, monotonic: u64) -> Step {
    relay_step(
        st,
        from,
        req.peer_fingerprint@,
        FrameView::RendezvousOffer {
            from,
            sdp: req.sdp_offer@,
            ice_candidates: texts(req.ice_candidates@),
        },
        rendezvous_fault(req.sdp_offer@, texts(req.ice_candidates@)),
        monotonic,
    )
}

fn relay_offer(inner: &mut Inner, from: &Fingerprint, req: RendezvousOffer, monotonic: u64) -> (outcome:
    Result<Vec<Action>>)
    ensures
        final(inner)@ == offer_step(old(inner)@, from@, req, monotonic).inner,
        outcome_is(outcome, offer_step(old(inner)@, from@, req, monotonic).outcome),
{
    match check_rendezvous(req.sdp_offer.as_str(), &req.ice_candidates) {
        Ok(_) => {},
        Err(e) => {
            return Err(e);
        },
    }
    let frame: Frame = Frame::RendezvousOffer(
        RendezvousOffer {
            peer_fingerprint: copy_bytes(from.as_slice()),
            sdp_offer: req.sdp_offer,
            ice_candidates: req.ice_candidates,
        },
    );
    relay_to_peer(inner, from, req.peer_fingerprint.as_slice(), frame, monotonic)
}

/// The outcome of a rendezvous answer: the peer gets it under the sender's own fingerprint.
pub open spec fn answer_step(st: InnerView, from: Seq<u8>, req: RendezvousAnswer, monotonic: u64) -> Step {
    relay_step(
        st,
        from,
        req.peer_fingerprint@,
        FrameView::RendezvousAnswer {
            from,
            sdp: req.sdp_answer@,
            ice_candidates: texts(req.ice_candidates@),
        },
        rendezvous_fault(req.sdp_answer@, texts(req.ice_candidates@)),
        monotonic,
    )
}

fn relay_answer(inner: &mut Inner, from: &Fingerprint, req: RendezvousAnswer, monotonic: u64) -> (outcome:
    Result<Vec<Action>>)
    ensures
        final(inner)@ == answer_step(old(inner)@, from@, req, monotonic).inner,
        outcome_is(outcome, answer_step(old(inner)@, from@, req, monotonic).outcome),
{
    match check_rendezvous(req.sdp_answer.as_str(), &req.ice_candidates) {
        Ok(_) => {},
        Err(e) => {
            return Err(e);
        },
    }
    let frame: Frame = Frame::RendezvousAnswer(
        RendezvousAnswer {
            peer_fingerprint: copy_bytes(from.as_slice()),
            sdp_answer: req.sdp_answer,
            ice_candidates: req.ice_candidates,
        },
    );
    relay_to_peer(inner, from, req.peer_fingerprint.as_slice(), frame, monotonic)
}

// Mailboxes.

/// How many of the entries `who` has written.
pub open spec fn written_by(entries: Seq<EntryView>, who: Seq<u8>) -> nat
    decreases entries.len(),
{
    if entries.len() == 0 {
        0
    } else {
        written_by(entries.drop_last(), who) + if entries.last().written_by == who {
            1nat
        } else {
            0
        }
    }
}

fn count_written_by(entries: &Vec<MailboxEntry>, who: &Fingerprint) -> (n: usize)
    ensures
        n == written_by(entries_view(entries@), who@),
        n <= entries@.len(),
{
    let ghost view = entries_view(entries@);
    let mut n: usize = 0;
    let mut i: usize = 0;
    assert(view.take(0) =~= Seq::<EntryView>::empty());
    while i < entries.len()
        invariant
            i <= entries@.len(),
            view == entries_view(entries@),
            n <= i,
            n == written_by(view.take(i as int), who@),
        decreases entries@.len() - i,
    {
        proof {
            assert(view.take(i + 1).drop_last() =~= view.take(i as int));
            assert(view.take(i + 1).last() == entries@[i as int]@);
        }
        if bytes_equal(entries[i].written_by.as_slice(), who.as_slice()) {
            n = n + 1;
        }
        i = i + 1;
    }
    assert(view.take(i as int) =~= view);
    n
}

/// The entries of a mailbox that have not expired; none if there is no such mailbox.
pub open spec fn live_entries(st: InnerView, mailbox: Seq<u8>, wall: u64) -> Seq<EntryView> {
    match lookup(st.mailboxes, mailbox) {
        Some(entries) => unexpired(entries, wall),
        None => Seq::empty(),
    }
}

/// The state with the expired entries of one mailbox gone.
pub open spec fn pruned(st: InnerView, mailbox: Seq<u8>, wall: u64) -> InnerView {
    match lookup(st.mailboxes, mailbox) {
        Some(entries) => InnerView {
            mailboxes: st.mailboxes.insert(mailbox, unexpired(entries, wall)),
            ..st
        },
        None => st,
    }
}

/// The outcome of writing to a mailbox. Anybody may write to any mailbox, within the limits.
pub open spec fn write_step(
    st: InnerView,
    who: Seq<u8>,
    req: MailboxWrite,
    entry_id: Seq<u8>,
    wall: u64,
    monotonic: u64,
) -> Step {
    let id = req.mailbox_id@;
    let live = live_entries(st, id, wall);
    let known = st.mailboxes.dom().contains(id);
    let base = pruned(st, id, wall);
    let charged = if known {
        base
    } else {
        InnerView {
            new_mailbox_buckets: charge(st.new_mailbox_buckets, who, new_mailbox_limit(), monotonic),
            ..base
        }
    };
    if id.len() != 16 {
        refused(st, Error::MalformedFrame("mailbox_id must be 16 bytes"))
    } else if req.envelope@.len() > MAX_ENVELOPE_LEN {
        refused(st, Error::EnvelopeTooLarge)
    } else if live.len() >= MAX_MAILBOX_ENTRIES {
        refused(base, Error::MailboxFull)
    } else if written_by(live, who) >= MAX_ENTRIES_PER_WRITER_PER_MAILBOX {
        refused(base, Error::WriterQuotaExceeded)
    } else if !known && !allowed(
        lookup(st.new_mailbox_buckets, who),
        new_mailbox_limit(),
        monotonic,
    ) {
        refused(charged, Error::NewMailboxRateLimited)
    } else {
        Step {
            inner: InnerView {
                mailboxes: charged.mailboxes.insert(
                    id,
                    live.push(
                        EntryView {
                            entry_id,
                            envelope: req.envelope@,
                            expires_at: (wall + req.ttl * NANOS_PER_SEC) as u64,
                            written_by: who,
                        },
                    ),
                ),
                ..charged
            },
            outcome: Ok(seq![ack(true)]),
        }
    }
}

fn write_mailbox(
    inner: &mut Inner,
    who: &Fingerprint,
    req: MailboxWrite,
    entry_id: [u8; 16],
    wall: u64,
    monotonic: u64,
) -> (outcome: Result<Vec<Action>>)
    requires
        wall <= MAX_WALL_CLOCK,
    ensures
        ({
            let step = write_step(old(inner)@, who@, req, entry_id@, wall, monotonic);
            &&& final(inner)@ == step.inner
            &&& outcome_is(outcome, step.outcome)
        }),
{
    let ghost st = inner@;
    let ghost id = req.mailbox_id@;
    let ghost step = write_step(st, who@, req, entry_id@, wall, monotonic);
    if req.mailbox_id.len() != 16 {
        return Err(Error::MalformedFrame("mailbox_id must be 16 bytes"));
    }
    if req.envelope.len() > MAX_ENVELOPE_LEN {
        return Err(Error::EnvelopeTooLarge);
    }
    match inner.mailboxes.remove(req.mailbox_id.as_slice()) {
        Some(mut entries) => {
            prune_expired(&mut entries, wall);
            let ghost live = entries_view(entries@);
            let total: usize = entries.len();
            let own: usize = count_written_by(&entries, who);
            if total >= MAX_MAILBOX_ENTRIES || own >= MAX_ENTRIES_PER_WRITER_PER_MAILBOX {
                inner.mailboxes.insert(req.mailbox_id.as_slice(), entries);
                assert(inner@.mailboxes =~= st.mailboxes.insert(id, live));
                assert(inner@ =~= pruned(st, id, wall));
                return if total >= MAX_MAILBOX_ENTRIES {
                    Err(Error::MailboxFull)
                } else {
                    Err(Error::WriterQuotaExceeded)
                };
            }
            let entry: MailboxEntry = MailboxEntry {
                entry_id,
                envelope: req.envelope,
                expires_at: wall + ttl_from_secs(req.ttl),
                written_by: *who,
            };
            let ghost entry_view = entry@;
            entries.push(entry);
            assert(entries_view(entries@) =~= live.push(entry_view));
            inner.mailboxes.insert(req.mailbox_id.as_slice(), entries);
            assert(inner@.mailboxes =~= st.mailboxes.insert(id, live).insert(
                id,
                live.push(entry_view),
            ));
            assert(inner@ =~= step.inner);
        },
        None => {
            assert(inner.mailboxes@ =~= old(inner).mailboxes@);
            let within: bool = inner.new_mailbox_rate_limiter.allow(*who, monotonic);
            if !within {
                assert(inner@ =~= step.inner);
                return Err(Error::NewMailboxRateLimited);
            }
            let entry: MailboxEntry = MailboxEntry {
                entry_id,
                envelope: req.envelope,
                expires_at: wall + ttl_from_secs(req.ttl),
                written_by: *who,
            };
            let ghost entry_view = entry@;
            let mut entries: Vec<MailboxEntry> = Vec::new();
            entries.push(entry);
            assert(entries_view(entries@) =~= Seq::<EntryView>::empty().push(entry_view));
            inner.mailboxes.insert(req.mailbox_id.as_slice(), entries);
            assert(inner@.mailboxes =~= st.mailboxes.insert(
                id,
                Seq::<EntryView>::empty().push(entry_view),
            ));
            assert(inner@ =~= step.inner);
        },
    }
    Ok(ack_reply(true))
}

pub open spec fn entry_wire(entry: EntryView) -> EntryWireView {
    EntryWireView { entry_id: entry.entry_id, envelope: entry.envelope }
}

/// What `who` gets to read of a list of entries: those that others have written.
pub open spec fn readable(entries: Seq<EntryView>, who: Seq<u8>) -> Seq<EntryWireView> {
    entries.filter(|e: EntryView| e.written_by != who).map_values(|e: EntryView| entry_wire(e))
}

/// The outcome of reading a mailbox. Reading makes no mailbox, and takes nothing out of one
/// but what has expired.
pub open spec fn read_step(
    st: InnerView,
    who: Seq<u8>,
    req: MailboxFetch,
    wall: u64,
    monotonic: u64,
) -> Step {
    let id = req.mailbox_id@;
    let charged = InnerView {
        mailbox_fetch_buckets: charge(
            st.mailbox_fetch_buckets,
            who,
            mailbox_fetch_limit(),
            monotonic,
        ),
        ..st
    };
    if id.len() != 16 {
        refused(st, Error::MalformedFrame("mailbox_id must be 16 bytes"))
    } else if !allowed(lookup(st.mailbox_fetch_buckets, who), mailbox_fetch_limit(), monotonic) {
        refused(charged, Error::RateLimited)
    } else if st.anothers_bootstrap_mailbox(id, who) {
        refused(charged, Error::NotMailboxOwner)
    } else {
        Step {
            inner: pruned(charged, id, wall),
            outcome: Ok(
                seq![
                    ActionView::Reply(
                        FrameView::MailboxEntries(readable(live_entries(st, id, wall), who)),
                    ),
                ],
            ),
        }
    }
}

fn readable_entries(entries: &Vec<MailboxEntry>, who: &Fingerprint) -> (wire: Vec<MailboxEntryWire>)
    ensures
        wire@.map_values(|e: MailboxEntryWire| e@) == readable(entries_view(entries@), who@),
{
    let ghost view = entries_view(entries@);
    let ghost others = |e: EntryView| e.written_by != who@;
    let ghost to_wire = |e: EntryView| entry_wire(e);
    let mut wire: Vec<MailboxEntryWire> = Vec::new();
    let mut i: usize = 0;
    proof {
        reveal(Seq::filter);
        assert(view.take(0) =~= Seq::<EntryView>::empty());
        assert(wire@.map_values(|e: MailboxEntryWire| e@) =~= view.take(0).filter(
            others,
        ).map_values(to_wire));
    }
    while i < entries.len()
        invariant
            i <= entries@.len(),
            view == entries_view(entries@),
            others == (|e: EntryView| e.written_by != who@),
            to_wire == (|e: EntryView| entry_wire(e)),
            wire@.map_values(|e: MailboxEntryWire| e@) == view.take(i as int).filter(
                others,
            ).map_values(to_wire),
        decreases entries@.len() - i,
    {
        let ghost before = wire@.map_values(|e: MailboxEntryWire| e@);
        let ghost kept = view.take(i as int).filter(others);
        proof {
            reveal(Seq::filter);
            assert(view.take(i + 1).drop_last() =~= view.take(i as int));
            assert(view.take(i + 1).last() == entries@[i as int]@);
        }
        if !bytes_equal(entries[i].written_by.as_slice(), who.as_slice()) {
            wire.push(
                MailboxEntryWire {
                    entry_id: copy_bytes(entries[i].entry_id.as_slice()),
                    envelope: copy_bytes(entries[i].envelope.as_slice()),
                },
            );
            assert(wire@.map_values(|e: MailboxEntryWire| e@) =~= before.push(
                entry_wire(entries@[i as int]@),
            ));
            assert(kept.push(entries@[i as int]@).map_values(to_wire) =~= before.push(
                entry_wire(entries@[i as int]@),
            ));
        }
        i = i + 1;
    }
    assert(view.take(i as int) =~= view);
    wire
}

fn read_mailbox(inner: &mut Inner, who: &Fingerprint, req: &MailboxFetch, wall: u64, monotonic: u64) -> (outcome:
    Result<Vec<Action>>)
    ensures
        ({
            let step = read_step(old(inner)@, who@, *req, wall, monotonic);
            &&& final(inner)@ == step.inner
            &&& outcome_is(outcome, step.outcome)
        }),
{
    let ghost st = inner@;
    let ghost id = req.mailbox_id@;
    let ghost step = read_step(st, who@, *req, wall, monotonic);
    let mailbox_id: MailboxId = match array_16(req.mailbox_id.as_slice()) {
        Some(mailbox_id) => mailbox_id,
        None => {
            return Err(Error::MalformedFrame("mailbox_id must be 16 bytes"));
        },
    };
    let within: bool = inner.mailbox_fetch_rate_limiter.allow(*who, monotonic);
    let ghost charged = InnerView {
        mailbox_fetch_buckets: charge(
            st.mailbox_fetch_buckets,
            who@,
            mailbox_fetch_limit(),
            monotonic,
        ),
        ..st
    };
    assert(inner@ =~= charged);
    if !within {
        return Err(Error::RateLimited);
    }
    if inner.bootstrap_mailbox_belongs_to_another(&mailbox_id, who) {
        return Err(Error::NotMailboxOwner);
    }
    let entries: Vec<MailboxEntryWire> = match inner.mailboxes.remove(mailbox_id.as_slice()) {
        Some(mut entries) => {
            prune_expired(&mut entries, wall);
            let ghost live = entries_view(entries@);
            let wire: Vec<MailboxEntryWire> = readable_entries(&entries, who);
            inner.mailboxes.insert(mailbox_id.as_slice(), entries);
            assert(inner@.mailboxes =~= st.mailboxes.insert(id, live));
            wire
        },
        None => {
            assert(inner.mailboxes@ =~= old(inner).mailboxes@);
            let none: Vec<MailboxEntryWire> = Vec::new();
            proof {
                reveal(Seq::filter);
                assert(none@.map_values(|e: MailboxEntryWire| e@) =~= readable(
                    Seq::<EntryView>::empty(),
                    who@,
                ));
            }
            none
        },
    };
    assert(inner@ =~= step.inner);
    Ok(one_action(Action::Reply(Frame::MailboxEntries(MailboxEntries { entries }))))
}

/// The entries without those that have the given id.
pub open spec fn without_entry(entries: Seq<EntryView>, entry_id: Seq<u8>) -> Seq<EntryView> {
    entries.filter(|e: EntryView| e.entry_id != entry_id)
}

/// The outcome of deleting an entry of a mailbox.
pub open spec fn delete_step(st: InnerView, who: Seq<u8>, req: MailboxDelete, monotonic: u64) -> Step {
    let id = req.mailbox_id@;
    let charged = InnerView {
        mailbox_delete_buckets: charge(
            st.mailbox_delete_buckets,
            who,
            mailbox_delete_limit(),
            monotonic,
        ),
        ..st
    };
    if id.len() != 16 {
        refused(st, Error::MalformedFrame("mailbox_id must be 16 bytes"))
    } else if req.entry_id@.len() != 16 {
        refused(st, Error::MalformedFrame("entry_id must be 16 bytes"))
    } else if !allowed(lookup(st.mailbox_delete_buckets, who), mailbox_delete_limit(), monotonic) {
        refused(charged, Error::RateLimited)
    } else if st.anothers_bootstrap_mailbox(id, who) {
        refused(charged, Error::NotMailboxOwner)
    } else {
        Step {
            inner: match lookup(st.mailboxes, id) {
                Some(entries) => InnerView {
                    mailboxes: st.mailboxes.insert(id, without_entry(entries, req.entry_id@)),
                    ..charged
                },
                None => charged,
            },
            outcome: Ok(seq![ack(true)]),
        }
    }
}

fn remove_entry(entries: &mut Vec<MailboxEntry>, entry_id: &[u8])
    ensures
        entries_view(final(entries)@) == without_entry(entries_view(old(entries)@), entry_id@),
{
    let ghost all = entries@;
    let ghost other = |e: EntryView| e.entry_id != entry_id@;
    let mut kept: usize = 0;
    let ghost mut seen: int = 0;
    proof {
        reveal(Seq::filter);
    }
    assert(entries_view(all).take(0).filter(other) =~= Seq::<EntryView>::empty());
    while kept < entries.len()
        invariant
            other == (|e: EntryView| e.entry_id != entry_id@),
            0 <= kept <= seen <= all.len(),
            entries@.len() == kept + (all.len() - seen),
            entries_view(entries@.take(kept as int)) == entries_view(all).take(seen).filter(other),
            entries@.skip(kept as int) == all.skip(seen),
        decreases entries@.len() - kept,
    {
        let ghost before = entries@;
        proof {
            reveal(Seq::filter);
            let t = entries_view(all).take(seen + 1);
            assert(t.drop_last() =~= entries_view(all).take(seen));
            assert(before.skip(kept as int)[0] == before[kept as int]);
            assert(all.skip(seen)[0] == all[seen]);
            assert(t.last() == before[kept as int]@);
        }
        if !bytes_equal(entries[kept].entry_id.as_slice(), entry_id) {
            kept = kept + 1;
            assert(entries_view(entries@.take(kept as int)) =~= entries_view(
                before.take(kept - 1),
            ).push(before[kept - 1]@));
            assert(entries@.skip(kept as int) =~= before.skip(kept - 1).drop_first());
        } else {
            entries.remove(kept);
            assert(entries@.take(kept as int) =~= before.take(kept as int));
            assert(entries@.skip(kept as int) =~= before.skip(kept as int).drop_first());
        }
        proof {
            seen = seen + 1;
            assert(all.skip(seen) =~= all.skip(seen - 1).drop_first());
        }
    }
    proof {
        assert(entries_view(all).take(seen) =~= entries_view(all));
        assert(entries@.take(kept as int) =~= entries@);
    }
}

fn delete_from_mailbox(inner: &mut Inner, who: &Fingerprint, req: &MailboxDelete, monotonic: u64) -> (outcome:
    Result<Vec<Action>>)
    ensures
        final(inner)@ == delete_step(old(inner)@, who@, *req, monotonic).inner,
        outcome_is(outcome, delete_step(old(inner)@, who@, *req, monotonic).outcome),
{
    let ghost st = inner@;
    let ghost id = req.mailbox_id@;
    let ghost step = delete_step(st, who@, *req, monotonic);
    let mailbox_id: MailboxId = match array_16(req.mailbox_id.as_slice()) {
        Some(mailbox_id) => mailbox_id,
        None => {
            return Err(Error::MalformedFrame("mailbox_id must be 16 bytes"));
        },
    };
    if req.entry_id.len() != 16 {
        return Err(Error::MalformedFrame("entry_id must be 16 bytes"));
    }
    let within: bool = inner.mailbox_delete_rate_limiter.allow(*who, monotonic);
    let ghost charged = InnerView {
        mailbox_delete_buckets: charge(
            st.mailbox_delete_buckets,
            who@,
            mailbox_delete_limit(),
            monotonic,
        ),
        ..st
    };
    assert(inner@ =~= charged);
    if !within {
        return Err(Error::RateLimited);
    }
    if inner.bootstrap_mailbox_belongs_to_another(&mailbox_id, who) {
        return Err(Error::NotMailboxOwner);
    }
    if let Some(mut entries) = inner.mailboxes.remove(mailbox_id.as_slice()) {
        remove_entry(&mut entries, req.entry_id.as_slice());
        let ghost left = entries_view(entries@);
        inner.mailboxes.insert(mailbox_id.as_slice(), entries);
        assert(inner@.mailboxes =~= st.mailboxes.insert(id, left));
    } else {
        assert(inner.mailboxes@ =~= old(inner).mailboxes@);
    }
    assert(inner@ =~= step.inner);
    Ok(ack_reply(true))
}

// The connection.

/// The tags that only the server sends.
pub open spec fn from_server_only(tag: FrameTag) -> bool {
    tag is AuthChallenge || tag is BundleResult || tag is PresenceUpdate || tag is MailboxEntries
        || tag is OwnPrekeyCount || tag is Ack || tag is Error
}

/// The tags that take an authenticated connection.
pub open spec fn needs_identity(tag: FrameTag) -> bool {
    !from_server_only(tag) && !(tag is AuthResponse) && !(tag is PublishBundle)
        && !(tag is FetchBundle)
}

/// Why a frame is refused by its tag alone.
pub open spec fn tag_fault(tag: FrameTag, authenticated: bool) -> Option<Error> {
    if from_server_only(tag) {
        Some(Error::MalformedFrame("this frame type is server-to-client only"))
    } else if tag is AuthResponse && authenticated {
        Some(Error::AlreadyAuthenticated)
    } else if needs_identity(tag) && !authenticated {
        Some(Error::AuthRequired)
    } else {
        None
    }
}

fn check_tag(tag: FrameTag, authenticated: bool) -> (checked: Result<()>)
    ensures
        match checked {
            Ok(_) => tag_fault(tag, authenticated) is None,
            Err(e) => tag_fault(tag, authenticated) == Some(e),
        },
{
    match tag {
        FrameTag::AuthChallenge
        | FrameTag::BundleResult
        | FrameTag::PresenceUpdate
        | FrameTag::MailboxEntries
        | FrameTag::OwnPrekeyCount
        | FrameTag::Ack
        | FrameTag::Error => Err(
            Error::MalformedFrame("this frame type is server-to-client only"),
        ),
        FrameTag::AuthResponse => if authenticated {
            Err(Error::AlreadyAuthenticated)
        } else {
            Ok(())
        },
        FrameTag::PublishBundle | FrameTag::FetchBundle => Ok(()),
        _ => if authenticated {
            Ok(())
        } else {
            Err(Error::AuthRequired)
        },
    }
}

/// What the clocks and the random source give for one frame.
pub struct Moment {
    /// The wall clock.
    pub wall: u64,
    /// The monotonic clock.
    pub monotonic: u64,
    /// A fresh id for an entry that the frame may write.
    pub entry_id: Seq<u8>,
}

/// What a decoded request leads to. `who` is the connection's identity; requests that need one
/// and have none are refused before this.
pub open spec fn request_step(
    st: InnerView,
    who: Option<Seq<u8>>,
    connection: Seq<u8>,
    request: Request,
    facts: KeyFacts,
    moment: Moment,
) -> Step {
    match request {
        Request::AuthResponse(req) => auth_step(st, req, facts),
        Request::PublishBundle(req) => publish_step(st, req.bundle@, facts),
        Request::FetchBundle(req) => fetch_step(st, req, who, connection, moment.monotonic),
        Request::PresenceAnnounce(req) => announce_step(st, who->0, req),
        Request::PresenceSubscribe(req) => subscribe_step(st, who->0, req),
        Request::RendezvousOffer(req) => offer_step(st, who->0, req, moment.monotonic),
        Request::RendezvousAnswer(req) => answer_step(st, who->0, req, moment.monotonic),
        Request::MailboxWrite(req) => write_step(
            st,
            who->0,
            req,
            moment.entry_id,
            moment.wall,
            moment.monotonic,
        ),
        Request::MailboxFetch(req) => read_step(st, who->0, req, moment.wall, moment.monotonic),
        Request::MailboxDelete(req) => delete_step(st, who->0, req, moment.monotonic),
        Request::FetchOwnPrekeyCount(_) => Step {
            inner: st,
            outcome: Ok(
                seq![
                    ActionView::Reply(
                        FrameView::OwnPrekeyCount(prekeys_left(st, who->0) as u64),
                    ),
                ],
            ),
        },
    }
}

/// What a tagged frame leads to. `request` is its body, if that could be decoded.
pub open spec fn dispatch_step(
    st: InnerView,
    who: Option<Seq<u8>>,
    connection: Seq<u8>,
    tag: FrameTag,
    request: Option<Request>,
    facts: KeyFacts,
    moment: Moment,
) -> Step {
    match tag_fault(tag, who is Some) {
        Some(error) => refused(st, error),
        None => match request {
            Some(r) if r.tag() == tag => request_step(st, who, connection, r, facts, moment),
            _ => refused(
                st,
                Error::MalformedFrame("body did not decode as expected CBOR shape"),
            ),
        },
    }
}

/// The connection's identity after a tagged frame: an `AuthResponse` that succeeds sets it.
pub open spec fn identity_after(
    who: Option<Seq<u8>>,
    tag: FrameTag,
    facts: KeyFacts,
    step: Step,
) -> Option<Seq<u8>> {
    if tag is AuthResponse && step.outcome is Ok {
        Some(facts.fingerprint@)
    } else {
        who
    }
}

fn handle_request(
    inner: &mut Inner,
    session: &Session,
    request: Request,
    facts: &KeyFacts,
    entry_id: [u8; 16],
    wall: u64,
    monotonic: u64,
) -> (outcome: Result<Vec<Action>>)
    requires
        wall <= MAX_WALL_CLOCK,
        needs_identity(request.tag()) ==> session.authenticated is Some,
    ensures
        ({
            let step = request_step(
                old(inner)@,
                session.identity(),
                session.connection_id@,
                request,
                *facts,
                (Moment { wall, monotonic, entry_id: entry_id@ }),
            );
            &&& final(inner)@ == step.inner
            &&& outcome_is(outcome, step.outcome)
        }),
{
    match request {
        Request::AuthResponse(req) => {
            return authenticate(inner, &req, facts);
        },
        Request::PublishBundle(req) => {
            return publish_bundle(inner, req.bundle, facts);
        },
        Request::FetchBundle(req) => {
            return fetch_bundle(
                inner,
                &req,
                session.authenticated,
                session.connection_id,
                monotonic,
            );
        },
        other => {
            let who: Fingerprint = match session.authenticated {
                Some(fp) => fp,
                None => {
                    return Err(Error::AuthRequired);
                },
            };
            match other {
                Request::PresenceAnnounce(req) => announce_presence(inner, &who, &req),
                Request::PresenceSubscribe(req) => subscribe_presence(inner, &who, &req),
                Request::RendezvousOffer(req) => relay_offer(inner, &who, req, monotonic),
                Request::RendezvousAnswer(req) => relay_answer(inner, &who, req, monotonic),
                Request::MailboxWrite(req) => write_mailbox(
                    inner,
                    &who,
                    req,
                    entry_id,
                    wall,
                    monotonic,
                ),
                Request::MailboxFetch(req) => read_mailbox(inner, &who, &req, wall, monotonic),
                Request::MailboxDelete(req) => delete_from_mailbox(inner, &who, &req, monotonic),
                Request::FetchOwnPrekeyCount(_) => Ok(own_prekey_count(inner, &who)),
                _ => Err(Error::AuthRequired),
            }
        },
    }
}

/// Acts on one tagged frame. `request` is the decoded body, or nothing where it does not
/// decode; `facts` is what the key library says of it; `entry_id` is fresh.
pub fn dispatch(
    inner: &mut Inner,
    session: &mut Session,
    tag: FrameTag,
    request: Option<Request>,
    facts: &KeyFacts,
    entry_id: [u8; 16],
    wall: u64,
    monotonic: u64,
) -> (outcome: Result<Vec<Action>>)
    requires
        wall <= MAX_WALL_CLOCK,
    ensures
        ({
            let step = dispatch_step(
                old(inner)@,
                old(session).identity(),
                old(session).connection_id@,
                tag,
                request,
                *facts,
                (Moment { wall, monotonic, entry_id: entry_id@ }),
            );
            &&& final(inner)@ == step.inner
            &&& outcome_is(outcome, step.outcome)
            &&& final(session).identity() == identity_after(
                old(session).identity(),
                tag,
                *facts,
                step,
            )
        }),
        final(session).connection_id == old(session).connection_id,
        final(session).nonce == old(session).nonce,
{
    match check_tag(tag, session.authenticated.is_some()) {
        Ok(_) => {},
        Err(e) => {
            return Err(e);
        },
    }
    match request {
        Some(r) => {
            if request_tag(&r) != tag {
                return Err(
                    Error::MalformedFrame("body did not decode as expected CBOR shape"),
                );
            }
            let outcome: Result<Vec<Action>> = handle_request(
                inner,
                session,
                r,
                facts,
                entry_id,
                wall,
                monotonic,
            );
            if tag == FrameTag::AuthResponse && outcome.is_ok() {
                session.authenticated = Some(facts.fingerprint);
            }
            outcome
        },
        None => Err(Error::MalformedFrame("body did not decode as expected CBOR shape")),
    }
}

fn request_tag(request: &Request) -> (tag: FrameTag)
    ensures
        tag == request.tag(),
{
    match request {
        Request::AuthResponse(_) => FrameTag::AuthResponse,
        Request::PublishBundle(_) => FrameTag::PublishBundle,
        Request::FetchBundle(_) => FrameTag::FetchBundle,
        Request::PresenceAnnounce(_) => FrameTag::PresenceAnnounce,
        Request::PresenceSubscribe(_) => FrameTag::PresenceSubscribe,
        Request::RendezvousOffer(_) => FrameTag::RendezvousOffer,
        Request::RendezvousAnswer(_) => FrameTag::RendezvousAnswer,
        Request::MailboxWrite(_) => FrameTag::MailboxWrite,
        Request::MailboxFetch(_) => FrameTag::MailboxFetch,
        Request::MailboxDelete(_) => FrameTag::MailboxDelete,
        Request::FetchOwnPrekeyCount(_) => FrameTag::FetchOwnPrekeyCount,
    }
}

/// The reply that tells a client why its frame was refused.
pub open spec fn error_reply(error: Error) -> Seq<ActionView> {
    seq![ActionView::Reply(FrameView::Error(error.text()))]
}

fn error_actions(error: &Error) -> (actions: Vec<Action>)
    ensures
        actions_view(actions@) == error_reply(*error),
{
    one_action(Action::Reply(Frame::Error(ErrorFrame { message: error.message() })))
}

/// What a raw frame leads to; every refusal is answered with an error frame.
pub open spec fn frame_actions(
    st: InnerView,
    who: Option<Seq<u8>>,
    connection: Seq<u8>,
    frame: Seq<u8>,
    request: Option<Request>,
    facts: KeyFacts,
    moment: Moment,
) -> (InnerView, Option<Seq<u8>>, Seq<ActionView>) {
    match frame_parts(frame) {
        Err(error) => (st, who, error_reply(error)),
        Ok(parts) => {
            let step = dispatch_step(st, who, connection, parts.0, request, facts, moment);
            (
                step.inner,
                identity_after(who, parts.0, facts, step),
                match step.outcome {
                    Ok(actions) => actions,
                    Err(error) => error_reply(error),
                },
            )
        },
    }
}

/// Acts on one raw frame. `request` is its decoded body, or nothing where it does not decode;
/// `facts` is what the key library says of it.
pub fn handle_frame(
    inner: &mut Inner,
    session: &mut Session,
    frame: &[u8],
    request: Option<Request>,
    facts: &KeyFacts,
    wall: u64,
    monotonic: u64,
) -> (actions: Vec<Action>)
    requires
        wall <= MAX_WALL_CLOCK,
    ensures
        exists|entry_id: Seq<u8>|
            entry_id.len() == 16 && (
            final(inner)@,
            final(session).identity(),
            actions_view(actions@),
        ) == #[trigger] frame_actions(
                old(inner)@,
                old(session).identity(),
                old(session).connection_id@,
                frame@,
                request,
                *facts,
                (Moment { wall, monotonic, entry_id }),
            ),
        final(session).connection_id == old(session).connection_id,
        final(session).nonce == old(session).nonce,
{
    let entry_id: [u8; 16] = random_16();
    let ghost stated = frame_actions(
        inner@,
        session.identity(),
        session.connection_id@,
        frame@,
        request,
        *facts,
        Moment { wall, monotonic, entry_id: entry_id@ },
    );
    match split_tag(frame) {
        Err(e) => {
            let actions: Vec<Action> = error_actions(&e);
            assert((inner@, session.identity(), actions_view(actions@)) == stated);
            actions
        },
        Ok((tag, _)) => {
            let outcome: Result<Vec<Action>> = dispatch(
                inner,
                session,
                tag,
                request,
                facts,
                entry_id,
                wall,
                monotonic,
            );
            match outcome {
                Ok(actions) => {
                    assert((inner@, session.identity(), actions_view(actions@)) == stated);
                    actions
                },
                Err(e) => {
                    let actions: Vec<Action> = error_actions(&e);
                    assert((inner@, session.identity(), actions_view(actions@)) == stated);
                    actions
                },
            }
        },
    }
}

impl Session {
    /// A connection that has just opened, and the challenge that it is sent.
    pub fn open(nonce: [u8; 32], connection_id: ConnectionId) -> (opened: (Session, Frame))
        ensures
            opened.0.nonce == nonce,
            opened.0.connection_id == connection_id,
            opened.0.authenticated is None,
            opened.1@ == (FrameView::AuthChallenge { nonce: nonce@ }),
    {
        let challenge: AuthChallenge = AuthChallenge { nonce: copy_bytes(nonce.as_slice()) };
        (
            Session { nonce, connection_id, authenticated: None },
            Frame::AuthChallenge(challenge),
        )
    }
}

/// The state and the pushes once the connection of `who` is closed: an identity goes offline,
/// a connection that never authenticated leaves no trace.
pub open spec fn closed_step(st: InnerView, who: Option<Seq<u8>>, wall: u64) -> (
    InnerView,
    Seq<ActionView>,
) {
    match who {
        None => (st, Seq::empty()),
        Some(fp) => {
            let offline = PresenceState::Offline { last_seen: wall / NANOS_PER_SEC };
            let gone = InnerView { connections: st.connections.remove(fp), ..st };
            (with_presence(gone, fp, offline), presence_pushes(gone, fp, offline))
        },
    }
}

/// Takes leave of a connection.
pub fn handle_close(inner: &mut Inner, session: &Session, wall: u64) -> (pushes: Vec<Action>)
    ensures
        (final(inner)@, actions_view(pushes@)) == closed_step(
            old(inner)@,
            session.identity(),
            wall,
        ),
{
    match session.authenticated {
        None => {
            let none: Vec<Action> = Vec::new();
            assert(actions_view(none@) =~= Seq::<ActionView>::empty());
            none
        },
        Some(fp) => {
            let _ = inner.connections.remove(fp.as_slice());
            assert(inner@ =~= (InnerView {
                connections: old(inner)@.connections.remove(fp@),
                ..old(inner)@
            }));
            set_presence(inner, &fp, PresenceState::Offline { last_seen: now_unix(wall) })
        },
    }
}

} // verus!
