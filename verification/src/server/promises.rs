//! What a caller gets of the server's functions, whatever they are called with.

use vstd::prelude::*;
use vstd::utf8::encode_utf8;
use crate::map::lookup;
use super::abuse::{
    allowed, charge, verify_registration_pow, ConnectionId, FetchRateLimiter, Limit,
    MailboxDeleteRateLimiter, MailboxFetchRateLimiter, NewMailboxRateLimiter, RendezvousRateLimiter,
};
use super::action::{
    actions_view, fingerprint_view, Action, ActionView, Frame, FrameView, KeyFacts, Request, Session,
};
use super::error::{Error, Result};
use super::outcomes::{
    alive, handle_character, law_a_closed_connection_is_offline, law_a_fetch_hands_out_what_is_stored,
    law_a_frame_is_answered, law_a_published_bundle_is_in_the_directory,
    law_publish_succeeds_exactly_when, told_once,
};
use super::protocol::{
    encode, split_tag, AuthResponse, FetchBundle, FetchedBundleWire, FrameTag, PrekeyBundleWire,
    PublishBundle,
};
use super::pruning::{sweep_counts, sweep_once, swept, SweepSummary};
use super::state::{
    entries_view, now_unix, prune_expired, ttl_from_secs, AppState, Fingerprint, Inner, InnerView,
    LoadedBundle, MailboxEntry, MailboxId, PresenceState, StoredBundle,
};
use super::ws::{
    authentication_key, check_bundle, dispatch, dispatch_step, fetch_bundle, handle_close,
    handle_frame, publish_bundle, relay_acknowledgement, Moment,
};

verus! {

/// A frame with a tag that there is: the state and the answers are those of the tagged request
/// under one fresh entry id, and the connection keeps its number and its nonce.
pub proof fn law_handling_a_frame(
    inner: &mut Inner,
    session: &mut Session,
    frame: &[u8],
    tag: FrameTag,
    body: Seq<u8>,
    request: Option<Request>,
    facts: KeyFacts,
    wall: u64,
    monotonic: u64,
    actions: Vec<Action>,
)
    requires
        call_ensures(
            handle_frame,
            (inner, session, frame, request, &facts, wall, monotonic),
            actions,
        ),
        frame@ == seq![tag.byte()] + body,
    ensures
        exists|moment: Moment|
            moment.wall == wall && moment.monotonic == monotonic && moment.entry_id.len() == 16 && {
                let step = #[trigger] dispatch_step(
                    old(inner)@,
                    old(session).identity(),
                    old(session).connection_id@,
                    tag,
                    request,
                    facts,
                    moment,
                );
                &&& final(inner)@ == step.inner
                &&& step.outcome matches Ok(done) ==> actions_view(actions@) == done
                &&& step.outcome matches Err(e) ==> actions_view(actions@) == seq![
                    ActionView::Reply(FrameView::Error(e.text())),
                ]
                &&& tag is AuthResponse && step.outcome is Ok ==> final(session).identity() == Some(
                    facts.fingerprint@,
                )
                &&& !(tag is AuthResponse && step.outcome is Ok) ==> final(session).identity()
                    == old(session).identity()
            },
        final(session).connection_id == old(session).connection_id,
        final(session).nonce == old(session).nonce,
{
    let entry_id = choose|entry_id: Seq<u8>|
        entry_id.len() == 16 && (
            final(inner)@,
            final(session).identity(),
            actions_view(actions@),
        ) == #[trigger] super::ws::frame_actions(
            old(inner)@,
            old(session).identity(),
            old(session).connection_id@,
            frame@,
            request,
            facts,
            (Moment { wall, monotonic, entry_id }),
        );
    let moment = Moment { wall, monotonic, entry_id };
    law_a_frame_is_answered(
        old(inner)@,
        old(session).identity(),
        old(session).connection_id@,
        tag,
        body,
        request,
        facts,
        moment,
    );
    let step = dispatch_step(
        old(inner)@,
        old(session).identity(),
        old(session).connection_id@,
        tag,
        request,
        facts,
        moment,
    );
    assert(final(inner)@ == step.inner);
}

/// A tagged request does what it does, and sets the connection's identity where it proves one.
pub proof fn law_dispatching_a_request(
    inner: &mut Inner,
    session: &mut Session,
    tag: FrameTag,
    request: Option<Request>,
    facts: KeyFacts,
    entry_id: [u8; 16],
    wall: u64,
    monotonic: u64,
    outcome: Result<Vec<Action>>,
)
    requires
        call_ensures(
            dispatch,
            (inner, session, tag, request, &facts, entry_id, wall, monotonic),
            outcome,
        ),
    ensures
        ({
            let step = dispatch_step(
                old(inner)@,
                old(session).identity(),
                old(session).connection_id@,
                tag,
                request,
                facts,
                Moment { wall, monotonic, entry_id: entry_id@ },
            );
            &&& final(inner)@ == step.inner
            &&& outcome matches Ok(actions) ==> step.outcome == Ok::<Seq<ActionView>, Error>(
                actions_view(actions@),
            )
            &&& outcome matches Err(e) ==> step.outcome == Err::<Seq<ActionView>, Error>(e)
            &&& tag is AuthResponse && outcome is Ok ==> final(session).identity() == Some(
                facts.fingerprint@,
            )
            &&& !(tag is AuthResponse && outcome is Ok) ==> final(session).identity() == old(session).identity()
        }),
{
}

/// A bundle that is published successfully is in the directory as it was sent, and its handle
/// leads to the publisher; one that is refused changes nothing.
pub proof fn law_publishing_a_bundle(
    inner: &mut Inner,
    wire: PrekeyBundleWire,
    facts: KeyFacts,
    outcome: Result<Vec<Action>>,
)
    requires
        call_ensures(publish_bundle, (inner, wire, &facts), outcome),
    ensures
        ({
            let fp = facts.fingerprint@;
            let after = final(inner)@;
            let handle = encode_utf8(wire.username@) + seq![
                (wire.discriminator / 256) as u8,
                (wire.discriminator % 256) as u8,
            ];
            &&& outcome is Err ==> after == old(inner)@
            &&& outcome is Ok ==> {
                &&& after.directory.dom().contains(fp)
                &&& after.directory[fp].bundle == wire@
                &&& forall|i: int|
                    #![trigger wire.one_time_prekeys@[i]]
                    0 <= i < wire.one_time_prekeys@.len()
                        ==> after.directory[fp].one_time_prekeys.dom().contains(
                        wire.one_time_prekeys@[i].id,
                    )
                &&& after.username_index.dom().contains(handle)
                &&& after.username_index[handle] == fp
                &&& actions_view(outcome->Ok_0@).last() == ActionView::Reply(FrameView::Ack(true))
            }
        }),
{
    let moment = Moment { wall: 0, monotonic: 0, entry_id: Seq::empty() };
    let req = PublishBundle { bundle: wire };
    let step = dispatch_step(
        old(inner)@,
        None,
        Seq::empty(),
        FrameTag::PublishBundle,
        Some(Request::PublishBundle(req)),
        facts,
        moment,
    );
    law_publish_succeeds_exactly_when(old(inner)@, None, Seq::empty(), req, facts, moment);
    if step.outcome is Ok {
        law_a_published_bundle_is_in_the_directory(
            old(inner)@,
            None,
            Seq::empty(),
            req,
            facts,
            moment,
        );
        let stored = final(inner)@.directory[facts.fingerprint@];
        assert(stored.bundle.one_time_prekeys =~= wire@.one_time_prekeys);
    }
}

/// A bundle passes the check of its shape exactly where it is within its limits.
pub proof fn law_checking_a_bundle(wire: PrekeyBundleWire, checked: Result<()>)
    requires
        call_ensures(check_bundle, (&wire,), checked),
    ensures
        ({
            let name = encode_utf8(wire.username@);
            checked is Ok <==> wire.one_time_prekeys@.len() <= 100 && 0 < name.len() <= 64 && (
            forall|i: int| 0 <= i < name.len() ==> handle_character(#[trigger] name[i])) && (forall|
                i: int,
            |
                0 <= i < wire.one_time_prekeys@.len() ==> (
                #[trigger] wire.one_time_prekeys@[i]).key@.len() == 32)
                && wire.identity_dh_public@.len() == 32 && wire.signed_prekey@.len() == 32
        }),
{
    let moment = Moment { wall: 0, monotonic: 0, entry_id: Seq::empty() };
    let name = encode_utf8(wire.username@);
    assert forall|i: int| 0 <= i < name.len() implies (crate::username::username_byte(
        #[trigger] name[i],
    ) <==> handle_character(name[i])) by {}
    let views = wire@.one_time_prekeys;
    assert forall|i: int| 0 <= i < views.len() implies views[i].key
        == #[trigger] wire.one_time_prekeys@[i].key@ by {}
    if exists|i: int| 0 <= i < views.len() && (#[trigger] views[i]).key.len() != 32 {
        let i = choose|i: int| 0 <= i < views.len() && (#[trigger] views[i]).key.len() != 32;
        assert(wire.one_time_prekeys@[i].key@.len() != 32);
    }
}

/// What a fetch of a bundle answers is what is stored of the one whom the handle leads to: in
/// each field of the bundle that goes out.
pub proof fn law_fetching_a_bundle(
    inner: &mut Inner,
    req: FetchBundle,
    fetcher: Option<Fingerprint>,
    connection: ConnectionId,
    monotonic: u64,
    outcome: Result<Vec<Action>>,
    bundle: FetchedBundleWire,
)
    requires
        call_ensures(fetch_bundle, (inner, &req, fetcher, connection, monotonic), outcome),
        outcome matches Ok(actions) && actions@.len() > 0 && (actions@.last() matches Action::Reply(
            Frame::BundleResult(result),
        ) && result.bundle == Some(bundle)),
    ensures
        ({
            let handle = encode_utf8(req.username@) + seq![
                (req.discriminator / 256) as u8,
                (req.discriminator % 256) as u8,
            ];
            let target = old(inner)@.username_index[handle];
            let stored = old(inner)@.directory[target];
            &&& old(inner)@.username_index.dom().contains(handle)
            &&& old(inner)@.directory.dom().contains(target)
            &&& bundle.username@ == stored.bundle.username
            &&& bundle.discriminator == stored.bundle.discriminator
            &&& bundle.identity_key@ == stored.bundle.identity_key
            &&& bundle.identity_dh_public@ == stored.bundle.identity_dh_public
            &&& bundle.identity_dh_signature@ == stored.bundle.identity_dh_signature
            &&& bundle.signed_prekey_id == stored.bundle.signed_prekey_id
            &&& bundle.signed_prekey@ == stored.bundle.signed_prekey
            &&& bundle.signed_prekey_sig@ == stored.bundle.signed_prekey_sig
            &&& bundle.signed_prekey_expires_at == stored.bundle.signed_prekey_expires_at
            &&& bundle.one_time_prekey matches Some(p) ==> {
                &&& stored.one_time_prekeys.dom().contains(p.id)
                &&& stored.one_time_prekeys[p.id] == p.key@
                &&& !final(inner)@.directory[target].one_time_prekeys.dom().contains(p.id)
            }
        }),
{
    let moment = Moment { wall: 0, monotonic, entry_id: Seq::empty() };
    let facts: KeyFacts = arbitrary();
    law_a_fetch_hands_out_what_is_stored(
        old(inner)@,
        fingerprint_view(fetcher),
        connection@,
        req,
        facts,
        moment,
    );
    let actions = outcome->Ok_0;
    let views = actions_view(actions@);
    assert(views.last() == actions@.last()@);
    assert(views.last() == ActionView::Reply(FrameView::BundleResult(Some(bundle@))));
}

/// The key that an authentication is verified with: the published one, or without one the key
/// that is sent along.
pub proof fn law_asking_for_the_key(inner: Inner, req: AuthResponse, key: Option<Vec<u8>>)
    requires
        call_ensures(authentication_key, (&inner, &req), key),
    ensures
        ({
            let fp = req.identity_fingerprint@;
            if inner@.directory.dom().contains(fp) {
                key matches Some(k) && k@ == inner@.directory[fp].bundle.identity_key
            } else {
                match req.identity_key {
                    Some(sent) => key matches Some(k) && k@ == sent@,
                    None => key is None,
                }
            }
        }),
{
}

/// Closing a connection takes its identity off the connected ones and tells its subscribers.
pub proof fn law_closing_a_connection(inner: &mut Inner, session: Session, wall: u64, pushes: Vec<Action>)
    requires
        call_ensures(handle_close, (inner, &session, wall), pushes),
        old(inner)@.connections.finite(),
    ensures
        match session.authenticated {
            None => final(inner)@ == old(inner)@ && pushes@.len() == 0,
            Some(fp) => {
                let since = wall / 1_000_000_000;
                &&& final(inner)@ == (InnerView {
                    connections: old(inner)@.connections.remove(fp@),
                    presence: old(inner)@.presence.insert(
                        fp@,
                        PresenceState::Offline { last_seen: since },
                    ),
                    ..old(inner)@
                })
                &&& told_once(
                    actions_view(pushes@),
                    old(inner)@,
                    old(inner)@.connections.remove(fp@),
                    fp@,
                    2,
                    Some(since),
                )
            },
        },
{
    law_a_closed_connection_is_offline(old(inner)@, session.identity(), wall);
}

/// A connection opens without an identity, and its challenge is the nonce that it keeps. A relay
/// is acknowledged with whether it was delivered.
pub proof fn law_opening_a_connection(
    nonce: [u8; 32],
    connection: ConnectionId,
    opened: (Session, Frame),
    delivered: bool,
    answer: Frame,
)
    requires
        call_ensures(Session::open, (nonce, connection), opened),
        call_ensures(relay_acknowledgement, (delivered,), answer),
    ensures
        opened.0.nonce@ == nonce@,
        opened.0.connection_id@ == connection@,
        opened.0.authenticated is None,
        opened.1 matches Frame::AuthChallenge(challenge) && challenge.nonce@ == nonce@,
        answer matches Frame::Ack(ack) && ack.ok == delivered,
{
}

/// A sweep leaves and reports what is stated of it, and does not touch the count of connections.
pub proof fn law_sweeping(
    state: &mut AppState,
    stale_after: u64,
    wall: u64,
    monotonic: u64,
    summary: SweepSummary,
)
    requires
        call_ensures(sweep_once, (state, stale_after, wall, monotonic), summary),
    ensures
        final(state).inner@ == swept(old(state).inner@, stale_after, wall, monotonic),
        summary == sweep_counts(old(state).inner@, stale_after, wall, monotonic),
        final(state).persistent == old(state).persistent,
        final(state).active_connections == old(state).active_connections,
        final(state).connection_cap == old(state).connection_cap,
{
}

/// A connection is let in exactly while there are fewer than the cap, and counted; one that goes
/// is counted out. A server takes ten thousand connections unless it is told otherwise.
pub proof fn law_connections_are_counted(
    state: &mut AppState,
    connected: bool,
    leaving: &mut AppState,
    fresh: AppState,
    cap: usize,
    capped: AppState,
)
    requires
        call_ensures(AppState::try_connect, (state,), connected),
        call_ensures(AppState::disconnect, (leaving,), ()),
        call_ensures(AppState::new, (), fresh),
        call_ensures(AppState::new_with_connection_cap, (cap,), capped),
    ensures
        connected <==> old(state).active_connections < old(state).connection_cap,
        connected ==> final(state).active_connections == old(state).active_connections + 1,
        !connected ==> final(state).active_connections == old(state).active_connections,
        final(state).connection_cap == old(state).connection_cap,
        final(state).inner == old(state).inner,
        final(leaving).active_connections == old(leaving).active_connections - 1,
        final(leaving).connection_cap == old(leaving).connection_cap,
        final(leaving).inner == old(leaving).inner,
        fresh.active_connections == 0 && fresh.connection_cap == 10_000 && !fresh.persistent,
        capped.active_connections == 0 && capped.connection_cap == cap && !capped.persistent,
{
}

/// A server with persistence has what its records make up, and saves what changes.
pub proof fn law_starting_with_records(records: Vec<LoadedBundle>, state: AppState)
    requires
        call_ensures(AppState::with_persistence, (records,), state),
    ensures
        state.inner@ == super::state::seeded(records@),
        state.persistent,
        state.active_connections == 0,
        state.connection_cap == 10_000,
{
}

/// Seconds and nanoseconds: a reading in seconds, a lifetime in nanoseconds, and entries that
/// are dropped once their time has come.
pub proof fn law_times_are_in_nanoseconds(
    now: u64,
    seconds: u64,
    ttl: u32,
    nanos: u64,
    entries: &mut Vec<MailboxEntry>,
)
    requires
        call_ensures(now_unix, (now,), seconds),
        call_ensures(ttl_from_secs, (ttl,), nanos),
        call_ensures(prune_expired, (entries, now), ()),
    ensures
        seconds * 1_000_000_000 <= now < (seconds + 1) * 1_000_000_000,
        nanos == ttl * 1_000_000_000,
        entries_view(final(entries)@) == alive(entries_view(old(entries)@), now),
{
    reveal(Seq::filter);
    super::outcomes::lemma_alive(entries_view(old(entries)@), now);
}

/// The tag of a byte is the tag that has it, and a frame splits into the tag and the body that
/// it was made of.
pub proof fn law_tags_and_frames(
    tag: FrameTag,
    byte: u8,
    b: u8,
    found: Option<FrameTag>,
    body: &[u8],
    frame: Vec<u8>,
    raw: &[u8],
    parts: Result<(FrameTag, &[u8])>,
)
    requires
        call_ensures(FrameTag::to_u8, (tag,), byte),
        call_ensures(FrameTag::from_u8, (b,), found),
        call_ensures(encode, (tag, body), frame),
        call_ensures(split_tag, (raw,), parts),
        raw@ == frame@,
    ensures
        byte == tag.byte(),
        found is Some <==> 1 <= b <= 18,
        found matches Some(t) ==> t.byte() == b,
        frame@ == seq![byte] + body@,
        parts matches Ok(p) && p.0 == tag && p.1@ == body@,
{
    super::protocol::law_split_undoes_encode(tag, body@);
    if found is None {
        assert(FrameTag::AuthChallenge.byte() != b);
        assert(FrameTag::AuthResponse.byte() != b);
        assert(FrameTag::PublishBundle.byte() != b);
        assert(FrameTag::FetchBundle.byte() != b);
        assert(FrameTag::BundleResult.byte() != b);
        assert(FrameTag::PresenceAnnounce.byte() != b);
        assert(FrameTag::PresenceUpdate.byte() != b);
        assert(FrameTag::PresenceSubscribe.byte() != b);
        assert(FrameTag::RendezvousOffer.byte() != b);
        assert(FrameTag::RendezvousAnswer.byte() != b);
        assert(FrameTag::MailboxWrite.byte() != b);
        assert(FrameTag::MailboxFetch.byte() != b);
        assert(FrameTag::MailboxEntries.byte() != b);
        assert(FrameTag::MailboxDelete.byte() != b);
        assert(FrameTag::Ack.byte() != b);
        assert(FrameTag::Error.byte() != b);
        assert(FrameTag::FetchOwnPrekeyCount.byte() != b);
        assert(FrameTag::OwnPrekeyCount.byte() != b);
    }
}

/// Each limiter lets through and charges by its own limit, under the key of whom it is about.
pub proof fn law_each_limiter_has_its_limit(
    fetches: &mut FetchRateLimiter,
    connection: ConnectionId,
    mailboxes: &mut NewMailboxRateLimiter,
    frames: &mut RendezvousRateLimiter,
    reads: &mut MailboxFetchRateLimiter,
    deletes: &mut MailboxDeleteRateLimiter,
    who: Fingerprint,
    now: u64,
    ok: (bool, bool, bool, bool, bool),
)
    requires
        call_ensures(FetchRateLimiter::allow, (fetches, connection, who, now), ok.0),
        call_ensures(NewMailboxRateLimiter::allow, (mailboxes, who, now), ok.1),
        call_ensures(RendezvousRateLimiter::allow, (frames, who, now), ok.2),
        call_ensures(MailboxFetchRateLimiter::allow, (reads, who, now), ok.3),
        call_ensures(MailboxDeleteRateLimiter::allow, (deletes, who, now), ok.4),
    ensures
        ({
            let limit = Limit { capacity: 5, period: 5_000_000_000 };
            let key = connection@ + who@;
            ok.0 == allowed(lookup(old(fetches)@, key), limit, now) && final(fetches)@ == charge(
                old(fetches)@,
                key,
                limit,
                now,
            )
        }),
        ({
            let limit = Limit { capacity: 20, period: 30_000_000_000 };
            ok.1 == allowed(lookup(old(mailboxes)@, who@), limit, now) && final(mailboxes)@
                == charge(old(mailboxes)@, who@, limit, now)
        }),
        ({
            let limit = Limit { capacity: 10, period: 5_000_000_000 };
            ok.2 == allowed(lookup(old(frames)@, who@), limit, now) && final(frames)@ == charge(
                old(frames)@,
                who@,
                limit,
                now,
            )
        }),
        ({
            let limit = Limit { capacity: 600, period: 20_000_000 };
            ok.3 == allowed(lookup(old(reads)@, who@), limit, now) && final(reads)@ == charge(
                old(reads)@,
                who@,
                limit,
                now,
            )
        }),
        ({
            let limit = Limit { capacity: 600, period: 20_000_000 };
            ok.4 == allowed(lookup(old(deletes)@, who@), limit, now) && final(deletes)@ == charge(
                old(deletes)@,
                who@,
                limit,
                now,
            )
        }),
{
}

/// A bundle is stored whole with its prekeys by their ids, the later of two with one id; taking
/// a prekey gives one that is there and leaves the others, until none is left.
pub proof fn law_prekeys_are_taken_one_by_one(
    bundle: PrekeyBundleWire,
    made: StoredBundle,
    stored: &mut StoredBundle,
    prekey: Option<super::protocol::OneTimePrekeyWire>,
    inner: Inner,
    mailbox: MailboxId,
    caller: Fingerprint,
    anothers: bool,
)
    requires
        call_ensures(StoredBundle::from_wire, (bundle,), made),
        call_ensures(StoredBundle::take_one_time_prekey, (stored,), prekey),
        call_ensures(
            Inner::bootstrap_mailbox_belongs_to_another,
            (&inner, &mailbox, &caller),
            anothers,
        ),
    ensures
        made@.bundle == bundle@,
        forall|i: int|
            #![trigger bundle.one_time_prekeys@[i]]
            0 <= i < bundle.one_time_prekeys@.len() && (forall|j: int|
                i < j < bundle.one_time_prekeys@.len() ==> (
                #[trigger] bundle.one_time_prekeys@[j]).id != bundle.one_time_prekeys@[i].id)
                ==> made@.one_time_prekeys.dom().contains(bundle.one_time_prekeys@[i].id)
                && made@.one_time_prekeys[bundle.one_time_prekeys@[i].id]
                == bundle.one_time_prekeys@[i].key@,
        final(stored)@.bundle == old(stored)@.bundle,
        prekey is None <==> old(stored)@.one_time_prekeys.dom() =~= Set::<u32>::empty(),
        prekey is None ==> final(stored)@.one_time_prekeys == old(stored)@.one_time_prekeys,
        prekey matches Some(p) ==> {
            &&& old(stored)@.one_time_prekeys.dom().contains(p.id)
            &&& old(stored)@.one_time_prekeys[p.id] == p.key@
            &&& final(stored)@.one_time_prekeys == old(stored)@.one_time_prekeys.remove(p.id)
        },
        anothers <==> inner@.bootstrap_mailbox_index.dom().contains(mailbox@)
            && inner@.bootstrap_mailbox_index[mailbox@] != caller@,
{
    let views = bundle@.one_time_prekeys;
    let prekeys = bundle.one_time_prekeys@;
    super::outcomes::lemma_pool(views);
    assert forall|i: int| 0 <= i < prekeys.len() implies views[i].id == (
    #[trigger] prekeys[i]).id && views[i].key == prekeys[i].key@ by {}
    assert forall|i: int|
        #![trigger prekeys[i]]
        0 <= i < prekeys.len() && (forall|j: int|
            i < j < prekeys.len() ==> (#[trigger] prekeys[j]).id != prekeys[i].id) implies
        made@.one_time_prekeys.dom().contains(prekeys[i].id)
        && made@.one_time_prekeys[prekeys[i].id] == prekeys[i].key@ by {
        assert forall|j: int| i < j < views.len() implies (#[trigger] views[j]).id
            != views[i].id by {
            assert(prekeys[j].id != prekeys[i].id);
        }
        assert(views[i].id == prekeys[i].id);
    }
    let pool = old(stored)@.one_time_prekeys;
    super::state::law_pool_hands_out_until_empty(pool);
    if let Some(id) = super::state::next_prekey(pool) {
        assert(super::state::is_least_id(pool, id));
    }
}

/// A proof of work is accepted exactly where the first twelve bits of its hash are zero.
pub proof fn law_verifying_a_proof_of_work(
    username: &str,
    discriminator: u16,
    key: &[u8],
    solution: u64,
    ok: bool,
)
    requires
        call_ensures(verify_registration_pow, (username, discriminator, key, solution), ok),
    ensures
        ({
            let hash = super::abuse::sha256(
                super::abuse::pow_preimage(username@, discriminator, key@, solution),
            );
            hash.len() == 32 ==> (ok <==> hash[0] == 0 && hash[1] < 16)
        }),
{
    super::abuse::law_a_proof_of_work_is_twelve_zero_bits(
        username@,
        discriminator,
        key@,
        solution,
    );
    super::abuse::lemma_be_64_by_places(solution);
}

/// The records that can be used again are loaded in order. A refusal is told in its own words.
pub proof fn law_loading_and_telling(
    records: Vec<super::persistence::RawRecord>,
    loaded: Vec<super::persistence::RecoveredRecord>,
    i: int,
    e: Error,
    message: String,
)
    requires
        call_ensures(super::persistence::load_all, (records,), loaded),
        call_ensures(Error::message, (&e,), message),
        0 <= i < loaded@.len(),
    ensures
        loaded@.len() == super::persistence::recovered(records@).len(),
        super::persistence::recovered(records@)[i].fingerprint == loaded@[i].fingerprint@,
        super::persistence::recovered(records@)[i].stored == loaded@[i].stored@,
        message@ == e.text(),
{
    let views = loaded@.map_values(|r: super::persistence::RecoveredRecord| r@);
    assert(views.len() == loaded@.len());
    assert(views[i] == loaded@[i]@);
}

} // verus!
