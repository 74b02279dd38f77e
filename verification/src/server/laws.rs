//! What holds of the server as a whole, whatever clients send.

use vstd::prelude::*;
use vstd::utf8::encode_utf8;
use crate::map::{in_order, lemma_in_order_of_finite, lookup};
use super::abuse::{allowed, mailbox_fetch_limit};
use super::action::{ActionView, EntryWireView, FrameView, KeyFacts, Request};
use super::error::Error;
use super::protocol::{
    AuthResponse, FrameTag, MailboxDelete, MailboxFetch, MailboxWrite, PresenceSubscribe,
};
use super::pruning::{lemma_unexpired_twice, swept};
use super::state::{
    handle_bytes, members, next_prekey, seeded, unexpired, EntryView, InnerView, LoadedBundle, PresenceState,
    MAX_ENTRIES_PER_WRITER_PER_MAILBOX, MAX_ENVELOPE_LEN, MAX_MAILBOX_ENTRIES, NANOS_PER_SEC,
};
use super::ws::{
    auth_key, closed_step, delete_step, dispatch_step, entry_wire, hand_out, identity_after, live_entries,
    needs_identity, presence_frame, presence_pushes, pruned, reachable_subscribers, read_step,
    readable, related, subscribe_step, write_step, written_by, Moment, Step,
};

verus! {

// Who may do what.

/// A frame that takes an identity is refused on a connection that has none, and changes
/// nothing.
pub proof fn law_unauthenticated_frames_are_refused(
    st: InnerView,
    connection: Seq<u8>,
    tag: FrameTag,
    request: Option<Request>,
    facts: KeyFacts,
    moment: Moment,
)
    requires
        needs_identity(tag),
    ensures
        ({
            let step = dispatch_step(st, None, connection, tag, request, facts, moment);
            &&& step.outcome == Err::<Seq<ActionView>, Error>(Error::AuthRequired)
            &&& step.inner == st
            &&& identity_after(None, tag, facts, step) is None
        }),
{
}

/// A connection's identity never changes once it has one, and it gets one only by a signature
/// of that identity over the connection's nonce.
pub proof fn law_identity_comes_from_a_signature(
    st: InnerView,
    who: Option<Seq<u8>>,
    connection: Seq<u8>,
    tag: FrameTag,
    request: Option<Request>,
    facts: KeyFacts,
    moment: Moment,
)
    ensures
        ({
            let step = dispatch_step(st, who, connection, tag, request, facts, moment);
            let after = identity_after(who, tag, facts, step);
            after != who ==> who is None && facts.signature_valid && after == Some(
                facts.fingerprint@,
            ) && (request matches Some(Request::AuthResponse(req)) && req.identity_fingerprint@
                == facts.fingerprint@ && auth_key(st, req) is Some)
        }),
{
}

/// A registered identity is verified with the key that it has published, whatever key is sent
/// along.
pub proof fn law_registered_identities_use_their_key(st: InnerView, req: AuthResponse)
    requires
        st.directory.dom().contains(req.identity_fingerprint@),
    ensures
        auth_key(st, req) == Some(st.directory[req.identity_fingerprint@].bundle.identity_key),
{
}

/// Reading or deleting from the bootstrap mailbox of another registered identity is refused,
/// and leaves every mailbox as it was.
pub proof fn law_bootstrap_mailboxes_are_their_owners(
    st: InnerView,
    who: Seq<u8>,
    fetch: MailboxFetch,
    delete: MailboxDelete,
    wall: u64,
    monotonic: u64,
)
    ensures
        st.anothers_bootstrap_mailbox(fetch.mailbox_id@, who) ==> {
            let step = read_step(st, who, fetch, wall, monotonic);
            step.outcome is Err && step.inner.mailboxes == st.mailboxes
        },
        st.anothers_bootstrap_mailbox(delete.mailbox_id@, who) ==> {
            let step = delete_step(st, who, delete, monotonic);
            step.outcome is Err && step.inner.mailboxes == st.mailboxes
        },
{
}

/// Presence is shown only to those who have fetched the bundle of the one they ask about.
pub proof fn law_presence_takes_evidence(st: InnerView, who: Seq<u8>, req: PresenceSubscribe)
    requires
        !members(st.fetch_evidence, who).contains(req.identity_fingerprint@),
    ensures
        subscribe_step(st, who, req).outcome is Err,
        subscribe_step(st, who, req).inner == st,
{
}

/// A frame is relayed only by an authenticated connection, only between identities one of
/// which has fetched the other's bundle, and always under the sender's own fingerprint.
pub proof fn law_relays_are_attributed(
    st: InnerView,
    who: Option<Seq<u8>>,
    connection: Seq<u8>,
    tag: FrameTag,
    request: Option<Request>,
    facts: KeyFacts,
    moment: Moment,
    i: int,
)
    ensures
        ({
            let outcome = dispatch_step(
                st,
                who,
                connection,
                tag,
                request,
                facts,
                moment,
            ).outcome;
            outcome matches Ok(actions) ==> 0 <= i < actions.len() ==> (actions[i] matches
                ActionView::Relay { to, frame } ==> {
                &&& st.connections.contains(to)
                &&& who matches Some(from) && related(st, from, to) && match frame {
                    FrameView::RendezvousOffer { from: named, .. } => named == from,
                    FrameView::RendezvousAnswer { from: named, .. } => named == from,
                    _ => false,
                }
            })
        }),
{
}

// The directory.

/// A handle stays with the identity that claimed it.
pub proof fn law_handles_are_never_taken_over(
    st: InnerView,
    who: Option<Seq<u8>>,
    connection: Seq<u8>,
    tag: FrameTag,
    request: Option<Request>,
    facts: KeyFacts,
    moment: Moment,
    handle: Seq<u8>,
)
    requires
        st.username_index.dom().contains(handle),
    ensures
        ({
            let after = dispatch_step(st, who, connection, tag, request, facts, moment).inner;
            after.username_index.dom().contains(handle) && after.username_index[handle]
                == st.username_index[handle]
        }),
{
}

/// An identity's bundle changes only when that identity publishes a new one, validly signed;
/// anything else takes at most the next one-time prekey out of its pool.
pub proof fn law_bundles_change_by_their_owner(
    st: InnerView,
    who: Option<Seq<u8>>,
    connection: Seq<u8>,
    tag: FrameTag,
    request: Option<Request>,
    facts: KeyFacts,
    moment: Moment,
    owner: Seq<u8>,
)
    requires
        st.directory.dom().contains(owner),
        !(tag is PublishBundle && facts.signature_valid && facts.fingerprint@ == owner),
    ensures
        ({
            let after = dispatch_step(st, who, connection, tag, request, facts, moment).inner;
            let pool = st.directory[owner].one_time_prekeys;
            &&& after.directory.dom().contains(owner)
            &&& after.directory[owner].bundle == st.directory[owner].bundle
            &&& after.directory[owner].one_time_prekeys == pool || (next_prekey(pool) matches Some(
                id,
            ) && after.directory[owner].one_time_prekeys == pool.remove(id))
        }),
{
}

/// The prekey that a fetch hands out, if it hands one out.
pub open spec fn prekey_given(step: Step) -> Option<u32> {
    match step.outcome {
        Ok(actions) if actions.len() > 0 => match actions.last() {
            ActionView::Reply(FrameView::BundleResult(Some(bundle))) =>
                match bundle.one_time_prekey {
                    Some(prekey) => Some(prekey.id),
                    None => None,
                },
            _ => None,
        },
        _ => None,
    }
}

/// A one-time prekey is handed out once: it is gone from the pool with the fetch that got it,
/// and the next fetch of the same bundle gets another one or none.
pub proof fn law_one_time_prekeys_are_single_use(
    st: InnerView,
    target: Seq<u8>,
    first: Option<Seq<u8>>,
    second: Option<Seq<u8>>,
)
    requires
        st.directory.dom().contains(target),
        next_prekey(st.directory[target].one_time_prekeys) is Some,
    ensures
        ({
            let one = hand_out(st, target, first);
            let two = hand_out(one.inner, target, second);
            &&& prekey_given(one) == next_prekey(st.directory[target].one_time_prekeys)
            &&& !one.inner.directory[target].one_time_prekeys.dom().contains(prekey_given(one)->0)
            &&& prekey_given(two) != prekey_given(one)
        }),
{
    let pool = st.directory[target].one_time_prekeys;
    let one = hand_out(st, target, first);
    let rest = one.inner.directory[target].one_time_prekeys;
    assert(rest == pool.remove(next_prekey(pool)->0));
    let two = hand_out(one.inner, target, second);
    match next_prekey(rest) {
        Some(id) => {
            assert(super::state::is_least_id(rest, id));
            assert(rest.dom().contains(id));
        },
        None => {},
    }
}

/// A frame as it comes in.
pub struct Incoming {
    pub who: Option<Seq<u8>>,
    pub connection: Seq<u8>,
    pub tag: FrameTag,
    pub request: Option<Request>,
    pub facts: KeyFacts,
    pub moment: Moment,
}

/// What happens to a server.
pub enum Event {
    Frame(Incoming),
    Closed { who: Option<Seq<u8>>, wall: u64 },
    Swept { stale_after: u64, wall: u64, monotonic: u64 },
}

/// What a frame leads to.
pub open spec fn frame_step(st: InnerView, f: Incoming) -> Step {
    dispatch_step(st, f.who, f.connection, f.tag, f.request, f.facts, f.moment)
}

/// The state after an event.
pub open spec fn after_event(st: InnerView, event: Event) -> InnerView {
    match event {
        Event::Frame(f) => frame_step(st, f).inner,
        Event::Closed { who, wall } => closed_step(st, who, wall).0,
        Event::Swept { stale_after, wall, monotonic } => swept(st, stale_after, wall, monotonic),
    }
}

/// The state after a list of events.
pub open spec fn after_events(st: InnerView, events: Seq<Event>) -> InnerView
    decreases events.len(),
{
    if events.len() == 0 {
        st
    } else {
        after_event(after_events(st, events.drop_last()), events.last())
    }
}

/// Whether `owner` publishes anew, which brings prekeys of its own choice.
pub open spec fn republishes(event: Event, owner: Seq<u8>) -> bool {
    event matches Event::Frame(f) && f.tag is PublishBundle && f.facts.signature_valid
        && f.facts.fingerprint@ == owner
}

/// The prekey of `owner` that an event hands out, if it hands one out.
pub open spec fn prekey_of_event(st: InnerView, event: Event, owner: Seq<u8>) -> Option<u32> {
    match event {
        Event::Frame(f) => match f.request {
            Some(Request::FetchBundle(req)) => if lookup(
                st.username_index,
                handle_bytes(req.username@, req.discriminator),
            ) == Some(owner) {
                prekey_given(frame_step(st, f))
            } else {
                None
            },
            _ => None,
        },
        _ => None,
    }
}

proof fn lemma_pool_only_shrinks(st: InnerView, event: Event, owner: Seq<u8>, id: u32)
    requires
        st.directory.dom().contains(owner),
        !republishes(event, owner),
    ensures
        ({
            let after = after_event(st, event);
            &&& after.directory.dom().contains(owner)
            &&& !st.directory[owner].one_time_prekeys.dom().contains(id)
                ==> !after.directory[owner].one_time_prekeys.dom().contains(id)
            &&& prekey_of_event(st, event, owner) == Some(id)
                ==> st.directory[owner].one_time_prekeys.dom().contains(id)
                && !after.directory[owner].one_time_prekeys.dom().contains(id)
        }),
{
    match event {
        Event::Frame(f) => {
            law_bundles_change_by_their_owner(
                st,
                f.who,
                f.connection,
                f.tag,
                f.request,
                f.facts,
                f.moment,
                owner,
            );
            if prekey_of_event(st, event, owner) == Some(id) {
                let pool = st.directory[owner].one_time_prekeys;
                assert(next_prekey(pool) == Some(id));
                assert(super::state::is_least_id(pool, id));
            }
        },
        _ => {},
    }
}

proof fn lemma_prekey_stays_away(
    st: InnerView,
    events: Seq<Event>,
    owner: Seq<u8>,
    id: u32,
    i: int,
    j: int,
)
    requires
        0 <= i <= j <= events.len(),
        st.directory.dom().contains(owner),
        forall|k: int| 0 <= k < events.len() ==> !republishes(#[trigger] events[k], owner),
    ensures
        after_events(st, events.take(j)).directory.dom().contains(owner),
        after_events(st, events.take(i)).directory.dom().contains(owner),
        !after_events(st, events.take(i)).directory[owner].one_time_prekeys.dom().contains(id)
            ==> !after_events(st, events.take(j)).directory[owner].one_time_prekeys.dom().contains(
            id,
        ),
    decreases j,
{
    if j == 0 {
        assert(events.take(0) =~= Seq::<Event>::empty());
    } else {
        assert(events.take(j).drop_last() =~= events.take(j - 1));
        assert(events.take(j).last() == events[j - 1]);
        assert(!republishes(events[j - 1], owner));
        if i < j {
            lemma_prekey_stays_away(st, events, owner, id, i, j - 1);
        } else {
            lemma_prekey_stays_away(st, events, owner, id, i - 1, j - 1);
        }
        lemma_pool_only_shrinks(
            after_events(st, events.take(j - 1)),
            events[j - 1],
            owner,
            id,
        );
    }
}

/// Whatever happens, and however many fetches there are, no one-time prekey of an identity is
/// handed out twice, as long as the identity does not publish anew.
pub proof fn law_no_prekey_is_handed_out_twice(
    st: InnerView,
    events: Seq<Event>,
    owner: Seq<u8>,
    i: int,
    j: int,
)
    requires
        0 <= i < j < events.len(),
        st.directory.dom().contains(owner),
        forall|k: int| 0 <= k < events.len() ==> !republishes(#[trigger] events[k], owner),
    ensures
        ({
            let first = prekey_of_event(after_events(st, events.take(i)), events[i], owner);
            let second = prekey_of_event(after_events(st, events.take(j)), events[j], owner);
            first is Some && second is Some ==> first != second
        }),
{
    let before_first = after_events(st, events.take(i));
    let before_second = after_events(st, events.take(j));
    let first = prekey_of_event(before_first, events[i], owner);
    let second = prekey_of_event(before_second, events[j], owner);
    if first is Some && second is Some {
        let id = first->0;
        lemma_prekey_stays_away(st, events, owner, id, i, i + 1);
        lemma_prekey_stays_away(st, events, owner, id, i + 1, j);
        assert(!republishes(events[i], owner) && !republishes(events[j], owner));
        lemma_pool_only_shrinks(before_first, events[i], owner, id);
        assert(events.take(i + 1).drop_last() =~= events.take(i));
        assert(events.take(i + 1).last() == events[i]);
        lemma_pool_only_shrinks(before_second, events[j], owner, second->0);
    }
}

/// Every owner that an index names is in the directory.
pub open spec fn indices_in_step(st: InnerView) -> bool {
    &&& forall|id: Seq<u8>| #[trigger]
        st.bootstrap_mailbox_index.dom().contains(id) ==> st.directory.dom().contains(
            st.bootstrap_mailbox_index[id],
        )
    &&& forall|handle: Seq<u8>| #[trigger]
        st.username_index.dom().contains(handle) ==> st.directory.dom().contains(
            st.username_index[handle],
        )
}

/// A server starts with what it keeps to: its indices in step with the directory, its
/// subscriptions backed, its mailboxes within bounds.
pub proof fn law_a_server_starts_in_order(records: Seq<LoadedBundle>)
    ensures
        indices_in_step(seeded(records)),
        subscriptions_backed(seeded(records)),
        mailboxes_bounded(seeded(records)),
        seeded(records).connections == Set::<Seq<u8>>::empty(),
        seeded(records).mailboxes == Map::<Seq<u8>, Seq<EntryView>>::empty(),
        seeded(records).subscriptions == Map::<Seq<u8>, Set<Seq<u8>>>::empty(),
    decreases records.len(),
{
    if records.len() > 0 {
        law_a_server_starts_in_order(records.drop_last());
    }
}

/// A server that starts with the records of different identities has each of them in its
/// directory, with the bundle and the one-time prekeys that were read back.
pub proof fn law_loaded_records_are_in_the_directory(records: Seq<LoadedBundle>, i: int)
    requires
        0 <= i < records.len(),
        forall|j: int, k: int|
            0 <= j < k < records.len() ==> (#[trigger] records[j]).fingerprint@ != (
            #[trigger] records[k]).fingerprint@,
    ensures
        lookup(seeded(records).directory, records[i].fingerprint@) == Some(records[i].stored@),
    decreases records.len(),
{
    let shorter = records.drop_last();
    if i < shorter.len() {
        assert forall|j: int, k: int| 0 <= j < k < shorter.len() implies (
        #[trigger] shorter[j]).fingerprint@ != (#[trigger] shorter[k]).fingerprint@ by {
            assert(shorter[j] == records[j] && shorter[k] == records[k]);
        }
        law_loaded_records_are_in_the_directory(shorter, i);
        assert(shorter[i] == records[i]);
        assert(records[i].fingerprint@ != records[records.len() - 1].fingerprint@);
    }
    assert(records.last() == records[records.len() - 1]);
}

/// One more record puts its bundle into the directory under its fingerprint, and makes its handle
/// and its bootstrap mailbox lead there; the other records are as without it.
pub proof fn law_each_record_is_loaded(records: Seq<LoadedBundle>, last: LoadedBundle)
    ensures
        ({
            let before = seeded(records);
            let bundle = last.stored.bundle;
            let handle = encode_utf8(bundle.username@) + seq![
                (bundle.discriminator / 256) as u8,
                (bundle.discriminator % 256) as u8,
            ];
            seeded(records.push(last)) == (InnerView {
                directory: before.directory.insert(last.fingerprint@, last.stored@),
                username_index: before.username_index.insert(handle, last.fingerprint@),
                bootstrap_mailbox_index: before.bootstrap_mailbox_index.insert(
                    last.bootstrap_mailbox@,
                    last.fingerprint@,
                ),
                ..before
            })
        }),
        ({
            let none = seeded(Seq::empty());
            &&& none.directory == Map::<Seq<u8>, super::state::StoredView>::empty()
            &&& none.username_index == Map::<Seq<u8>, Seq<u8>>::empty()
            &&& none.bootstrap_mailbox_index == Map::<Seq<u8>, Seq<u8>>::empty()
            &&& none.presence == Map::<Seq<u8>, PresenceState>::empty()
            &&& none.subscriptions == Map::<Seq<u8>, Set<Seq<u8>>>::empty()
            &&& none.fetch_evidence == Map::<Seq<u8>, Set<Seq<u8>>>::empty()
            &&& none.mailboxes == Map::<Seq<u8>, Seq<EntryView>>::empty()
            &&& none.connections == Set::<Seq<u8>>::empty()
            &&& none.otp_exhaustion_attempts == Map::<Seq<u8>, u32>::empty()
            &&& none.fetch_buckets.dom() == Set::<Seq<u8>>::empty()
            &&& none.new_mailbox_buckets.dom() == Set::<Seq<u8>>::empty()
            &&& none.rendezvous_buckets.dom() == Set::<Seq<u8>>::empty()
            &&& none.mailbox_fetch_buckets.dom() == Set::<Seq<u8>>::empty()
            &&& none.mailbox_delete_buckets.dom() == Set::<Seq<u8>>::empty()
        }),
{
    assert(records.push(last).drop_last() =~= records);
}

/// No frame takes the indices out of step with the directory; neither does a closed connection
/// or a sweep.
pub proof fn law_indices_stay_in_step(
    st: InnerView,
    who: Option<Seq<u8>>,
    connection: Seq<u8>,
    tag: FrameTag,
    request: Option<Request>,
    facts: KeyFacts,
    moment: Moment,
    stale_after: u64,
)
    requires
        indices_in_step(st),
    ensures
        indices_in_step(dispatch_step(st, who, connection, tag, request, facts, moment).inner),
        indices_in_step(closed_step(st, who, moment.wall).0),
        indices_in_step(swept(st, stale_after, moment.wall, moment.monotonic)),
{
}

// Presence.

/// Whether everybody who watches an identity has fetched its bundle.
pub open spec fn subscriptions_backed(st: InnerView) -> bool {
    forall|target: Seq<u8>, watcher: Seq<u8>| #[trigger]
        members(st.subscriptions, target).contains(watcher) ==> members(
            st.fetch_evidence,
            watcher,
        ).contains(target)
}

/// Subscriptions stay backed, whatever is sent; a closed connection or a sweep does not change
/// that.
pub proof fn law_subscriptions_stay_backed(
    st: InnerView,
    who: Option<Seq<u8>>,
    connection: Seq<u8>,
    tag: FrameTag,
    request: Option<Request>,
    facts: KeyFacts,
    moment: Moment,
    stale_after: u64,
)
    requires
        subscriptions_backed(st),
    ensures
        subscriptions_backed(
            dispatch_step(st, who, connection, tag, request, facts, moment).inner,
        ),
        subscriptions_backed(closed_step(st, who, moment.wall).0),
        subscriptions_backed(swept(st, stale_after, moment.wall, moment.monotonic)),
{
    let after = swept(st, stale_after, moment.wall, moment.monotonic);
    assert forall|target: Seq<u8>, watcher: Seq<u8>| #[trigger]
        members(after.subscriptions, target).contains(watcher) implies members(
        after.fetch_evidence,
        watcher,
    ).contains(target) by {
        assert(members(st.subscriptions, target).contains(watcher));
    }
    let sent = dispatch_step(st, who, connection, tag, request, facts, moment).inner;
    assert forall|target: Seq<u8>, watcher: Seq<u8>| #[trigger]
        members(sent.subscriptions, target).contains(watcher) implies members(
        sent.fetch_evidence,
        watcher,
    ).contains(target) by {
        assert(members(st.subscriptions, target).contains(watcher) || (members(
            st.fetch_evidence,
            watcher,
        ).contains(target)));
    }
}

proof fn lemma_pushes_go_to_watchers(st: InnerView, who: Seq<u8>, state: PresenceState, i: int)
    requires
        subscriptions_backed(st),
        st.connections.finite(),
        0 <= i < presence_pushes(st, who, state).len(),
    ensures
        presence_pushes(st, who, state)[i] matches ActionView::Push { to, frame } && frame
            == presence_frame(who, state) && members(st.fetch_evidence, to).contains(who),
{
    let set = members(st.subscriptions, who).intersect(st.connections);
    vstd::set_lib::lemma_len_intersect(st.connections, members(st.subscriptions, who));
    assert(set =~= st.connections.intersect(members(st.subscriptions, who)));
    lemma_in_order_of_finite(set);
    let targets = reachable_subscribers(st, who);
    assert(targets == in_order(set));
    assert(in_order(set).contains(targets[i]));
    assert(set.contains(targets[i]));
    assert(members(st.subscriptions, who).contains(targets[i]));
}

/// Whose presence an action shows, and to whom.
pub open spec fn shows_presence(action: ActionView, sender: Option<Seq<u8>>) -> Option<(Seq<u8>, Seq<u8>)> {
    match action {
        ActionView::Push {
            to,
            frame: FrameView::PresenceUpdate { identity_fingerprint, .. },
        } => Some((identity_fingerprint, to)),
        ActionView::Reply(FrameView::PresenceUpdate { identity_fingerprint, .. }) => Some(
            (identity_fingerprint, sender->0),
        ),
        _ => None,
    }
}

/// Presence is shown to nobody who has not fetched the bundle of the one it is about.
pub proof fn law_presence_is_for_contacts_only(
    st: InnerView,
    who: Option<Seq<u8>>,
    connection: Seq<u8>,
    tag: FrameTag,
    request: Option<Request>,
    facts: KeyFacts,
    moment: Moment,
    i: int,
)
    requires
        subscriptions_backed(st),
        st.connections.finite(),
    ensures
        dispatch_step(st, who, connection, tag, request, facts, moment).outcome matches Ok(actions)
            ==> 0 <= i < actions.len() ==> (shows_presence(actions[i], who) matches Some(shown)
            ==> members(st.fetch_evidence, shown.1).contains(shown.0)),
        ({
            let pushes = closed_step(st, who, moment.wall).1;
            0 <= i < pushes.len() ==> (shows_presence(pushes[i], who) matches Some(shown)
                ==> members(st.fetch_evidence, shown.1).contains(shown.0))
        }),
{
    let step = dispatch_step(st, who, connection, tag, request, facts, moment);
    if step.outcome is Ok && 0 <= i < (step.outcome->Ok_0).len() {
        match request {
            Some(Request::AuthResponse(_)) => {
                let fp = facts.fingerprint@;
                let connected = InnerView { connections: st.connections.insert(fp), ..st };
                if i > 0 {
                    lemma_pushes_go_to_watchers(connected, fp, PresenceState::Online, i - 1);
                }
            },
            Some(Request::PresenceAnnounce(req)) => {
                let state = if req.state == 0 {
                    PresenceState::Online
                } else {
                    PresenceState::Away
                };
                lemma_pushes_go_to_watchers(st, who->0, state, i);
            },
            _ => {},
        }
    }
    if who is Some && 0 <= i < closed_step(st, who, moment.wall).1.len() {
        let fp = who->0;
        let gone = InnerView { connections: st.connections.remove(fp), ..st };
        lemma_pushes_go_to_watchers(
            gone,
            fp,
            PresenceState::Offline { last_seen: moment.wall / NANOS_PER_SEC },
            i,
        );
    }
}

// Mailboxes.

proof fn lemma_filter_shrinks(entries: Seq<EntryView>, keep: spec_fn(EntryView) -> bool, who: Seq<u8>)
    ensures
        entries.filter(keep).len() <= entries.len(),
        written_by(entries.filter(keep), who) <= written_by(entries, who),
        written_by(entries, who) <= entries.len(),
    decreases entries.len(),
{
    reveal(Seq::filter);
    if entries.len() > 0 {
        let last = entries.last();
        let shorter = entries.drop_last().filter(keep);
        lemma_filter_shrinks(entries.drop_last(), keep, who);
        if keep(last) {
            assert(shorter.push(last).drop_last() =~= shorter);
        }
    }
}

proof fn lemma_filter_keeps(entries: Seq<EntryView>, keep: spec_fn(EntryView) -> bool, entry: EntryView)
    ensures
        entries.filter(keep).contains(entry) <==> entries.contains(entry) && keep(entry),
    decreases entries.len(),
{
    reveal(Seq::filter);
    if entries.len() > 0 {
        let last = entries.last();
        let shorter = entries.drop_last();
        let rest = shorter.filter(keep);
        lemma_filter_keeps(shorter, keep, entry);
        if entries.contains(entry) {
            let i = choose|i: int| 0 <= i < entries.len() && entries[i] == entry;
            if i < shorter.len() {
                assert(shorter[i] == entry);
            }
        }
        if shorter.contains(entry) {
            let i = choose|i: int| 0 <= i < shorter.len() && shorter[i] == entry;
            assert(entries[i] == entry);
        }
        assert(entries[entries.len() - 1] == last);
        if keep(last) {
            let all = rest.push(last);
            assert(all[rest.len() as int] == last);
            if rest.contains(entry) {
                let i = choose|i: int| 0 <= i < rest.len() && rest[i] == entry;
                assert(all[i] == entry);
            }
            if all.contains(entry) {
                let i = choose|i: int| 0 <= i < all.len() && all[i] == entry;
                if i < rest.len() {
                    assert(rest[i] == entry);
                }
            }
        }
    }
}

proof fn lemma_filter_push(entries: Seq<EntryView>, keep: spec_fn(EntryView) -> bool, entry: EntryView)
    ensures
        entries.push(entry).filter(keep) == if keep(entry) {
            entries.filter(keep).push(entry)
        } else {
            entries.filter(keep)
        },
{
    reveal(Seq::filter);
    assert(entries.push(entry).drop_last() =~= entries);
}

/// What was written to a mailbox is what anybody else who may read it gets, last in line, until
/// it expires; what was there before is still there in front of it.
pub proof fn law_a_read_gives_back_a_write(
    st: InnerView,
    writer: Seq<u8>,
    write: MailboxWrite,
    moment: Moment,
    reader: Seq<u8>,
    fetch: MailboxFetch,
    wall: u64,
    monotonic: u64,
)
    requires
        write_step(
            st,
            writer,
            write,
            moment.entry_id,
            moment.wall,
            moment.monotonic,
        ).outcome is Ok,
        fetch.mailbox_id@ == write.mailbox_id@,
        reader != writer,
        moment.wall + write.ttl * NANOS_PER_SEC <= u64::MAX,
        wall < moment.wall + write.ttl * NANOS_PER_SEC,
        !st.anothers_bootstrap_mailbox(write.mailbox_id@, reader),
        allowed(lookup(st.mailbox_fetch_buckets, reader), mailbox_fetch_limit(), monotonic),
    ensures
        ({
            let written = write_step(
                st,
                writer,
                write,
                moment.entry_id,
                moment.wall,
                moment.monotonic,
            ).inner;
            read_step(written, reader, fetch, wall, monotonic).outcome == Ok::<
                Seq<ActionView>,
                Error,
            >(
                seq![
                    ActionView::Reply(
                        FrameView::MailboxEntries(
                            readable(
                                unexpired(
                                    live_entries(st, write.mailbox_id@, moment.wall),
                                    wall,
                                ),
                                reader,
                            ).push(
                                EntryWireView {
                                    entry_id: moment.entry_id,
                                    envelope: write.envelope@,
                                },
                            ),
                        ),
                    ),
                ],
            )
        }),
{
    let id = write.mailbox_id@;
    let live = live_entries(st, id, moment.wall);
    let entry = EntryView {
        entry_id: moment.entry_id,
        envelope: write.envelope@,
        expires_at: (moment.wall + write.ttl * NANOS_PER_SEC) as u64,
        written_by: writer,
    };
    let fresh = |e: EntryView| e.expires_at > wall;
    let others = |e: EntryView| e.written_by != reader;
    lemma_filter_push(live, fresh, entry);
    lemma_filter_push(live.filter(fresh), others, entry);
    assert(readable(unexpired(live.push(entry), wall), reader) =~= readable(
        unexpired(live, wall),
        reader,
    ).push(entry_wire(entry)));
}

/// Whether `wire` is one of the entries, written by somebody other than `who`.
pub open spec fn from_another(entries: Seq<EntryView>, who: Seq<u8>, wire: EntryWireView) -> bool {
    exists|e: EntryView| #[trigger]
        entries.contains(e) && e.written_by != who && entry_wire(e) == wire
}

/// Nobody is given back what they wrote themselves.
pub proof fn law_own_entries_are_not_read(entries: Seq<EntryView>, who: Seq<u8>)
    ensures
        readable(entries, who).len() + written_by(entries, who) == entries.len(),
        forall|i: int|
            0 <= i < readable(entries, who).len() ==> from_another(
                entries,
                who,
                #[trigger] readable(entries, who)[i],
            ),
    decreases entries.len(),
{
    let others = |e: EntryView| e.written_by != who;
    assert forall|i: int| 0 <= i < readable(entries, who).len() implies from_another(
        entries,
        who,
        #[trigger] readable(entries, who)[i],
    ) by {
        let kept = entries.filter(others);
        assert(kept.contains(kept[i]));
        lemma_filter_keeps(entries, others, kept[i]);
        assert(entry_wire(kept[i]) == readable(entries, who)[i]);
    }
    reveal(Seq::filter);
    if entries.len() > 0 {
        law_own_entries_are_not_read(entries.drop_last(), who);
    }
}

/// What has expired is not read: every entry that a reader gets is still to be had later.
pub proof fn law_reads_hold_no_expired_entry(st: InnerView, mailbox: Seq<u8>, wall: u64, entry: EntryView)
    ensures
        live_entries(st, mailbox, wall).contains(entry) <==> st.mailboxes.dom().contains(mailbox)
            && st.mailboxes[mailbox].contains(entry) && entry.expires_at > wall,
{
    if st.mailboxes.dom().contains(mailbox) {
        lemma_filter_keeps(
            st.mailboxes[mailbox],
            |e: EntryView| e.expires_at > wall,
            entry,
        );
    }
}

/// An entry that was deleted is not read again.
pub proof fn law_deleted_entries_are_gone(
    st: InnerView,
    who: Seq<u8>,
    req: MailboxDelete,
    monotonic: u64,
    entry: EntryView,
)
    requires
        delete_step(st, who, req, monotonic).outcome is Ok,
    ensures
        ({
            let after = delete_step(st, who, req, monotonic).inner.mailboxes;
            let id = req.mailbox_id@;
            &&& after.dom() == st.mailboxes.dom()
            &&& st.mailboxes.dom().contains(id) ==> (after[id].contains(entry)
                <==> st.mailboxes[id].contains(entry) && entry.entry_id != req.entry_id@)
        }),
{
    let id = req.mailbox_id@;
    if st.mailboxes.dom().contains(id) {
        let keep = |e: EntryView| e.entry_id != req.entry_id@;
        lemma_filter_keeps(st.mailboxes[id], keep, entry);
        assert(delete_step(st, who, req, monotonic).inner.mailboxes.dom() =~= st.mailboxes.dom());
    }
}

/// Reading makes no mailbox and takes no unexpired entry out of one: a second read at the same
/// moment finds the same entries.
pub proof fn law_reading_changes_no_mailbox(
    st: InnerView,
    who: Seq<u8>,
    req: MailboxFetch,
    wall: u64,
    monotonic: u64,
    mailbox: Seq<u8>,
)
    ensures
        ({
            let after = read_step(st, who, req, wall, monotonic).inner;
            &&& after.mailboxes.dom() == st.mailboxes.dom()
            &&& live_entries(after, mailbox, wall) == live_entries(st, mailbox, wall)
        }),
{
    lemma_pruning_is_unobservable(st, req.mailbox_id@, wall, mailbox);
    assert(pruned(st, req.mailbox_id@, wall).mailboxes.dom() =~= st.mailboxes.dom());
}

proof fn lemma_pruning_is_unobservable(st: InnerView, pruned_id: Seq<u8>, wall: u64, mailbox: Seq<u8>)
    ensures
        live_entries(pruned(st, pruned_id, wall), mailbox, wall) == live_entries(st, mailbox, wall),
{
    if mailbox == pruned_id && st.mailboxes.dom().contains(mailbox) {
        lemma_unexpired_twice(st.mailboxes[mailbox], wall);
    }
}

/// An entry stays until it expires or is deleted by its id: no other frame takes it away.
pub proof fn law_entries_survive(
    st: InnerView,
    who: Option<Seq<u8>>,
    connection: Seq<u8>,
    tag: FrameTag,
    request: Option<Request>,
    facts: KeyFacts,
    moment: Moment,
    mailbox: Seq<u8>,
    entry: EntryView,
)
    requires
        st.mailboxes.dom().contains(mailbox),
        st.mailboxes[mailbox].contains(entry),
        entry.expires_at > moment.wall,
        !(request matches Some(Request::MailboxDelete(req)) && req.mailbox_id@ == mailbox
            && req.entry_id@ == entry.entry_id),
    ensures
        ({
            let after = dispatch_step(st, who, connection, tag, request, facts, moment).inner;
            after.mailboxes.dom().contains(mailbox) && after.mailboxes[mailbox].contains(entry)
        }),
{
    let entries = st.mailboxes[mailbox];
    let live = unexpired(entries, moment.wall);
    lemma_filter_keeps(entries, |e: EntryView| e.expires_at > moment.wall, entry);
    match request {
        Some(Request::MailboxWrite(req)) => {
            let added = EntryView {
                entry_id: moment.entry_id,
                envelope: req.envelope@,
                expires_at: (moment.wall + req.ttl * NANOS_PER_SEC) as u64,
                written_by: who->0,
            };
            let i = choose|i: int| 0 <= i < live.len() && live[i] == entry;
            assert(live.push(added)[i] == entry);
        },
        Some(Request::MailboxDelete(req)) => {
            lemma_filter_keeps(entries, |e: EntryView| e.entry_id != req.entry_id@, entry);
        },
        _ => {},
    }
}

/// No mailbox holds more than its share, and no writer more than theirs.
pub open spec fn mailboxes_bounded(st: InnerView) -> bool {
    forall|id: Seq<u8>|
        #[trigger] st.mailboxes.dom().contains(id) ==> entries_bounded(st.mailboxes[id])
}

pub open spec fn entries_bounded(entries: Seq<EntryView>) -> bool {
    &&& entries.len() <= MAX_MAILBOX_ENTRIES
    &&& forall|who: Seq<u8>|
        #[trigger] written_by(entries, who) <= MAX_ENTRIES_PER_WRITER_PER_MAILBOX
}

proof fn lemma_filter_bounded(entries: Seq<EntryView>, keep: spec_fn(EntryView) -> bool)
    requires
        entries_bounded(entries),
    ensures
        entries_bounded(entries.filter(keep)),
{
    lemma_filter_shrinks(entries, keep, Seq::empty());
    assert forall|who: Seq<u8>| #[trigger]
        written_by(entries.filter(keep), who) <= MAX_ENTRIES_PER_WRITER_PER_MAILBOX by {
        lemma_filter_shrinks(entries, keep, who);
    }
}

/// Mailboxes stay within their bounds, whatever is sent.
pub proof fn law_mailboxes_stay_bounded(
    st: InnerView,
    who: Option<Seq<u8>>,
    connection: Seq<u8>,
    tag: FrameTag,
    request: Option<Request>,
    facts: KeyFacts,
    moment: Moment,
    stale_after: u64,
)
    requires
        mailboxes_bounded(st),
    ensures
        mailboxes_bounded(dispatch_step(st, who, connection, tag, request, facts, moment).inner),
        mailboxes_bounded(closed_step(st, who, moment.wall).0),
        mailboxes_bounded(swept(st, stale_after, moment.wall, moment.monotonic)),
{
    let fresh = |e: EntryView| e.expires_at > moment.wall;
    assert forall|id: Seq<u8>| #[trigger] st.mailboxes.dom().contains(id) implies entries_bounded(
        unexpired(st.mailboxes[id], moment.wall),
    ) by {
        lemma_filter_bounded(st.mailboxes[id], fresh);
    }
    let after = dispatch_step(st, who, connection, tag, request, facts, moment).inner;
    match request {
        Some(Request::MailboxWrite(req)) => {
            let id = req.mailbox_id@;
            let live = live_entries(st, id, moment.wall);
            assert(entries_bounded(live)) by {
                if !st.mailboxes.dom().contains(id) {
                    assert forall|w: Seq<u8>| #[trigger]
                        written_by(live, w) <= MAX_ENTRIES_PER_WRITER_PER_MAILBOX by {}
                }
            }
            let added = EntryView {
                entry_id: moment.entry_id,
                envelope: req.envelope@,
                expires_at: (moment.wall + req.ttl * NANOS_PER_SEC) as u64,
                written_by: who->0,
            };
            assert(live.push(added).drop_last() =~= live);
            if live.len() < MAX_MAILBOX_ENTRIES && written_by(live, who->0)
                < MAX_ENTRIES_PER_WRITER_PER_MAILBOX {
                assert(entries_bounded(live.push(added))) by {
                    assert forall|w: Seq<u8>| #[trigger]
                        written_by(live.push(added), w) <= MAX_ENTRIES_PER_WRITER_PER_MAILBOX by {
                        assert(written_by(live, w) <= MAX_ENTRIES_PER_WRITER_PER_MAILBOX);
                    }
                }
            }
        },
        Some(Request::MailboxDelete(req)) => {
            if st.mailboxes.dom().contains(req.mailbox_id@) {
                lemma_filter_bounded(
                    st.mailboxes[req.mailbox_id@],
                    |e: EntryView| e.entry_id != req.entry_id@,
                );
            }
        },
        _ => {},
    }
}

proof fn lemma_two_writers(entries: Seq<EntryView>, a: Seq<u8>, b: Seq<u8>)
    requires
        a != b,
        forall|i: int|
            0 <= i < entries.len() ==> (#[trigger] entries[i]).written_by == a
                || entries[i].written_by == b,
    ensures
        written_by(entries, a) + written_by(entries, b) == entries.len(),
    decreases entries.len(),
{
    if entries.len() > 0 {
        let shorter = entries.drop_last();
        assert forall|i: int| 0 <= i < shorter.len() implies (#[trigger] shorter[i]).written_by == a
            || shorter[i].written_by == b by {
            assert(shorter[i] == entries[i]);
        }
        lemma_two_writers(shorter, a, b);
        assert(entries.last() == entries[entries.len() - 1]);
    }
}

/// In a conversation of two, neither side can keep the other from writing: whatever the other
/// has written, a side that has not used up its own share gets its envelope in.
pub proof fn law_neither_side_can_starve_the_other(
    st: InnerView,
    who: Seq<u8>,
    other: Seq<u8>,
    req: MailboxWrite,
    moment: Moment,
)
    requires
        mailboxes_bounded(st),
        who != other,
        req.mailbox_id@.len() == 16,
        req.envelope@.len() <= MAX_ENVELOPE_LEN,
        st.mailboxes.dom().contains(req.mailbox_id@),
        forall|i: int|
            0 <= i < live_entries(st, req.mailbox_id@, moment.wall).len() ==> ({
                let e = #[trigger] live_entries(st, req.mailbox_id@, moment.wall)[i];
                e.written_by == who || e.written_by == other
            }),
        written_by(live_entries(st, req.mailbox_id@, moment.wall), who)
            < MAX_ENTRIES_PER_WRITER_PER_MAILBOX,
    ensures
        write_step(st, who, req, moment.entry_id, moment.wall, moment.monotonic).outcome is Ok,
{
    let live = live_entries(st, req.mailbox_id@, moment.wall);
    lemma_filter_bounded(
        st.mailboxes[req.mailbox_id@],
        |e: EntryView| e.expires_at > moment.wall,
    );
    assert(written_by(live, other) <= MAX_ENTRIES_PER_WRITER_PER_MAILBOX);
    lemma_two_writers(live, who, other);
}

// Refusals.

/// A frame that is refused changes nothing that anybody can ask for: only rate-limit buckets
/// are charged, and expired entries of the mailbox it named may be gone.
pub proof fn law_refusals_change_no_data(
    st: InnerView,
    who: Option<Seq<u8>>,
    connection: Seq<u8>,
    tag: FrameTag,
    request: Option<Request>,
    facts: KeyFacts,
    moment: Moment,
    mailbox: Seq<u8>,
)
    requires
        dispatch_step(st, who, connection, tag, request, facts, moment).outcome is Err,
    ensures
        ({
            let step = dispatch_step(st, who, connection, tag, request, facts, moment);
            let after = step.inner;
            &&& after.directory == st.directory
            &&& after.bootstrap_mailbox_index == st.bootstrap_mailbox_index
            &&& after.username_index == st.username_index
            &&& after.presence == st.presence
            &&& after.subscriptions == st.subscriptions
            &&& after.fetch_evidence == st.fetch_evidence
            &&& after.connections == st.connections
            &&& after.otp_exhaustion_attempts == st.otp_exhaustion_attempts
            &&& after.mailboxes.dom() == st.mailboxes.dom()
            &&& live_entries(after, mailbox, moment.wall) == live_entries(st, mailbox, moment.wall)
            &&& identity_after(who, tag, facts, step) == who
        }),
{
    match request {
        Some(Request::MailboxWrite(req)) => {
            let id = req.mailbox_id@;
            lemma_pruning_is_unobservable(st, id, moment.wall, mailbox);
            assert(pruned(st, id, moment.wall).mailboxes.dom() =~= st.mailboxes.dom());
        },
        _ => {},
    }
}

} // verus!
