//! The periodic sweep that keeps the server's memory bounded by what is still in use.

use vstd::prelude::*;
use crate::map::{
    lemma_marked_part_where, lemma_total_of_pairing, lemma_total_remove, pairing, position, sum, total, ByteMap,
};
use super::abuse::fresh_buckets;
use super::state::{
    entries_view, prune_expired, sets_view, unexpired, AppState, EntryView, FingerprintSet,
    InnerView, MailboxEntry, PresenceState, StoredBundle,
};

verus! {

/// What a sweep took away.
#[derive(Debug, Clone, Copy, PartialEq, Eq, Structural)]
pub struct SweepSummary {
    pub mailbox_entries_pruned: usize,
    pub mailboxes_emptied: usize,
    pub rate_limit_buckets_pruned: usize,
    pub new_mailbox_rate_limit_buckets_pruned: usize,
    pub presence_entries_pruned: usize,
    pub fetch_evidence_entries_pruned: usize,
    pub stale_subscribers_pruned: usize,
}

impl Default for SweepSummary {
    fn default() -> (summary: SweepSummary)
        ensures
            summary == (SweepSummary {
                mailbox_entries_pruned: 0,
                mailboxes_emptied: 0,
                rate_limit_buckets_pruned: 0,
                new_mailbox_rate_limit_buckets_pruned: 0,
                presence_entries_pruned: 0,
                fetch_evidence_entries_pruned: 0,
                stale_subscribers_pruned: 0,
            }),
    {
        SweepSummary {
            mailbox_entries_pruned: 0,
            mailboxes_emptied: 0,
            rate_limit_buckets_pruned: 0,
            new_mailbox_rate_limit_buckets_pruned: 0,
            presence_entries_pruned: 0,
            fetch_evidence_entries_pruned: 0,
            stale_subscribers_pruned: 0,
        }
    }
}

/// Whether an identity outlasts its connection: it is registered, or connected right now.
pub open spec fn durable(st: InnerView, fingerprint: Seq<u8>) -> bool {
    st.directory.dom().contains(fingerprint) || st.connections.contains(fingerprint)
}

/// The mailboxes without their expired entries, and without those that hold nothing else.
pub open spec fn swept_mailboxes(mailboxes: Map<Seq<u8>, Seq<EntryView>>, now: u64) -> Map<
    Seq<u8>,
    Seq<EntryView>,
> {
    Map::new(
        |id: Seq<u8>| mailboxes.dom().contains(id) && unexpired(mailboxes[id], now).len() > 0,
        |id: Seq<u8>| unexpired(mailboxes[id], now),
    )
}

/// The presence of those who are not offline, or durable.
pub open spec fn swept_presence(st: InnerView) -> Map<Seq<u8>, PresenceState> {
    Map::new(
        |fp: Seq<u8>|
            st.presence.dom().contains(fp) && (!(st.presence[fp] is Offline) || durable(st, fp)),
        |fp: Seq<u8>| st.presence[fp],
    )
}

/// The fetch evidence of durable identities.
pub open spec fn swept_evidence(st: InnerView) -> Map<Seq<u8>, Set<Seq<u8>>> {
    Map::new(
        |fp: Seq<u8>| st.fetch_evidence.dom().contains(fp) && durable(st, fp),
        |fp: Seq<u8>| st.fetch_evidence[fp],
    )
}

/// The durable ones among `watchers`.
pub open spec fn durable_watchers(st: InnerView, watchers: Set<Seq<u8>>) -> Set<Seq<u8>> {
    watchers.filter(|w: Seq<u8>| durable(st, w))
}

/// The subscriptions of durable identities; a target that nobody watches any more is gone.
pub open spec fn swept_subscriptions(st: InnerView) -> Map<Seq<u8>, Set<Seq<u8>>> {
    Map::new(
        |t: Seq<u8>|
            st.subscriptions.dom().contains(t) && durable_watchers(st, st.subscriptions[t]).len()
                > 0,
        |t: Seq<u8>| durable_watchers(st, st.subscriptions[t]),
    )
}

/// The state after a sweep.
pub open spec fn swept(st: InnerView, stale_after: u64, wall: u64, monotonic: u64) -> InnerView {
    InnerView {
        mailboxes: swept_mailboxes(st.mailboxes, wall),
        presence: swept_presence(st),
        fetch_evidence: swept_evidence(st),
        subscriptions: swept_subscriptions(st),
        fetch_buckets: fresh_buckets(st.fetch_buckets, stale_after, monotonic),
        new_mailbox_buckets: fresh_buckets(st.new_mailbox_buckets, stale_after, monotonic),
        ..st
    }
}

/// For each mailbox, how many of its entries have expired.
pub open spec fn expired_counts(mailboxes: Map<Seq<u8>, Seq<EntryView>>, now: u64) -> Map<
    Seq<u8>,
    nat,
> {
    mailboxes.map_values(|e: Seq<EntryView>| (e.len() - unexpired(e, now).len()) as nat)
}

/// For each target, how many of its subscribers are not durable.
pub open spec fn stale_counts(st: InnerView) -> Map<Seq<u8>, nat> {
    st.subscriptions.map_values(
        |w: Set<Seq<u8>>| (w.len() - durable_watchers(st, w).len()) as nat,
    )
}

/// `n` where it fits, and the greatest `usize` where it does not.
pub open spec fn saturated(n: nat) -> usize {
    if n <= usize::MAX {
        n as usize
    } else {
        usize::MAX
    }
}

/// The counts that a sweep from `st` reports.
pub open spec fn sweep_counts(st: InnerView, stale_after: u64, wall: u64, monotonic: u64) -> SweepSummary {
    let after = swept(st, stale_after, wall, monotonic);
    SweepSummary {
        mailbox_entries_pruned: saturated(total(expired_counts(st.mailboxes, wall))),
        mailboxes_emptied: (st.mailboxes.len() - after.mailboxes.len()) as usize,
        rate_limit_buckets_pruned: (st.fetch_buckets.len() - after.fetch_buckets.len()) as usize,
        new_mailbox_rate_limit_buckets_pruned: (st.new_mailbox_buckets.len()
            - after.new_mailbox_buckets.len()) as usize,
        presence_entries_pruned: (st.presence.len() - after.presence.len()) as usize,
        fetch_evidence_entries_pruned: (st.fetch_evidence.len() - after.fetch_evidence.len()) as usize,
        stale_subscribers_pruned: saturated(total(stale_counts(st))),
    }
}

fn identity_is_durable(
    fingerprint: &[u8],
    directory: &ByteMap<StoredBundle>,
    connections: &FingerprintSet,
) -> (is_durable: bool)
    ensures
        is_durable == (directory@.dom().contains(fingerprint@) || connections@.dom().contains(
            fingerprint@,
        )),
{
    directory.contains_key(fingerprint) || connections.contains_key(fingerprint)
}

fn sweep_mailboxes(mailboxes: &mut ByteMap<Vec<MailboxEntry>>, now: u64) -> (counts: (usize, usize))
    ensures
        ({
            let before = old(mailboxes)@.map_values(|e: Vec<MailboxEntry>| entries_view(e@));
            let after = final(mailboxes)@.map_values(|e: Vec<MailboxEntry>| entries_view(e@));
            &&& after == swept_mailboxes(before, now)
            &&& counts.0 == saturated(total(expired_counts(before, now)))
            &&& counts.1 == before.len() - after.len()
        }),
{
    mailboxes.layout();
    let ghost before = mailboxes@.map_values(|e: Vec<MailboxEntry>| entries_view(e@));
    let ghost keys = mailboxes.key_seq();
    let ghost values = mailboxes.value_seq();
    let ghost counts: Seq<nat> = values.map_values(
        |e: Vec<MailboxEntry>|
            (entries_view(e@).len() - unexpired(entries_view(e@), now).len()) as nat,
    );
    let n: usize = mailboxes.len();
    let mut marks: Vec<bool> = Vec::new();
    let mut pruned: usize = 0;
    let mut i: usize = 0;
    assert(counts.take(0) =~= Seq::<nat>::empty());
    while i < n
        invariant
            i <= n,
            n == keys.len(),
            n == values.len(),
            mailboxes.key_seq() == keys,
            mailboxes.value_seq().len() == n,
            marks@.len() == i,
            counts == values.map_values(
                |e: Vec<MailboxEntry>|
                    (entries_view(e@).len() - unexpired(entries_view(e@), now).len()) as nat,
            ),
            pruned == saturated(sum(counts.take(i as int))),
            forall|j: int|
                0 <= j < i ==> entries_view((#[trigger] mailboxes.value_seq()[j])@) == unexpired(
                    entries_view(values[j]@),
                    now,
                ),
            forall|j: int|
                0 <= j < i ==> #[trigger] marks@[j] == (unexpired(entries_view(values[j]@), now).len()
                    > 0),
            forall|j: int| i <= j < n ==> #[trigger] mailboxes.value_seq()[j] == values[j],
        decreases n - i,
    {
        let mut entries: Vec<MailboxEntry> = mailboxes.replace_at(i, Vec::new());
        let held: usize = entries.len();
        prune_expired(&mut entries, now);
        proof {
            assert(counts.take(i + 1).drop_last() =~= counts.take(i as int));
            assert(counts[i as int] == held - entries@.len());
            assert(entries_view(entries@).len() == entries@.len());
        }
        pruned = pruned.saturating_add(held - entries.len());
        marks.push(entries.len() > 0);
        let _ = mailboxes.replace_at(i, entries);
        i = i + 1;
    }
    mailboxes.layout();
    let ghost pruned_values = mailboxes.value_seq();
    let emptied: usize = mailboxes.retain_marked(&marks);
    mailboxes.layout();
    proof {
        let after = mailboxes@.map_values(|e: Vec<MailboxEntry>| entries_view(e@));
        let target = swept_mailboxes(before, now);
        let keep = |k: Seq<u8>| unexpired(before[k], now).len() > 0;
        assert forall|j: int| 0 <= j < keys.len() implies marks@[j] == keep(#[trigger] keys[j]) by {
            assert(old(mailboxes)@.dom().contains(keys[j]));
            assert(before[keys[j]] == entries_view(values[j]@));
        }
        lemma_marked_part_where(keys, pruned_values, marks@, keep);
        assert forall|k: Seq<u8>| #[trigger] before.dom().contains(k) implies after.dom().contains(k)
            == target.dom().contains(k) && (target.dom().contains(k) ==> after[k] == target[k]) by {
            let p = position(keys, k);
            assert(old(mailboxes)@.dom().contains(k));
            assert(0 <= p < keys.len() && keys[p] == k);
            assert(before[keys[p]] == entries_view(values[p]@));
            assert(pairing(keys, pruned_values).dom().contains(keys[p]));
            assert(entries_view(pruned_values[p]@) == unexpired(entries_view(values[p]@), now));
        }
        assert(after =~= target);
        assert(counts.take(n as int) =~= counts);
        lemma_total_of_pairing(keys, counts);
        assert(pairing(keys, counts) =~= expired_counts(before, now));
        assert(before.dom() =~= old(mailboxes)@.dom());
        assert(after.dom() =~= mailboxes@.dom());
    }
    (pruned, emptied)
}

fn sweep_presence(
    presence: &mut ByteMap<PresenceState>,
    directory: &ByteMap<StoredBundle>,
    connections: &FingerprintSet,
) -> (removed: usize)
    ensures
        final(presence)@ == Map::new(
            |fp: Seq<u8>|
                old(presence)@.dom().contains(fp) && (!(old(presence)@[fp] is Offline)
                    || directory@.dom().contains(fp) || connections@.dom().contains(fp)),
            |fp: Seq<u8>| old(presence)@[fp],
        ),
        removed == old(presence)@.len() - final(presence)@.len(),
{
    presence.layout();
    let ghost keys = presence.key_seq();
    let ghost values = presence.value_seq();
    let ghost keep = |fp: Seq<u8>|
        !(old(presence)@[fp] is Offline) || directory@.dom().contains(fp)
            || connections@.dom().contains(fp);
    let n: usize = presence.len();
    let mut marks: Vec<bool> = Vec::new();
    let mut i: usize = 0;
    while i < n
        invariant
            i <= n,
            n == keys.len(),
            n == values.len(),
            presence.key_seq() == keys,
            presence.value_seq() == values,
            marks@.len() == i,
            keep == (|fp: Seq<u8>|
                !(old(presence)@[fp] is Offline) || directory@.dom().contains(fp)
                    || connections@.dom().contains(fp)),
            forall|j: int| 0 <= j < n ==> old(presence)@[#[trigger] keys[j]] == values[j],
            forall|j: int| 0 <= j < i ==> marks@[j] == keep(#[trigger] keys[j]),
        decreases n - i,
    {
        assert(old(presence)@[keys[i as int]] == values[i as int]);
        let offline: bool = matches!(*presence.value_at(i), PresenceState::Offline { .. });
        let mark: bool = !offline || identity_is_durable(
            presence.key_at(i).as_slice(),
            directory,
            connections,
        );
        marks.push(mark);
        i = i + 1;
    }
    proof {
        lemma_marked_part_where(keys, values, marks@, keep);
    }
    let removed: usize = presence.retain_marked(&marks);
    presence.layout();
    assert(presence@ =~= Map::new(
        |fp: Seq<u8>|
            old(presence)@.dom().contains(fp) && (!(old(presence)@[fp] is Offline)
                || directory@.dom().contains(fp) || connections@.dom().contains(fp)),
        |fp: Seq<u8>| old(presence)@[fp],
    ));
    removed
}

/// Drops the entries of identities that are not durable.
fn keep_durable<V>(
    table: &mut ByteMap<V>,
    directory: &ByteMap<StoredBundle>,
    connections: &FingerprintSet,
) -> (removed: usize)
    ensures
        final(table)@ == Map::new(
            |fp: Seq<u8>|
                old(table)@.dom().contains(fp) && (directory@.dom().contains(fp)
                    || connections@.dom().contains(fp)),
            |fp: Seq<u8>| old(table)@[fp],
        ),
        removed == old(table)@.len() - final(table)@.len(),
        old(table)@.dom().finite(),
{
    table.layout();
    let ghost keys = table.key_seq();
    let ghost values = table.value_seq();
    let ghost keep = |fp: Seq<u8>|
        directory@.dom().contains(fp) || connections@.dom().contains(fp);
    let n: usize = table.len();
    let mut marks: Vec<bool> = Vec::new();
    let mut i: usize = 0;
    while i < n
        invariant
            i <= n,
            n == keys.len(),
            table.key_seq() == keys,
            marks@.len() == i,
            keep == (|fp: Seq<u8>|
                directory@.dom().contains(fp) || connections@.dom().contains(fp)),
            forall|j: int| 0 <= j < i ==> marks@[j] == keep(#[trigger] keys[j]),
        decreases n - i,
    {
        let mark: bool = identity_is_durable(table.key_at(i).as_slice(), directory, connections);
        marks.push(mark);
        i = i + 1;
    }
    proof {
        lemma_marked_part_where(keys, values, marks@, keep);
    }
    let removed: usize = table.retain_marked(&marks);
    table.layout();
    assert(table@ =~= Map::new(
        |fp: Seq<u8>|
            old(table)@.dom().contains(fp) && (directory@.dom().contains(fp)
                || connections@.dom().contains(fp)),
        |fp: Seq<u8>| old(table)@[fp],
    ));
    removed
}

fn sweep_subscriptions(
    subscriptions: &mut ByteMap<FingerprintSet>,
    directory: &ByteMap<StoredBundle>,
    connections: &FingerprintSet,
    Ghost(st): Ghost<InnerView>,
) -> (stale: usize)
    requires
        st.directory.dom() == directory@.dom(),
        st.connections == connections@.dom(),
        st.subscriptions == sets_view(old(subscriptions)@),
    ensures
        sets_view(final(subscriptions)@) == swept_subscriptions(st),
        stale == saturated(total(stale_counts(st))),
{
    subscriptions.layout();
    let ghost keys = subscriptions.key_seq();
    let ghost values = subscriptions.value_seq();
    let ghost counts: Seq<nat> = values.map_values(
        |w: FingerprintSet| (w@.dom().len() - durable_watchers(st, w@.dom()).len()) as nat,
    );
    let n: usize = subscriptions.len();
    let mut marks: Vec<bool> = Vec::new();
    let mut stale: usize = 0;
    let mut i: usize = 0;
    assert(counts.take(0) =~= Seq::<nat>::empty());
    while i < n
        invariant
            i <= n,
            n == keys.len(),
            n == values.len(),
            subscriptions.key_seq() == keys,
            subscriptions.value_seq().len() == n,
            st.directory.dom() == directory@.dom(),
            st.connections == connections@.dom(),
            marks@.len() == i,
            counts == values.map_values(
                |w: FingerprintSet| (w@.dom().len() - durable_watchers(st, w@.dom()).len()) as nat,
            ),
            stale == saturated(sum(counts.take(i as int))),
            forall|j: int|
                0 <= j < i ==> (#[trigger] subscriptions.value_seq()[j])@.dom() == durable_watchers(
                    st,
                    values[j]@.dom(),
                ),
            forall|j: int|
                0 <= j < i ==> #[trigger] marks@[j] == (durable_watchers(st, values[j]@.dom()).len()
                    > 0),
            forall|j: int| i <= j < n ==> #[trigger] subscriptions.value_seq()[j] == values[j],
        decreases n - i,
    {
        let mut watchers: FingerprintSet = subscriptions.replace_at(i, ByteMap::new());
        let removed: usize = keep_durable(&mut watchers, directory, connections);
        watchers.layout();
        proof {
            assert(counts.take(i + 1).drop_last() =~= counts.take(i as int));
            assert(watchers@.dom() =~= durable_watchers(st, values[i as int]@.dom()));
            assert(counts[i as int] == removed);
        }
        stale = stale.saturating_add(removed);
        marks.push(watchers.len() > 0);
        let _ = subscriptions.replace_at(i, watchers);
        i = i + 1;
    }
    subscriptions.layout();
    let ghost kept_values = subscriptions.value_seq();
    let _ = subscriptions.retain_marked(&marks);
    subscriptions.layout();
    proof {
        let before = st.subscriptions;
        let after = sets_view(subscriptions@);
        let target = swept_subscriptions(st);
        let keep = |k: Seq<u8>| durable_watchers(st, before[k]).len() > 0;
        assert forall|j: int| 0 <= j < keys.len() implies marks@[j] == keep(#[trigger] keys[j]) by {
            assert(old(subscriptions)@.dom().contains(keys[j]));
            assert(before[keys[j]] == values[j]@.dom());
        }
        lemma_marked_part_where(keys, kept_values, marks@, keep);
        assert forall|k: Seq<u8>| #[trigger] before.dom().contains(k) implies after.dom().contains(k)
            == target.dom().contains(k) && (target.dom().contains(k) ==> after[k] == target[k]) by {
            let p = position(keys, k);
            assert(old(subscriptions)@.dom().contains(k));
            assert(0 <= p < keys.len() && keys[p] == k);
            assert(before[keys[p]] == values[p]@.dom());
            assert(pairing(keys, kept_values).dom().contains(keys[p]));
            assert(kept_values[p]@.dom() == durable_watchers(st, values[p]@.dom()));
        }
        assert(after =~= target);
        assert(counts.take(n as int) =~= counts);
        lemma_total_of_pairing(keys, counts);
        assert(pairing(keys, counts) =~= stale_counts(st));
    }
    stale
}

/// Drops expired mailbox entries and emptied mailboxes, what identities that are neither
/// registered nor connected left behind, and stale rate-limit buckets. `wall` and `monotonic`
/// are the clocks' readings.
pub fn sweep_once(
    state: &mut AppState,
    rate_limit_bucket_stale_after: u64,
    wall: u64,
    monotonic: u64,
) -> (summary: SweepSummary)
    ensures
        final(state).inner@ == swept(
            old(state).inner@,
            rate_limit_bucket_stale_after,
            wall,
            monotonic,
        ),
        summary == sweep_counts(
            old(state).inner@,
            rate_limit_bucket_stale_after,
            wall,
            monotonic,
        ),
        final(state).persistent == old(state).persistent,
        final(state).active_connections == old(state).active_connections,
        final(state).connection_cap == old(state).connection_cap,
{
    let ghost st = state.inner@;
    let (mailbox_entries_pruned, mailboxes_emptied) = sweep_mailboxes(
        &mut state.inner.mailboxes,
        wall,
    );
    let presence_entries_pruned: usize = sweep_presence(
        &mut state.inner.presence,
        &state.inner.directory,
        &state.inner.connections,
    );
    let fetch_evidence_entries_pruned: usize = keep_durable(
        &mut state.inner.fetch_evidence,
        &state.inner.directory,
        &state.inner.connections,
    );
    assert(st.directory.dom() =~= state.inner.directory@.dom());
    let stale_subscribers_pruned: usize = sweep_subscriptions(
        &mut state.inner.subscriptions,
        &state.inner.directory,
        &state.inner.connections,
        Ghost(st),
    );
    let rate_limit_buckets_pruned: usize = state.inner.fetch_rate_limiter.sweep_stale(
        rate_limit_bucket_stale_after,
        monotonic,
    );
    let new_mailbox_rate_limit_buckets_pruned: usize =
        state.inner.new_mailbox_rate_limiter.sweep_stale(
        rate_limit_bucket_stale_after,
        monotonic,
    );
    proof {
        let after = swept(st, rate_limit_bucket_stale_after, wall, monotonic);
        assert(state.inner@.presence =~= after.presence);
        assert(state.inner@.fetch_evidence =~= after.fetch_evidence);
        assert(st.fetch_evidence.dom() =~= old(state).inner.fetch_evidence@.dom());
        assert(after.fetch_evidence.dom() =~= state.inner.fetch_evidence@.dom());
        assert(state.inner@ =~= after);
    }
    SweepSummary {
        mailbox_entries_pruned,
        mailboxes_emptied,
        rate_limit_buckets_pruned,
        new_mailbox_rate_limit_buckets_pruned,
        presence_entries_pruned,
        fetch_evidence_entries_pruned,
        stale_subscribers_pruned,
    }
}

/// Dropping what has expired a second time drops nothing.
pub proof fn lemma_unexpired_twice(entries: Seq<EntryView>, now: u64)
    ensures
        unexpired(unexpired(entries, now), now) == unexpired(entries, now),
    decreases entries.len(),
{
    reveal(Seq::filter);
    if entries.len() > 0 {
        lemma_unexpired_twice(entries.drop_last(), now);
        let live = |e: EntryView| e.expires_at > now;
        let shorter = entries.drop_last().filter(live);
        if live(entries.last()) {
            assert(shorter.push(entries.last()).drop_last() =~= shorter);
        }
    }
}

/// A sweep takes away no entry that has not expired: a reader who fetches after the sweep, at
/// the same moment, sees what they would have seen without it.
pub proof fn law_sweep_keeps_unexpired_entries(
    st: InnerView,
    stale_after: u64,
    wall: u64,
    monotonic: u64,
    mailbox: Seq<u8>,
)
    requires
        st.mailboxes.dom().contains(mailbox),
    ensures
        ({
            let after = swept(st, stale_after, wall, monotonic).mailboxes;
            if after.dom().contains(mailbox) {
                unexpired(after[mailbox], wall) == unexpired(st.mailboxes[mailbox], wall)
            } else {
                unexpired(st.mailboxes[mailbox], wall).len() == 0
            }
        }),
{
    lemma_unexpired_twice(st.mailboxes[mailbox], wall);
}

/// A sweep leaves the directory, the handles, and everything about a durable identity as they
/// were, apart from its idle rate-limit buckets.
pub proof fn law_sweep_spares_durable_identities(
    st: InnerView,
    stale_after: u64,
    wall: u64,
    monotonic: u64,
    fingerprint: Seq<u8>,
)
    ensures
        ({
            let after = swept(st, stale_after, wall, monotonic);
            &&& after.directory == st.directory
            &&& after.username_index == st.username_index
            &&& after.bootstrap_mailbox_index == st.bootstrap_mailbox_index
            &&& after.otp_exhaustion_attempts == st.otp_exhaustion_attempts
            &&& after.connections == st.connections
            &&& durable(st, fingerprint) && st.presence.dom().contains(fingerprint) ==> (
            after.presence.dom().contains(fingerprint) && after.presence[fingerprint]
                == st.presence[fingerprint])
            &&& durable(st, fingerprint) && st.fetch_evidence.dom().contains(fingerprint) ==> (
            after.fetch_evidence.dom().contains(fingerprint) && after.fetch_evidence[fingerprint]
                == st.fetch_evidence[fingerprint])
            &&& forall|target: Seq<u8>|
                durable(st, fingerprint) && (#[trigger] st.subscriptions.dom().contains(target))
                    && st.subscriptions[target].finite() && st.subscriptions[target].contains(
                    fingerprint,
                ) ==> after.subscriptions.dom().contains(target)
                    && after.subscriptions[target].contains(fingerprint)
        }),
{
    let after = swept(st, stale_after, wall, monotonic);
    assert forall|target: Seq<u8>|
        durable(st, fingerprint) && (#[trigger] st.subscriptions.dom().contains(target))
            && st.subscriptions[target].finite() && st.subscriptions[target].contains(
            fingerprint,
        ) implies after.subscriptions.dom().contains(target)
        && after.subscriptions[target].contains(fingerprint) by {
        let kept = durable_watchers(st, st.subscriptions[target]);
        assert(kept.contains(fingerprint));
        assert(kept.len() > 0) by {
            if kept.len() == 0 {
                assert(kept =~= Set::<Seq<u8>>::empty());
            }
        }
    }
}

/// What an identity that is neither registered nor connected left behind is gone after a
/// sweep: its offline presence, its fetch evidence and its subscriptions.
pub proof fn law_sweep_forgets_throwaway_identities(
    st: InnerView,
    stale_after: u64,
    wall: u64,
    monotonic: u64,
    fingerprint: Seq<u8>,
)
    requires
        !durable(st, fingerprint),
    ensures
        ({
            let after = swept(st, stale_after, wall, monotonic);
            &&& after.presence.dom().contains(fingerprint) ==> !(after.presence[fingerprint] is Offline)
            &&& !after.fetch_evidence.dom().contains(fingerprint)
            &&& forall|target: Seq<u8>|
                #[trigger] after.subscriptions.dom().contains(target)
                    ==> !after.subscriptions[target].contains(fingerprint)
        }),
{
}

/// A second sweep at the same moment finds nothing to do.
pub proof fn law_sweep_is_idempotent(st: InnerView, stale_after: u64, wall: u64, monotonic: u64)
    ensures
        ({
            let once = swept(st, stale_after, wall, monotonic);
            swept(once, stale_after, wall, monotonic) == once
        }),
{
    let once = swept(st, stale_after, wall, monotonic);
    let twice = swept(once, stale_after, wall, monotonic);
    assert forall|id: Seq<u8>| #[trigger] once.mailboxes.dom().contains(id) implies
        twice.mailboxes.dom().contains(id) && twice.mailboxes[id] == once.mailboxes[id] by {
        lemma_unexpired_twice(st.mailboxes[id], wall);
    }
    assert(twice.mailboxes =~= once.mailboxes);
    assert forall|t: Seq<u8>| #[trigger] once.subscriptions.dom().contains(t) implies
        durable_watchers(once, once.subscriptions[t]) == once.subscriptions[t] by {
        assert(durable_watchers(once, once.subscriptions[t]) =~= once.subscriptions[t]);
    }
    assert(twice.subscriptions =~= once.subscriptions);
    assert(twice =~= once);
}

/// What a sweep leaves of each table. A mailbox stays with its unexpired entries, if it has any.
/// Presence stays unless it is the offline presence of one who is neither registered nor
/// connected; the fetch evidence and the subscriptions of such a one go too. A bucket of fetches
/// or of new mailboxes stays if it was used recently. Everything else stays as it was.
pub proof fn law_what_a_sweep_leaves(
    st: InnerView,
    stale_after: u64,
    wall: u64,
    monotonic: u64,
    k: Seq<u8>,
    watcher: Seq<u8>,
)
    requires
        forall|t: Seq<u8>| #[trigger]
            st.subscriptions.dom().contains(t) ==> st.subscriptions[t].finite(),
    ensures
        ({
            let after = swept(st, stale_after, wall, monotonic);
            let lasting = st.directory.dom().contains(k) || st.connections.contains(k);
            let watcher_lasting = st.directory.dom().contains(watcher) || st.connections.contains(
                watcher,
            );
            &&& after.mailboxes.dom().contains(k) <==> st.mailboxes.dom().contains(k) && exists|
                i: int,
            |
                0 <= i < st.mailboxes[k].len() && wall < (#[trigger] st.mailboxes[k][i]).expires_at
            &&& after.mailboxes.dom().contains(k) ==> after.mailboxes[k] == st.mailboxes[k].filter(
                |e: EntryView| e.expires_at > wall,
            )
            &&& after.presence.dom().contains(k) <==> st.presence.dom().contains(k) && (
            st.presence[k] is Online || st.presence[k] is Away || lasting)
            &&& after.presence.dom().contains(k) ==> after.presence[k] == st.presence[k]
            &&& after.fetch_evidence.dom().contains(k) <==> st.fetch_evidence.dom().contains(k)
                && lasting
            &&& after.fetch_evidence.dom().contains(k) ==> after.fetch_evidence[k]
                == st.fetch_evidence[k]
            &&& (after.subscriptions.dom().contains(k) && after.subscriptions[k].contains(watcher))
                <==> st.subscriptions.dom().contains(k) && st.subscriptions[k].contains(watcher)
                && watcher_lasting
            &&& after.subscriptions.dom().contains(k) ==> after.subscriptions[k].len() > 0
            &&& after.fetch_buckets.dom().contains(k) <==> st.fetch_buckets.dom().contains(k)
                && stale_after > 0 && monotonic < st.fetch_buckets[k].last_refill + stale_after
            &&& after.fetch_buckets.dom().contains(k) ==> after.fetch_buckets[k]
                == st.fetch_buckets[k]
            &&& after.new_mailbox_buckets.dom().contains(k)
                <==> st.new_mailbox_buckets.dom().contains(k) && stale_after > 0 && monotonic
                < st.new_mailbox_buckets[k].last_refill + stale_after
            &&& after.new_mailbox_buckets.dom().contains(k) ==> after.new_mailbox_buckets[k]
                == st.new_mailbox_buckets[k]
            &&& after == (InnerView {
                mailboxes: after.mailboxes,
                presence: after.presence,
                fetch_evidence: after.fetch_evidence,
                subscriptions: after.subscriptions,
                fetch_buckets: after.fetch_buckets,
                new_mailbox_buckets: after.new_mailbox_buckets,
                ..st
            })
        }),
{
    let after = swept(st, stale_after, wall, monotonic);
    if st.mailboxes.dom().contains(k) {
        lemma_some_unexpired(st.mailboxes[k], wall);
    }
    if st.subscriptions.dom().contains(k) {
        let kept = durable_watchers(st, st.subscriptions[k]);
        assert(kept.contains(watcher) <==> st.subscriptions[k].contains(watcher) && durable(
            st,
            watcher,
        ));
        if kept.len() == 0 {
            assert(kept =~= Set::<Seq<u8>>::empty());
            assert(!kept.contains(watcher));
        }
    }
}

proof fn lemma_some_unexpired(entries: Seq<EntryView>, wall: u64)
    ensures
        unexpired(entries, wall) == entries.filter(|e: EntryView| e.expires_at > wall),
        unexpired(entries, wall).len() > 0 <==> exists|i: int|
            0 <= i < entries.len() && wall < (#[trigger] entries[i]).expires_at,
    decreases entries.len(),
{
    reveal(Seq::filter);
    if entries.len() > 0 {
        let shorter = entries.drop_last();
        lemma_some_unexpired(shorter, wall);
        if exists|i: int| 0 <= i < shorter.len() && wall < (#[trigger] shorter[i]).expires_at {
            let i = choose|i: int|
                0 <= i < shorter.len() && wall < (#[trigger] shorter[i]).expires_at;
            assert(wall < entries[i].expires_at);
        }
        if exists|i: int| 0 <= i < entries.len() && wall < (#[trigger] entries[i]).expires_at {
            let i = choose|i: int|
                0 <= i < entries.len() && wall < (#[trigger] entries[i]).expires_at;
            if i < shorter.len() {
                assert(wall < shorter[i].expires_at);
            }
        }
        assert(entries.last() == entries[entries.len() - 1]);
    }
}

/// How many entries each mailbox holds.
pub open spec fn entry_counts(mailboxes: Map<Seq<u8>, Seq<EntryView>>) -> Map<Seq<u8>, nat> {
    mailboxes.map_values(|e: Seq<EntryView>| e.len())
}

/// How many subscribers each identity has.
pub open spec fn watcher_counts(subscriptions: Map<Seq<u8>, Set<Seq<u8>>>) -> Map<Seq<u8>, nat> {
    subscriptions.map_values(|w: Set<Seq<u8>>| w.len())
}

proof fn lemma_expired_are_missing(mailboxes: Map<Seq<u8>, Seq<EntryView>>, wall: u64)
    requires
        mailboxes.dom().finite(),
    ensures
        total(expired_counts(mailboxes, wall)) + total(
            entry_counts(swept_mailboxes(mailboxes, wall)),
        ) == total(entry_counts(mailboxes)),
    decreases mailboxes.dom().len(),
{
    let expired = expired_counts(mailboxes, wall);
    let after = swept_mailboxes(mailboxes, wall);
    let left = entry_counts(after);
    let all = entry_counts(mailboxes);
    assert(expired.dom() =~= mailboxes.dom());
    assert(all.dom() =~= mailboxes.dom());
    assert(left.dom() =~= after.dom());
    assert(after.dom().subset_of(mailboxes.dom()));
    vstd::set_lib::lemma_len_subset(after.dom(), mailboxes.dom());
    if mailboxes.dom().len() > 0 {
        let k = mailboxes.dom().choose();
        let rest = mailboxes.remove(k);
        lemma_expired_are_missing(rest, wall);
        lemma_total_remove(expired, k);
        lemma_total_remove(all, k);
        assert(expired.remove(k) =~= expired_counts(rest, wall));
        assert(all.remove(k) =~= entry_counts(rest));
        assert(left.remove(k) =~= entry_counts(swept_mailboxes(rest, wall)));
        mailboxes[k].lemma_filter_len(|e: EntryView| e.expires_at > wall);
        if after.dom().contains(k) {
            lemma_total_remove(left, k);
        } else {
            assert(left.remove(k) =~= left);
        }
    } else {
        assert(after.dom() =~= Set::<Seq<u8>>::empty());
    }
}

proof fn lemma_stale_are_missing(st: InnerView)
    requires
        st.subscriptions.dom().finite(),
        forall|t: Seq<u8>| #[trigger]
            st.subscriptions.dom().contains(t) ==> st.subscriptions[t].finite(),
    ensures
        total(stale_counts(st)) + total(watcher_counts(swept_subscriptions(st))) == total(
            watcher_counts(st.subscriptions),
        ),
    decreases st.subscriptions.dom().len(),
{
    let stale = stale_counts(st);
    let after = swept_subscriptions(st);
    let left = watcher_counts(after);
    let all = watcher_counts(st.subscriptions);
    assert(stale.dom() =~= st.subscriptions.dom());
    assert(all.dom() =~= st.subscriptions.dom());
    assert(left.dom() =~= after.dom());
    assert(after.dom().subset_of(st.subscriptions.dom()));
    vstd::set_lib::lemma_len_subset(after.dom(), st.subscriptions.dom());
    if st.subscriptions.dom().len() > 0 {
        let k = st.subscriptions.dom().choose();
        let rest = InnerView { subscriptions: st.subscriptions.remove(k), ..st };
        assert forall|w: Set<Seq<u8>>| #[trigger] durable_watchers(rest, w) == durable_watchers(
            st,
            w,
        ) by {
            assert(durable_watchers(rest, w) =~= durable_watchers(st, w));
        }
        lemma_stale_are_missing(rest);
        lemma_total_remove(stale, k);
        lemma_total_remove(all, k);
        assert(stale.remove(k) =~= stale_counts(rest));
        assert(all.remove(k) =~= watcher_counts(rest.subscriptions));
        assert(left.remove(k) =~= watcher_counts(swept_subscriptions(rest)));
        let watchers = st.subscriptions[k];
        let kept = durable_watchers(st, watchers);
        assert(kept.subset_of(watchers));
        vstd::set_lib::lemma_len_subset(kept, watchers);
        if after.dom().contains(k) {
            lemma_total_remove(left, k);
        } else {
            assert(left.remove(k) =~= left);
        }
    } else {
        assert(after.dom() =~= Set::<Seq<u8>>::empty());
    }
}

/// A sweep reports what is missing afterwards: entries, mailboxes, buckets of fetches and of new
/// mailboxes, presences, identities with fetch evidence, and subscribers.
pub proof fn law_a_sweep_reports_what_is_missing(
    st: InnerView,
    stale_after: u64,
    wall: u64,
    monotonic: u64,
)
    requires
        st.mailboxes.dom().finite(),
        st.mailboxes.dom().len() <= usize::MAX,
        st.fetch_buckets.dom().finite(),
        st.fetch_buckets.dom().len() <= usize::MAX,
        st.new_mailbox_buckets.dom().finite(),
        st.new_mailbox_buckets.dom().len() <= usize::MAX,
        st.presence.dom().finite(),
        st.presence.dom().len() <= usize::MAX,
        st.fetch_evidence.dom().finite(),
        st.fetch_evidence.dom().len() <= usize::MAX,
        st.subscriptions.dom().finite(),
        forall|t: Seq<u8>| #[trigger]
            st.subscriptions.dom().contains(t) ==> st.subscriptions[t].finite(),
        total(entry_counts(st.mailboxes)) <= usize::MAX,
        total(watcher_counts(st.subscriptions)) <= usize::MAX,
    ensures
        ({
            let after = swept(st, stale_after, wall, monotonic);
            let counts = sweep_counts(st, stale_after, wall, monotonic);
            &&& counts.mailbox_entries_pruned + total(entry_counts(after.mailboxes)) == total(
                entry_counts(st.mailboxes),
            )
            &&& counts.mailboxes_emptied + after.mailboxes.dom().len() == st.mailboxes.dom().len()
            &&& counts.rate_limit_buckets_pruned + after.fetch_buckets.dom().len()
                == st.fetch_buckets.dom().len()
            &&& counts.new_mailbox_rate_limit_buckets_pruned + after.new_mailbox_buckets.dom().len()
                == st.new_mailbox_buckets.dom().len()
            &&& counts.presence_entries_pruned + after.presence.dom().len()
                == st.presence.dom().len()
            &&& counts.fetch_evidence_entries_pruned + after.fetch_evidence.dom().len()
                == st.fetch_evidence.dom().len()
            &&& counts.stale_subscribers_pruned + total(watcher_counts(after.subscriptions))
                == total(watcher_counts(st.subscriptions))
        }),
{
    let after = swept(st, stale_after, wall, monotonic);
    lemma_expired_are_missing(st.mailboxes, wall);
    lemma_stale_are_missing(st);
    vstd::set_lib::lemma_len_subset(after.mailboxes.dom(), st.mailboxes.dom());
    vstd::set_lib::lemma_len_subset(after.fetch_buckets.dom(), st.fetch_buckets.dom());
    vstd::set_lib::lemma_len_subset(after.new_mailbox_buckets.dom(), st.new_mailbox_buckets.dom());
    vstd::set_lib::lemma_len_subset(after.presence.dom(), st.presence.dom());
    vstd::set_lib::lemma_len_subset(after.fetch_evidence.dom(), st.fetch_evidence.dom());
}

} // verus!
