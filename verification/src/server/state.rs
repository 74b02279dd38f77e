//! What the server holds in memory: the directory, presence, mailboxes and rate limits.
//!
//! Times are nanoseconds: on the wall clock since the Unix epoch, on the monotonic clock since
//! any fixed moment.

use vstd::prelude::*;
use vstd::std_specs::iter::IteratorSpec;
use vstd::utf8::encode_utf8;
use std::collections::HashMap;
use crate::bytes::{be_16, bytes_equal, lemma_be_16_injective, push_be_16};
use crate::map::ByteMap;
use crate::username::{has_only_allowed_characters, username_allowed, MAX_LEN};
pub use crate::random::{random_16, random_32};
use super::abuse::{
    FetchRateLimiter, MailboxDeleteRateLimiter, MailboxFetchRateLimiter, NewMailboxRateLimiter,
    RateBucket, RendezvousRateLimiter,
};
use super::protocol::{OneTimePrekeyWire, PrekeyBundleWire};

verus! {

/// The hash that names an identity.
pub type Fingerprint = [u8; 32];

pub type MailboxId = [u8; 16];

/// The longest envelope that a mailbox takes.
pub const MAX_ENVELOPE_LEN: usize = 65536;

/// The most unexpired entries that a mailbox holds.
pub const MAX_MAILBOX_ENTRIES: usize = 256;

/// The most unexpired entries of one mailbox that one identity may have written.
pub const MAX_ENTRIES_PER_WRITER_PER_MAILBOX: usize = MAX_MAILBOX_ENTRIES / 2;

pub const MAX_ONE_TIME_PREKEYS_PER_PUBLISH: usize = 100;

/// The longest username, in bytes.
pub const MAX_USERNAME_LEN: usize = MAX_LEN;

pub const MAX_SDP_LEN: usize = 65536;

pub const MAX_ICE_CANDIDATES: usize = 64;

pub const MAX_ICE_CANDIDATE_LEN: usize = 4096;

pub const MAX_CONCURRENT_CONNECTIONS: usize = 10_000;

/// The largest WebSocket message that is read.
pub const MAX_WS_MESSAGE_BYTES: usize = 1_048_576;

/// The most frames that wait to be sent to one client.
pub const MAX_QUEUED_OUTBOUND_FRAMES: usize = 64;

pub const NANOS_PER_SEC: u64 = 1_000_000_000;

/// The latest wall-clock reading that an expiry can be reckoned from without running out of
/// sixty-four bits.
pub const MAX_WALL_CLOCK: u64 = 14_000_000_000_000_000_000;

/// Whether `username` is not empty and made of ASCII letters, digits, `_` and `-` alone.
pub fn username_has_only_allowed_characters(username: &str) -> (ok: bool)
    ensures
        ok == username_allowed(username@),
{
    has_only_allowed_characters(username)
}

/// A user's handle.
#[derive(Debug, Clone, PartialEq, Eq, Hash)]
pub struct UsernameKey {
    pub username: String,
    pub discriminator: u16,
}

/// The bytes that a handle is filed under.
pub open spec fn handle_bytes(username: Seq<char>, discriminator: u16) -> Seq<u8> {
    encode_utf8(username) + be_16(discriminator)
}

/// Different handles are filed under different bytes.
pub proof fn law_handles_distinct(u1: Seq<char>, d1: u16, u2: Seq<char>, d2: u16)
    ensures
        handle_bytes(u1, d1) == handle_bytes(u2, d2) <==> u1 == u2 && d1 == d2,
{
    if handle_bytes(u1, d1) == handle_bytes(u2, d2) {
        let all = handle_bytes(u1, d1);
        let n = all.len() - 2;
        assert(encode_utf8(u1) =~= all.take(n));
        assert(encode_utf8(u2) =~= handle_bytes(u2, d2).take(n));
        assert(be_16(d1) =~= all.skip(n));
        assert(be_16(d2) =~= handle_bytes(u2, d2).skip(n));
        lemma_be_16_injective(d1, d2);
        vstd::utf8::encode_utf8_decode_utf8(u1);
        vstd::utf8::encode_utf8_decode_utf8(u2);
    }
}

impl UsernameKey {
    /// The bytes that the handle is filed under.
    pub fn to_bytes(&self) -> (bytes: Vec<u8>)
        ensures
            bytes@ == handle_bytes(self.username@, self.discriminator),
    {
        let mut bytes: Vec<u8> = Vec::new();
        bytes.extend_from_slice(self.username.as_str().as_bytes());
        push_be_16(&mut bytes, self.discriminator);
        assert(bytes@ =~= handle_bytes(self.username@, self.discriminator));
        bytes
    }
}

/// A one-time prekey.
pub struct OneTimePrekeyView {
    pub id: u32,
    pub key: Seq<u8>,
}

impl View for OneTimePrekeyWire {
    type V = OneTimePrekeyView;

    open spec fn view(&self) -> OneTimePrekeyView {
        OneTimePrekeyView { id: self.id, key: self.key@ }
    }
}

/// A published bundle.
pub struct BundleView {
    pub username: Seq<char>,
    pub discriminator: u16,
    pub identity_key: Seq<u8>,
    pub identity_dh_public: Seq<u8>,
    pub identity_dh_signature: Seq<u8>,
    pub signed_prekey_id: u32,
    pub signed_prekey: Seq<u8>,
    pub signed_prekey_sig: Seq<u8>,
    pub signed_prekey_expires_at: u64,
    pub one_time_prekeys: Seq<OneTimePrekeyView>,
    pub registration_pow: Option<u64>,
}

impl View for PrekeyBundleWire {
    type V = BundleView;

    open spec fn view(&self) -> BundleView {
        BundleView {
            username: self.username@,
            discriminator: self.discriminator,
            identity_key: self.identity_key@,
            identity_dh_public: self.identity_dh_public@,
            identity_dh_signature: self.identity_dh_signature@,
            signed_prekey_id: self.signed_prekey_id,
            signed_prekey: self.signed_prekey@,
            signed_prekey_sig: self.signed_prekey_sig@,
            signed_prekey_expires_at: self.signed_prekey_expires_at,
            one_time_prekeys: self.one_time_prekeys@.map_values(|p: OneTimePrekeyWire| p@),
            registration_pow: self.registration_pow,
        }
    }
}

/// A published bundle, and those of its one-time prekeys that were not handed out yet.
pub struct StoredBundle {
    pub bundle: PrekeyBundleWire,
    pub one_time_prekeys: HashMap<u32, Vec<u8>>,
}

pub struct StoredView {
    pub bundle: BundleView,
    pub one_time_prekeys: Map<u32, Seq<u8>>,
}

impl View for StoredBundle {
    type V = StoredView;

    open spec fn view(&self) -> StoredView {
        StoredView {
            bundle: self.bundle@,
            one_time_prekeys: self.one_time_prekeys@.map_values(|k: Vec<u8>| k@),
        }
    }
}

/// The prekeys by their ids; of two with the same id the later one counts.
pub open spec fn prekey_pool(prekeys: Seq<OneTimePrekeyView>) -> Map<u32, Seq<u8>>
    decreases prekeys.len(),
{
    if prekeys.len() == 0 {
        Map::empty()
    } else {
        prekey_pool(prekeys.drop_last()).insert(prekeys.last().id, prekeys.last().key)
    }
}

/// Whether `id` is the least id of the pool.
pub open spec fn is_least_id(pool: Map<u32, Seq<u8>>, id: u32) -> bool {
    pool.dom().contains(id) && forall|other: u32| pool.dom().contains(other) ==> id <= other
}

/// The id of the prekey that is handed out next: the least one.
pub open spec fn next_prekey(pool: Map<u32, Seq<u8>>) -> Option<u32> {
    if exists|id: u32| is_least_id(pool, id) {
        Some(choose|id: u32| is_least_id(pool, id))
    } else {
        None
    }
}

/// A pool that is not empty has a next prekey.
pub proof fn law_pool_hands_out_until_empty(pool: Map<u32, Seq<u8>>)
    ensures
        next_prekey(pool) is None <==> pool.dom() =~= Set::<u32>::empty(),
{
    if !(pool.dom() =~= Set::<u32>::empty()) {
        let id = choose|id: u32| pool.dom().contains(id);
        lemma_least_id_below(pool, id);
    }
}

proof fn lemma_least_id_below(pool: Map<u32, Seq<u8>>, id: u32)
    requires
        pool.dom().contains(id),
    ensures
        exists|least: u32| is_least_id(pool, least),
    decreases id,
{
    if !is_least_id(pool, id) {
        let other = choose|other: u32| pool.dom().contains(other) && other < id;
        lemma_least_id_below(pool, other);
    }
}

impl StoredBundle {
    /// Files a bundle with its one-time prekeys by their ids.
    pub fn from_wire(bundle: PrekeyBundleWire) -> (stored: StoredBundle)
        ensures
            stored@.bundle == bundle@,
            stored@.one_time_prekeys == prekey_pool(bundle@.one_time_prekeys),
    {
        broadcast use vstd::std_specs::hash::group_hash_axioms;

        let mut pool: HashMap<u32, Vec<u8>> = HashMap::new();
        let mut i: usize = 0;
        let ghost prekeys = bundle@.one_time_prekeys;
        assert(prekeys.take(0).len() == 0);
        assert(pool@.map_values(|k: Vec<u8>| k@) =~= prekey_pool(prekeys.take(0)));
        while i < bundle.one_time_prekeys.len()
            invariant
                i <= bundle.one_time_prekeys@.len(),
                prekeys == bundle@.one_time_prekeys,
                pool@.map_values(|k: Vec<u8>| k@) == prekey_pool(prekeys.take(i as int)),
            decreases bundle.one_time_prekeys@.len() - i,
        {
            let prekey: &OneTimePrekeyWire = &bundle.one_time_prekeys[i];
            let key: Vec<u8> = crate::bytes::copy_bytes(prekey.key.as_slice());
            let ghost before = pool@;
            let ghost stored_key = key;
            pool.insert(prekey.id, key);
            proof {
                assert(prekeys.take(i + 1).drop_last() =~= prekeys.take(i as int));
                assert(prekeys[i as int] == prekey@);
                assert(pool@.map_values(|k: Vec<u8>| k@) =~= before.map_values(
                    |k: Vec<u8>| k@,
                ).insert(prekey.id, prekey.key@));
            }
            i = i + 1;
        }
        assert(prekeys.take(i as int) =~= prekeys);
        StoredBundle { bundle, one_time_prekeys: pool }
    }

    /// Takes the prekey that is handed out next out of the pool.
    pub fn take_one_time_prekey(&mut self) -> (prekey: Option<OneTimePrekeyWire>)
        ensures
            final(self)@.bundle == old(self)@.bundle,
            match next_prekey(old(self)@.one_time_prekeys) {
                None => prekey is None && final(self)@.one_time_prekeys == old(self)@.one_time_prekeys,
                Some(id) => prekey matches Some(p) && p.id == id && p.key@
                    == old(self)@.one_time_prekeys[id] && final(self)@.one_time_prekeys == old(
                    self,
                )@.one_time_prekeys.remove(id),
            },
    {
        broadcast use vstd::std_specs::hash::group_hash_axioms;

        let ghost pool0 = self@.one_time_prekeys;
        let mut least: Option<u32> = None;
        let ids = self.one_time_prekeys.keys();
        let ghost order = ids.remaining().unref();
        for id in it: ids
            invariant
                it.seq().unref() == order,
                match least {
                    None => it.index@ == 0,
                    Some(l) => order.contains(l) && forall|j: int|
                        0 <= j < it.index@ ==> l <= #[trigger] order[j],
                },
        {
            assert(order[it.index@ as int] == *id);
            assert(order.contains(*id));
            least = match least {
                None => Some(*id),
                Some(l) => if *id < l {
                    Some(*id)
                } else {
                    Some(l)
                },
            };
        }
        proof {
            assert(order.to_set() =~= pool0.dom());
            match least {
                None => {
                    assert(order.len() == 0);
                    assert(pool0.dom() =~= Set::<u32>::empty());
                },
                Some(l) => {
                    assert(forall|j: int| 0 <= j < order.len() ==> l <= #[trigger] order[j]);
                    assert forall|other: u32| pool0.dom().contains(other) implies l <= other by {
                        assert(order.to_set().contains(other));
                        let j = choose|j: int| 0 <= j < order.len() && order[j] == other;
                        assert(l <= order[j]);
                    }
                    assert(order.to_set().contains(l));
                    assert(is_least_id(pool0, l));
                },
            }
        }
        match least {
            None => None,
            Some(id) => {
                let removed: Option<Vec<u8>> = self.one_time_prekeys.remove(&id);
                assert(self@.one_time_prekeys =~= pool0.remove(id));
                match removed {
                    Some(key) => Some(OneTimePrekeyWire { id, key }),
                    None => None,
                }
            },
        }
    }
}

/// Whether an identity is there to be reached, and since when it is not.
#[derive(Debug, Clone, Copy, PartialEq, Eq, Structural)]
pub enum PresenceState {
    Online,
    Away,
    Offline { last_seen: u64 },
}

/// An envelope that waits in a mailbox.
pub struct MailboxEntry {
    pub entry_id: [u8; 16],
    pub envelope: Vec<u8>,
    /// On the wall clock.
    pub expires_at: u64,
    pub written_by: Fingerprint,
}

pub struct EntryView {
    pub entry_id: Seq<u8>,
    pub envelope: Seq<u8>,
    pub expires_at: u64,
    pub written_by: Seq<u8>,
}

impl View for MailboxEntry {
    type V = EntryView;

    open spec fn view(&self) -> EntryView {
        EntryView {
            entry_id: self.entry_id@,
            envelope: self.envelope@,
            expires_at: self.expires_at,
            written_by: self.written_by@,
        }
    }
}

/// What a list of entries holds.
pub open spec fn entries_view(entries: Seq<MailboxEntry>) -> Seq<EntryView> {
    entries.map_values(|e: MailboxEntry| e@)
}

/// The entries that have not expired, in order.
pub open spec fn unexpired(entries: Seq<EntryView>, now: u64) -> Seq<EntryView> {
    entries.filter(|e: EntryView| e.expires_at > now)
}

/// A set of fingerprints.
pub type FingerprintSet = ByteMap<()>;

/// The sets that a table of fingerprint sets holds.
pub open spec fn sets_view(sets: Map<Seq<u8>, FingerprintSet>) -> Map<Seq<u8>, Set<Seq<u8>>> {
    sets.map_values(|s: FingerprintSet| s@.dom())
}

/// The set at `key`; a key that has none has the empty one.
pub open spec fn members(sets: Map<Seq<u8>, Set<Seq<u8>>>, key: Seq<u8>) -> Set<Seq<u8>> {
    if sets.dom().contains(key) {
        sets[key]
    } else {
        Set::empty()
    }
}

/// The table of sets with `member` added to the set at `key`.
pub open spec fn with_member(
    sets: Map<Seq<u8>, Set<Seq<u8>>>,
    key: Seq<u8>,
    member: Seq<u8>,
) -> Map<Seq<u8>, Set<Seq<u8>>> {
    sets.insert(key, members(sets, key).insert(member))
}

/// Adds `member` to the set at `key`.
pub fn add_member(sets: &mut ByteMap<FingerprintSet>, key: &[u8], member: &[u8])
    ensures
        sets_view(final(sets)@) == with_member(sets_view(old(sets)@), key@, member@),
{
    let mut set: FingerprintSet = match sets.remove(key) {
        Some(set) => set,
        None => ByteMap::new(),
    };
    let ghost before = set@;
    set.insert(member, ());
    let ghost after = set@;
    sets.insert(key, set);
    proof {
        assert(before.dom() =~= members(sets_view(old(sets)@), key@));
        assert(after.dom() =~= before.dom().insert(member@));
        assert(sets_view(sets@) =~= with_member(sets_view(old(sets)@), key@, member@));
    }
}

/// Whether `member` is in the set at `key`.
pub fn has_member(sets: &ByteMap<FingerprintSet>, key: &[u8], member: &[u8]) -> (found: bool)
    ensures
        found == members(sets_view(sets@), key@).contains(member@),
{
    match sets.get(key) {
        Some(set) => set.contains_key(member),
        None => false,
    }
}

/// Everything that requests read and change.
pub struct Inner {
    /// Published bundles by fingerprint.
    pub directory: ByteMap<StoredBundle>,
    /// The registered owner of each bootstrap mailbox.
    pub bootstrap_mailbox_index: ByteMap<Fingerprint>,
    /// The owner of each handle.
    pub username_index: ByteMap<Fingerprint>,
    pub presence: ByteMap<PresenceState>,
    /// For each identity, who is told of changes of its presence.
    pub subscriptions: ByteMap<FingerprintSet>,
    /// For each identity, whose bundle it has fetched.
    pub fetch_evidence: ByteMap<FingerprintSet>,
    pub mailboxes: ByteMap<Vec<MailboxEntry>>,
    /// The identities that have an authenticated connection.
    pub connections: FingerprintSet,
    pub fetch_rate_limiter: FetchRateLimiter,
    pub new_mailbox_rate_limiter: NewMailboxRateLimiter,
    pub rendezvous_rate_limiter: RendezvousRateLimiter,
    pub mailbox_fetch_rate_limiter: MailboxFetchRateLimiter,
    pub mailbox_delete_rate_limiter: MailboxDeleteRateLimiter,
    /// For each identity, how often its bundle was fetched with no one-time prekey left.
    pub otp_exhaustion_attempts: ByteMap<u32>,
}

#[verifier::ext_equal]
pub struct InnerView {
    pub directory: Map<Seq<u8>, StoredView>,
    pub bootstrap_mailbox_index: Map<Seq<u8>, Seq<u8>>,
    pub username_index: Map<Seq<u8>, Seq<u8>>,
    pub presence: Map<Seq<u8>, PresenceState>,
    pub subscriptions: Map<Seq<u8>, Set<Seq<u8>>>,
    pub fetch_evidence: Map<Seq<u8>, Set<Seq<u8>>>,
    pub mailboxes: Map<Seq<u8>, Seq<EntryView>>,
    pub connections: Set<Seq<u8>>,
    pub fetch_buckets: Map<Seq<u8>, RateBucket>,
    pub new_mailbox_buckets: Map<Seq<u8>, RateBucket>,
    pub rendezvous_buckets: Map<Seq<u8>, RateBucket>,
    pub mailbox_fetch_buckets: Map<Seq<u8>, RateBucket>,
    pub mailbox_delete_buckets: Map<Seq<u8>, RateBucket>,
    pub otp_exhaustion_attempts: Map<Seq<u8>, u32>,
}

impl View for Inner {
    type V = InnerView;

    open spec fn view(&self) -> InnerView {
        InnerView {
            directory: self.directory@.map_values(|s: StoredBundle| s@),
            bootstrap_mailbox_index: self.bootstrap_mailbox_index@.map_values(|f: Fingerprint| f@),
            username_index: self.username_index@.map_values(|f: Fingerprint| f@),
            presence: self.presence@,
            subscriptions: sets_view(self.subscriptions@),
            fetch_evidence: sets_view(self.fetch_evidence@),
            mailboxes: self.mailboxes@.map_values(|e: Vec<MailboxEntry>| entries_view(e@)),
            connections: self.connections@.dom(),
            fetch_buckets: self.fetch_rate_limiter@,
            new_mailbox_buckets: self.new_mailbox_rate_limiter@,
            rendezvous_buckets: self.rendezvous_rate_limiter@,
            mailbox_fetch_buckets: self.mailbox_fetch_rate_limiter@,
            mailbox_delete_buckets: self.mailbox_delete_rate_limiter@,
            otp_exhaustion_attempts: self.otp_exhaustion_attempts@,
        }
    }
}

impl InnerView {
    /// The state of a server that has just started.
    pub open spec fn initial() -> InnerView {
        InnerView {
            directory: Map::empty(),
            bootstrap_mailbox_index: Map::empty(),
            username_index: Map::empty(),
            presence: Map::empty(),
            subscriptions: Map::empty(),
            fetch_evidence: Map::empty(),
            mailboxes: Map::empty(),
            connections: Set::empty(),
            fetch_buckets: Map::empty(),
            new_mailbox_buckets: Map::empty(),
            rendezvous_buckets: Map::empty(),
            mailbox_fetch_buckets: Map::empty(),
            mailbox_delete_buckets: Map::empty(),
            otp_exhaustion_attempts: Map::empty(),
        }
    }

    /// The state once `fingerprint` has registered `stored`: the directory and the index of
    /// bootstrap mailboxes change together.
    pub open spec fn registered(
        self,
        fingerprint: Seq<u8>,
        bootstrap_mailbox: Seq<u8>,
        stored: StoredView,
    ) -> InnerView {
        InnerView {
            directory: self.directory.insert(fingerprint, stored),
            bootstrap_mailbox_index: self.bootstrap_mailbox_index.insert(
                bootstrap_mailbox,
                fingerprint,
            ),
            ..self
        }
    }

    /// Whether `mailbox_id` is the bootstrap mailbox of a registered identity other than
    /// `caller`.
    pub open spec fn anothers_bootstrap_mailbox(self, mailbox_id: Seq<u8>, caller: Seq<u8>) -> bool {
        self.bootstrap_mailbox_index.dom().contains(mailbox_id)
            && self.bootstrap_mailbox_index[mailbox_id] != caller
    }
}

impl Default for Inner {
    fn default() -> (inner: Inner)
        ensures
            inner@ == InnerView::initial(),
    {
        let inner: Inner = Inner {
            directory: ByteMap::new(),
            bootstrap_mailbox_index: ByteMap::new(),
            username_index: ByteMap::new(),
            presence: ByteMap::new(),
            subscriptions: ByteMap::new(),
            fetch_evidence: ByteMap::new(),
            mailboxes: ByteMap::new(),
            connections: ByteMap::new(),
            fetch_rate_limiter: FetchRateLimiter::default(),
            new_mailbox_rate_limiter: NewMailboxRateLimiter::default(),
            rendezvous_rate_limiter: RendezvousRateLimiter::default(),
            mailbox_fetch_rate_limiter: MailboxFetchRateLimiter::default(),
            mailbox_delete_rate_limiter: MailboxDeleteRateLimiter::default(),
            otp_exhaustion_attempts: ByteMap::new(),
        };
        assert(inner@ =~= InnerView::initial());
        inner
    }
}

impl Inner {
    /// Files a bundle under its fingerprint, and the fingerprint under its bootstrap mailbox.
    pub fn register_bundle(
        &mut self,
        fingerprint: Fingerprint,
        bootstrap_mailbox: MailboxId,
        stored: StoredBundle,
    )
        ensures
            final(self)@ == old(self)@.registered(fingerprint@, bootstrap_mailbox@, stored@),
    {
        self.bootstrap_mailbox_index.insert(bootstrap_mailbox.as_slice(), fingerprint);
        let ghost stored0 = stored;
        self.directory.insert(fingerprint.as_slice(), stored);
        assert(self@ =~= old(self)@.registered(fingerprint@, bootstrap_mailbox@, stored0@));
    }

    /// Whether `mailbox_id` is the bootstrap mailbox of a registered identity other than
    /// `caller`.
    pub fn bootstrap_mailbox_belongs_to_another(
        &self,
        mailbox_id: &MailboxId,
        caller: &Fingerprint,
    ) -> (anothers: bool)
        ensures
            anothers == self@.anothers_bootstrap_mailbox(mailbox_id@, caller@),
    {
        match self.bootstrap_mailbox_index.get(mailbox_id.as_slice()) {
            Some(owner) => !bytes_equal(owner.as_slice(), caller.as_slice()),
            None => false,
        }
    }
}

/// A directory record that was read back: fingerprint, bootstrap mailbox and bundle.
pub struct LoadedBundle {
    pub fingerprint: Fingerprint,
    pub bootstrap_mailbox: MailboxId,
    pub stored: StoredBundle,
}

/// The state of a server that starts with the given records.
pub open spec fn seeded(records: Seq<LoadedBundle>) -> InnerView
    decreases records.len(),
{
    if records.len() == 0 {
        InnerView::initial()
    } else {
        let before = seeded(records.drop_last());
        let r = records.last();
        InnerView {
            username_index: before.username_index.insert(
                handle_bytes(r.stored@.bundle.username, r.stored@.bundle.discriminator),
                r.fingerprint@,
            ),
            ..before
        }.registered(r.fingerprint@, r.bootstrap_mailbox@, r.stored@)
    }
}

/// The server's state, with the count of open connections.
pub struct AppState {
    pub inner: Inner,
    /// Whether changes of the directory are to be written to disk.
    pub persistent: bool,
    pub active_connections: usize,
    pub connection_cap: usize,
}

impl AppState {
    pub fn new() -> (state: AppState)
        ensures
            state.inner@ == InnerView::initial(),
            !state.persistent,
            state.active_connections == 0,
            state.connection_cap == MAX_CONCURRENT_CONNECTIONS,
    {
        AppState::new_with_connection_cap(MAX_CONCURRENT_CONNECTIONS)
    }

    pub fn new_with_connection_cap(cap: usize) -> (state: AppState)
        ensures
            state.inner@ == InnerView::initial(),
            !state.persistent,
            state.active_connections == 0,
            state.connection_cap == cap,
    {
        AppState {
            inner: Inner::default(),
            persistent: false,
            active_connections: 0,
            connection_cap: cap,
        }
    }

    /// A server whose directory starts with the records that were read back.
    pub fn with_persistence(records: Vec<LoadedBundle>) -> (state: AppState)
        ensures
            state.inner@ == seeded(records@),
            state.persistent,
            state.active_connections == 0,
            state.connection_cap == MAX_CONCURRENT_CONNECTIONS,
    {
        let mut inner: Inner = Inner::default();
        let mut rest: Vec<LoadedBundle> = Vec::new();
        let mut records: Vec<LoadedBundle> = records;
        let ghost all = records@;
        while records.len() > 0
            invariant
                records@.len() <= all.len(),
                records@ == all.take(records@.len() as int),
                rest@.len() == all.len() - records@.len(),
                forall|j: int| 0 <= j < rest@.len() ==> rest@[j] == all[all.len() - 1 - j],
            decreases records@.len(),
        {
            if let Some(record) = records.pop() {
                rest.push(record);
            }
        }
        assert(all.take(0) =~= Seq::<LoadedBundle>::empty());
        let ghost mut done: int = 0;
        while rest.len() > 0
            invariant
                0 <= done <= all.len(),
                rest@.len() == all.len() - done,
                forall|j: int| 0 <= j < rest@.len() ==> rest@[j] == all[all.len() - 1 - j],
                inner@ == seeded(all.take(done)),
            decreases rest@.len(),
        {
            if let Some(record) = rest.pop() {
                let ghost before = inner@;
                let key: UsernameKey = UsernameKey {
                    username: record.stored.bundle.username.clone(),
                    discriminator: record.stored.bundle.discriminator,
                };
                inner.username_index.insert(key.to_bytes().as_slice(), record.fingerprint);
                proof {
                    let all1 = all.take(done + 1);
                    assert(all1.drop_last() =~= all.take(done));
                    assert(all1.last() == record);
                    assert(inner@ =~= InnerView {
                        username_index: before.username_index.insert(
                            handle_bytes(
                                record.stored@.bundle.username,
                                record.stored@.bundle.discriminator,
                            ),
                            record.fingerprint@,
                        ),
                        ..before
                    });
                    done = done + 1;
                }
                inner.register_bundle(record.fingerprint, record.bootstrap_mailbox, record.stored);
            }
        }
        assert(all.take(done) =~= all);
        AppState {
            inner,
            persistent: true,
            active_connections: 0,
            connection_cap: MAX_CONCURRENT_CONNECTIONS,
        }
    }

    /// Counts a new connection in, unless the cap is reached.
    pub fn try_connect(&mut self) -> (connected: bool)
        ensures
            connected == (old(self).active_connections < old(self).connection_cap),
            final(self).active_connections == old(self).active_connections + if connected {
                1int
            } else {
                0
            },
            final(self).connection_cap == old(self).connection_cap,
            final(self).inner == old(self).inner,
            final(self).persistent == old(self).persistent,
    {
        if self.active_connections < self.connection_cap {
            self.active_connections = self.active_connections + 1;
            true
        } else {
            false
        }
    }

    /// Counts a connection out.
    pub fn disconnect(&mut self)
        requires
            old(self).active_connections > 0,
        ensures
            final(self).active_connections == old(self).active_connections - 1,
            final(self).connection_cap == old(self).connection_cap,
            final(self).inner == old(self).inner,
            final(self).persistent == old(self).persistent,
    {
        self.active_connections = self.active_connections - 1;
    }
}

/// Seconds since the Unix epoch at the wall-clock reading `now`.
pub fn now_unix(now: u64) -> (seconds: u64)
    ensures
        seconds == now as int / NANOS_PER_SEC as int,
{
    now / NANOS_PER_SEC
}

/// Drops the entries that have expired at the wall-clock reading `now`.
pub fn prune_expired(entries: &mut Vec<MailboxEntry>, now: u64)
    ensures
        entries_view(final(entries)@) == unexpired(entries_view(old(entries)@), now),
        final(entries)@.len() <= old(entries)@.len(),
{
    let ghost all = entries@;
    let ghost live = |e: EntryView| e.expires_at > now;
    let mut kept: usize = 0;
    let ghost mut seen: int = 0;
    proof {
        reveal(Seq::filter);
    }
    assert(entries_view(all).take(0).filter(live) =~= Seq::<EntryView>::empty());
    while kept < entries.len()
        invariant
            live == (|e: EntryView| e.expires_at > now),
            0 <= kept <= seen <= all.len(),
            entries@.len() == kept + (all.len() - seen),
            entries_view(entries@.take(kept as int)) == entries_view(all).take(seen).filter(live),
            entries@.skip(kept as int) == all.skip(seen),
        decreases entries@.len() - kept,
    {
        let ghost before = entries@;
        proof {
            reveal(Seq::filter);
            let t = entries_view(all).take(seen + 1);
            assert(t.drop_last() =~= entries_view(all).take(seen));
            assert(before.skip(kept as int)[0] == before[kept as int]);
            assert(all.skip(seen)[0] == all[seen]);
            assert(t.last() == before[kept as int]@);
        }
        if entries[kept].expires_at > now {
            kept = kept + 1;
            assert(entries_view(entries@.take(kept as int)) =~= entries_view(
                before.take(kept - 1),
            ).push(before[kept - 1]@));
            assert(entries@.skip(kept as int) =~= before.skip(kept - 1).drop_first());
        } else {
            entries.remove(kept);
            assert(entries@.take(kept as int) =~= before.take(kept as int));
            assert(entries@.skip(kept as int) =~= before.skip(kept as int).drop_first());
        }
        proof {
            seen = seen + 1;
            assert(all.skip(seen) =~= all.skip(seen - 1).drop_first());
        }
    }
    proof {
        assert(entries_view(all).take(seen) =~= entries_view(all));
        assert(entries@.take(kept as int) =~= entries@);
    }
}

/// A lifetime of `ttl` seconds, in nanoseconds.
pub fn ttl_from_secs(ttl: u32) -> (nanos: u64)
    ensures
        nanos == ttl * NANOS_PER_SEC,
{
    ttl as u64 * NANOS_PER_SEC
}

} // verus!
