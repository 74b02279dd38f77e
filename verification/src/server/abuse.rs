//! Limits on what one client can make the server do: token buckets, and a proof of work for
//! claiming a username.
//!
//! A bucket counts credit in nanoseconds. One request costs the limit's period; credit grows
//! by one per nanosecond, up to what the limit's capacity of requests costs.

use vstd::prelude::*;
use vstd::utf8::encode_utf8;
use sha2::{Digest, Sha256};
use crate::bytes::{be_16, be_64, push_be_16, push_be_64};
use crate::map::{lookup, position, ByteMap};
use super::state::Fingerprint;

verus! {

/// A connection's identifier, drawn at random when it opens.
pub type ConnectionId = [u8; 16];

/// How many requests a bucket holds at most, and how many nanoseconds one of them takes to
/// grow back.
#[derive(Debug, Clone, Copy)]
pub struct Limit {
    pub capacity: u64,
    pub period: u64,
}

pub const FETCH_RATE_LIMIT_CAPACITY: u64 = 5;

pub const FETCH_RATE_LIMIT_PERIOD: u64 = 5_000_000_000;

pub const NEW_MAILBOX_RATE_LIMIT_CAPACITY: u64 = 20;

pub const NEW_MAILBOX_RATE_LIMIT_PERIOD: u64 = 30_000_000_000;

pub const RENDEZVOUS_RATE_LIMIT_CAPACITY: u64 = 10;

pub const RENDEZVOUS_RATE_LIMIT_PERIOD: u64 = 5_000_000_000;

pub const MAILBOX_FETCH_RATE_LIMIT_CAPACITY: u64 = 600;

pub const MAILBOX_FETCH_RATE_LIMIT_PERIOD: u64 = 20_000_000;

pub const MAILBOX_DELETE_RATE_LIMIT_CAPACITY: u64 = 600;

pub const MAILBOX_DELETE_RATE_LIMIT_PERIOD: u64 = 20_000_000;

/// Bundle fetches of one target over one connection.
pub open spec fn fetch_limit() -> Limit {
    Limit { capacity: FETCH_RATE_LIMIT_CAPACITY, period: FETCH_RATE_LIMIT_PERIOD }
}

/// Mailboxes that one identity brings into being.
pub open spec fn new_mailbox_limit() -> Limit {
    Limit { capacity: NEW_MAILBOX_RATE_LIMIT_CAPACITY, period: NEW_MAILBOX_RATE_LIMIT_PERIOD }
}

/// Rendezvous frames that one identity sends.
pub open spec fn rendezvous_limit() -> Limit {
    Limit { capacity: RENDEZVOUS_RATE_LIMIT_CAPACITY, period: RENDEZVOUS_RATE_LIMIT_PERIOD }
}

/// Mailbox fetches that one identity makes.
pub open spec fn mailbox_fetch_limit() -> Limit {
    Limit { capacity: MAILBOX_FETCH_RATE_LIMIT_CAPACITY, period: MAILBOX_FETCH_RATE_LIMIT_PERIOD }
}

/// Mailbox deletes that one identity makes.
pub open spec fn mailbox_delete_limit() -> Limit {
    Limit { capacity: MAILBOX_DELETE_RATE_LIMIT_CAPACITY, period: MAILBOX_DELETE_RATE_LIMIT_PERIOD }
}

/// A key's credit, and when it was last brought up to date.
#[derive(Debug, Clone, Copy)]
pub struct RateBucket {
    pub credit: u64,
    pub last_refill: u64,
}

impl Limit {
    /// The credit of a full bucket.
    pub open spec fn full(&self) -> nat {
        (self.capacity * self.period) as nat
    }
}

/// Nanoseconds from `earlier` to `later`, and none where the clock stands before `earlier`.
pub open spec fn elapsed(earlier: u64, later: u64) -> nat {
    if later >= earlier {
        (later - earlier) as nat
    } else {
        0
    }
}

/// The credit at `now`: a key that has no bucket has a full one.
pub open spec fn refilled(bucket: Option<RateBucket>, limit: Limit, now: u64) -> nat {
    match bucket {
        None => limit.full(),
        Some(b) => if b.credit + elapsed(b.last_refill, now) > limit.full() {
            limit.full()
        } else {
            b.credit as nat + elapsed(b.last_refill, now)
        },
    }
}

/// Whether a request at `now` is let through.
pub open spec fn allowed(bucket: Option<RateBucket>, limit: Limit, now: u64) -> bool {
    refilled(bucket, limit, now) >= limit.period
}

/// The bucket after a request at `now`: a request that is let through has paid its price.
pub open spec fn charged(bucket: Option<RateBucket>, limit: Limit, now: u64) -> RateBucket {
    let credit = refilled(bucket, limit, now);
    RateBucket {
        credit: (if allowed(bucket, limit, now) {
            credit - limit.period
        } else {
            credit as int
        }) as u64,
        last_refill: now,
    }
}

/// The bucket table after a request of `key` at `now`.
pub open spec fn charge(
    buckets: Map<Seq<u8>, RateBucket>,
    key: Seq<u8>,
    limit: Limit,
    now: u64,
) -> Map<Seq<u8>, RateBucket> {
    buckets.insert(key, charged(lookup(buckets, key), limit, now))
}

/// The buckets that were used less than `older_than` before `now`.
pub open spec fn fresh_buckets(
    buckets: Map<Seq<u8>, RateBucket>,
    older_than: u64,
    now: u64,
) -> Map<Seq<u8>, RateBucket> {
    Map::new(
        |k: Seq<u8>| buckets.dom().contains(k) && elapsed(buckets[k].last_refill, now) < older_than,
        |k: Seq<u8>| buckets[k],
    )
}

/// Requests let through, out of requests of one key at the given times.
pub open spec fn allowed_count(bucket: Option<RateBucket>, limit: Limit, times: Seq<u64>) -> nat
    decreases times.len(),
{
    if times.len() == 0 {
        0
    } else {
        let rest = allowed_count(
            Some(charged(bucket, limit, times[0])),
            limit,
            times.drop_first(),
        );
        if allowed(bucket, limit, times[0]) {
            rest + 1
        } else {
            rest
        }
    }
}

fn charge_bucket(buckets: &mut ByteMap<RateBucket>, key: &[u8], limit: Limit, now: u64) -> (ok: bool)
    requires
        limit.full() <= u64::MAX,
    ensures
        ok == allowed(lookup(old(buckets)@, key@), limit, now),
        final(buckets)@ == charge(old(buckets)@, key@, limit, now),
{
    let full: u64 = limit.capacity * limit.period;
    let credit: u64 = match buckets.get(key) {
        None => full,
        Some(bucket) => {
            let grown: u64 = if now >= bucket.last_refill {
                now - bucket.last_refill
            } else {
                0
            };
            if bucket.credit >= full || grown >= full - bucket.credit {
                full
            } else {
                bucket.credit + grown
            }
        },
    };
    if credit >= limit.period {
        buckets.insert(key, RateBucket { credit: credit - limit.period, last_refill: now });
        true
    } else {
        buckets.insert(key, RateBucket { credit, last_refill: now });
        false
    }
}

fn drop_stale(buckets: &mut ByteMap<RateBucket>, older_than: u64, now: u64) -> (removed: usize)
    ensures
        final(buckets)@ == fresh_buckets(old(buckets)@, older_than, now),
        removed == old(buckets)@.len() - final(buckets)@.len(),
{
    buckets.layout();
    let mut marks: Vec<bool> = Vec::new();
    let n: usize = buckets.len();
    let mut i: usize = 0;
    while i < n
        invariant
            i <= n,
            n == buckets.key_seq().len(),
            marks@.len() == i,
            forall|j: int|
                0 <= j < i ==> marks@[j] == (elapsed(
                    (#[trigger] buckets.value_seq()[j]).last_refill,
                    now,
                ) < older_than),
        decreases n - i,
    {
        let last: u64 = buckets.value_at(i).last_refill;
        let idle: u64 = if now >= last {
            now - last
        } else {
            0
        };
        marks.push(idle < older_than);
        i = i + 1;
    }
    let removed: usize = buckets.retain_marked(&marks);
    buckets.layout();
    proof {
        let keys = old(buckets).key_seq();
        let target = fresh_buckets(old(buckets)@, older_than, now);
        assert forall|k: Seq<u8>| #[trigger] old(buckets)@.dom().contains(k) implies buckets@.dom().contains(k)
            == target.dom().contains(k) && (target.dom().contains(k) ==> buckets@[k] == target[k]) by {
            let p = position(keys, k);
            assert(0 <= p < keys.len() && keys[p] == k);
            assert(old(buckets)@[keys[p]] == old(buckets).value_seq()[p]);
        }
        assert(buckets@ =~= target);
    }
    removed
}

/// The key of a connection's fetches of one target.
pub open spec fn fetch_key(requester: Seq<u8>, target: Seq<u8>) -> Seq<u8> {
    requester + target
}

/// Different connections and targets never share a bucket.
pub proof fn law_fetch_keys_distinct(r1: Seq<u8>, t1: Seq<u8>, r2: Seq<u8>, t2: Seq<u8>)
    requires
        r1.len() == r2.len(),
    ensures
        fetch_key(r1, t1) == fetch_key(r2, t2) <==> r1 == r2 && t1 == t2,
{
    if fetch_key(r1, t1) == fetch_key(r2, t2) {
        assert(r1 =~= fetch_key(r1, t1).take(r1.len() as int));
        assert(r2 =~= fetch_key(r2, t2).take(r1.len() as int));
        assert(t1 =~= fetch_key(r1, t1).skip(r1.len() as int));
        assert(t2 =~= fetch_key(r2, t2).skip(r1.len() as int));
    }
}

/// Bundle fetches, limited for each connection and target.
pub struct FetchRateLimiter {
    buckets: ByteMap<RateBucket>,
}

impl View for FetchRateLimiter {
    type V = Map<Seq<u8>, RateBucket>;

    closed spec fn view(&self) -> Map<Seq<u8>, RateBucket> {
        self.buckets@
    }
}

impl Default for FetchRateLimiter {
    fn default() -> (limiter: FetchRateLimiter)
        ensures
            limiter@ == Map::<Seq<u8>, RateBucket>::empty(),
    {
        FetchRateLimiter { buckets: ByteMap::new() }
    }
}

impl FetchRateLimiter {
    /// Whether `requester` may fetch `target` now; counts the request if so.
    pub fn allow(&mut self, requester: ConnectionId, target: Fingerprint, now: u64) -> (ok: bool)
        ensures
            ok == allowed(lookup(old(self)@, fetch_key(requester@, target@)), fetch_limit(), now),
            final(self)@ == charge(old(self)@, fetch_key(requester@, target@), fetch_limit(), now),
    {
        let mut key: Vec<u8> = Vec::new();
        key.extend_from_slice(requester.as_slice());
        key.extend_from_slice(target.as_slice());
        assert(key@ =~= fetch_key(requester@, target@));
        let limit: Limit = Limit {
            capacity: FETCH_RATE_LIMIT_CAPACITY,
            period: FETCH_RATE_LIMIT_PERIOD,
        };
        charge_bucket(&mut self.buckets, key.as_slice(), limit, now)
    }

    /// Drops the buckets that have been idle for at least `older_than`. Returns how many.
    pub fn sweep_stale(&mut self, older_than: u64, now: u64) -> (removed: usize)
        ensures
            final(self)@ == fresh_buckets(old(self)@, older_than, now),
            removed == old(self)@.len() - final(self)@.len(),
    {
        drop_stale(&mut self.buckets, older_than, now)
    }

    /// How many buckets are held.
    pub fn len(&self) -> (n: usize)
        ensures
            n == self@.len(),
    {
        self.buckets.layout();
        self.buckets.len()
    }
}

/// Mailboxes brought into being, limited for each writer.
pub struct NewMailboxRateLimiter {
    buckets: ByteMap<RateBucket>,
}

impl View for NewMailboxRateLimiter {
    type V = Map<Seq<u8>, RateBucket>;

    closed spec fn view(&self) -> Map<Seq<u8>, RateBucket> {
        self.buckets@
    }
}

impl Default for NewMailboxRateLimiter {
    fn default() -> (limiter: NewMailboxRateLimiter)
        ensures
            limiter@ == Map::<Seq<u8>, RateBucket>::empty(),
    {
        NewMailboxRateLimiter { buckets: ByteMap::new() }
    }
}

impl NewMailboxRateLimiter {
    /// Whether `writer` may go on now; counts the request if so.
    pub fn allow(&mut self, writer: Fingerprint, now: u64) -> (ok: bool)
        ensures
            ok == allowed(lookup(old(self)@, writer@), new_mailbox_limit(), now),
            final(self)@ == charge(old(self)@, writer@, new_mailbox_limit(), now),
    {
        let limit: Limit = Limit {
            capacity: NEW_MAILBOX_RATE_LIMIT_CAPACITY,
            period: NEW_MAILBOX_RATE_LIMIT_PERIOD,
        };
        charge_bucket(&mut self.buckets, writer.as_slice(), limit, now)
    }

    /// Drops the buckets that have been idle for at least `older_than`. Returns how many.
    pub fn sweep_stale(&mut self, older_than: u64, now: u64) -> (removed: usize)
        ensures
            final(self)@ == fresh_buckets(old(self)@, older_than, now),
            removed == old(self)@.len() - final(self)@.len(),
    {
        drop_stale(&mut self.buckets, older_than, now)
    }

    /// How many buckets are held.
    pub fn len(&self) -> (n: usize)
        ensures
            n == self@.len(),
    {
        self.buckets.layout();
        self.buckets.len()
    }
}

/// Rendezvous frames, limited for each sender.
pub struct RendezvousRateLimiter {
    buckets: ByteMap<RateBucket>,
}

impl View for RendezvousRateLimiter {
    type V = Map<Seq<u8>, RateBucket>;

    closed spec fn view(&self) -> Map<Seq<u8>, RateBucket> {
        self.buckets@
    }
}

impl Default for RendezvousRateLimiter {
    fn default() -> (limiter: RendezvousRateLimiter)
        ensures
            limiter@ == Map::<Seq<u8>, RateBucket>::empty(),
    {
        RendezvousRateLimiter { buckets: ByteMap::new() }
    }
}

impl RendezvousRateLimiter {
    /// Whether `sender` may go on now; counts the request if so.
    pub fn allow(&mut self, sender: Fingerprint, now: u64) -> (ok: bool)
        ensures
            ok == allowed(lookup(old(self)@, sender@), rendezvous_limit(), now),
            final(self)@ == charge(old(self)@, sender@, rendezvous_limit(), now),
    {
        let limit: Limit = Limit {
            capacity: RENDEZVOUS_RATE_LIMIT_CAPACITY,
            period: RENDEZVOUS_RATE_LIMIT_PERIOD,
        };
        charge_bucket(&mut self.buckets, sender.as_slice(), limit, now)
    }

    /// Drops the buckets that have been idle for at least `older_than`. Returns how many.
    pub fn sweep_stale(&mut self, older_than: u64, now: u64) -> (removed: usize)
        ensures
            final(self)@ == fresh_buckets(old(self)@, older_than, now),
            removed == old(self)@.len() - final(self)@.len(),
    {
        drop_stale(&mut self.buckets, older_than, now)
    }

    /// How many buckets are held.
    pub fn len(&self) -> (n: usize)
        ensures
            n == self@.len(),
    {
        self.buckets.layout();
        self.buckets.len()
    }
}

/// Mailbox fetches, limited for each fetcher.
pub struct MailboxFetchRateLimiter {
    buckets: ByteMap<RateBucket>,
}

impl View for MailboxFetchRateLimiter {
    type V = Map<Seq<u8>, RateBucket>;

    closed spec fn view(&self) -> Map<Seq<u8>, RateBucket> {
        self.buckets@
    }
}

impl Default for MailboxFetchRateLimiter {
    fn default() -> (limiter: MailboxFetchRateLimiter)
        ensures
            limiter@ == Map::<Seq<u8>, RateBucket>::empty(),
    {
        MailboxFetchRateLimiter { buckets: ByteMap::new() }
    }
}

impl MailboxFetchRateLimiter {
    /// Whether `fetcher` may go on now; counts the request if so.
    pub fn allow(&mut self, fetcher: Fingerprint, now: u64) -> (ok: bool)
        ensures
            ok == allowed(lookup(old(self)@, fetcher@), mailbox_fetch_limit(), now),
            final(self)@ == charge(old(self)@, fetcher@, mailbox_fetch_limit(), now),
    {
        let limit: Limit = Limit {
            capacity: MAILBOX_FETCH_RATE_LIMIT_CAPACITY,
            period: MAILBOX_FETCH_RATE_LIMIT_PERIOD,
        };
        charge_bucket(&mut self.buckets, fetcher.as_slice(), limit, now)
    }

    /// Drops the buckets that have been idle for at least `older_than`. Returns how many.
    pub fn sweep_stale(&mut self, older_than: u64, now: u64) -> (removed: usize)
        ensures
            final(self)@ == fresh_buckets(old(self)@, older_than, now),
            removed == old(self)@.len() - final(self)@.len(),
    {
        drop_stale(&mut self.buckets, older_than, now)
    }

    /// How many buckets are held.
    pub fn len(&self) -> (n: usize)
        ensures
            n == self@.len(),
    {
        self.buckets.layout();
        self.buckets.len()
    }
}

/// Mailbox deletes, limited for each deleter.
pub struct MailboxDeleteRateLimiter {
    buckets: ByteMap<RateBucket>,
}

impl View for MailboxDeleteRateLimiter {
    type V = Map<Seq<u8>, RateBucket>;

    closed spec fn view(&self) -> Map<Seq<u8>, RateBucket> {
        self.buckets@
    }
}

impl Default for MailboxDeleteRateLimiter {
    fn default() -> (limiter: MailboxDeleteRateLimiter)
        ensures
            limiter@ == Map::<Seq<u8>, RateBucket>::empty(),
    {
        MailboxDeleteRateLimiter { buckets: ByteMap::new() }
    }
}

impl MailboxDeleteRateLimiter {
    /// Whether `deleter` may go on now; counts the request if so.
    pub fn allow(&mut self, deleter: Fingerprint, now: u64) -> (ok: bool)
        ensures
            ok == allowed(lookup(old(self)@, deleter@), mailbox_delete_limit(), now),
            final(self)@ == charge(old(self)@, deleter@, mailbox_delete_limit(), now),
    {
        let limit: Limit = Limit {
            capacity: MAILBOX_DELETE_RATE_LIMIT_CAPACITY,
            period: MAILBOX_DELETE_RATE_LIMIT_PERIOD,
        };
        charge_bucket(&mut self.buckets, deleter.as_slice(), limit, now)
    }

    /// Drops the buckets that have been idle for at least `older_than`. Returns how many.
    pub fn sweep_stale(&mut self, older_than: u64, now: u64) -> (removed: usize)
        ensures
            final(self)@ == fresh_buckets(old(self)@, older_than, now),
            removed == old(self)@.len() - final(self)@.len(),
    {
        drop_stale(&mut self.buckets, older_than, now)
    }

    /// How many buckets are held.
    pub fn len(&self) -> (n: usize)
        ensures
            n == self@.len(),
    {
        self.buckets.layout();
        self.buckets.len()
    }
}

/// A fresh key gets exactly its capacity through at one moment, and nothing beyond it.
pub proof fn law_burst_is_capacity(limit: Limit, now: u64, n: nat)
    requires
        limit.period > 0,
        limit.full() <= u64::MAX,
    ensures
        allowed_count(None, limit, Seq::new(n, |i: int| now)) == if n <= limit.capacity {
            n
        } else {
            limit.capacity as nat
        },
{
    if n > 0 {
        let times = Seq::new(n, |i: int| now);
        let first = charged(None, limit, now);
        assert(times.drop_first() =~= Seq::new((n - 1) as nat, |i: int| now));
        if limit.capacity == 0 {
            assert(limit.full() == 0);
            lemma_burst_from(first, limit, now, (n - 1) as nat, 0);
        } else {
            assert(limit.full() == (limit.capacity - 1) * limit.period + limit.period
                && limit.full() >= limit.period) by (nonlinear_arith)
                requires
                    limit.full() == limit.capacity * limit.period,
                    limit.capacity >= 1,
            ;
            lemma_burst_from(first, limit, now, (n - 1) as nat, (limit.capacity - 1) as nat);
        }
    }
}

proof fn lemma_burst_from(bucket: RateBucket, limit: Limit, now: u64, n: nat, tokens: nat)
    requires
        limit.period > 0,
        limit.full() <= u64::MAX,
        bucket.last_refill == now,
        bucket.credit == tokens * limit.period,
        bucket.credit <= limit.full(),
    ensures
        allowed_count(Some(bucket), limit, Seq::new(n, |i: int| now)) == if n <= tokens {
            n
        } else {
            tokens
        },
    decreases n,
{
    if n > 0 {
        let times = Seq::new(n, |i: int| now);
        let next = charged(Some(bucket), limit, now);
        assert(times.drop_first() =~= Seq::new((n - 1) as nat, |i: int| now));
        if tokens > 0 {
            assert(tokens * limit.period == (tokens - 1) * limit.period + limit.period && tokens
                * limit.period >= limit.period) by (nonlinear_arith)
                requires
                    tokens >= 1,
            ;
            lemma_burst_from(next, limit, now, (n - 1) as nat, (tokens - 1) as nat);
        } else {
            assert(tokens * limit.period == 0);
            lemma_burst_from(next, limit, now, (n - 1) as nat, 0);
        }
    }
}

/// Over any span of time a key gets no more through than its capacity and what grew back
/// during that span.
pub proof fn law_rate_is_bounded(bucket: Option<RateBucket>, limit: Limit, times: Seq<u64>)
    requires
        limit.full() <= u64::MAX,
        times.len() > 0,
        forall|i: int, j: int| 0 <= i <= j < times.len() ==> times[i] <= times[j],
    ensures
        allowed_count(bucket, limit, times) * limit.period <= limit.full() + (times.last()
            - times[0]),
{
    lemma_rate_from(bucket, limit, times);
    let first = refilled(bucket, limit, times[0]);
    assert(first <= limit.full());
}

proof fn lemma_rate_from(bucket: Option<RateBucket>, limit: Limit, times: Seq<u64>)
    requires
        limit.full() <= u64::MAX,
        times.len() > 0,
        forall|i: int, j: int| 0 <= i <= j < times.len() ==> times[i] <= times[j],
    ensures
        allowed_count(bucket, limit, times) * limit.period <= refilled(bucket, limit, times[0]) + (
        times.last() - times[0]),
    decreases times.len(),
{
    let next = charged(bucket, limit, times[0]);
    let rest = times.drop_first();
    let tail = allowed_count(Some(next), limit, rest);
    assert((tail + 1) * limit.period == tail * limit.period + limit.period) by (nonlinear_arith);
    if rest.len() > 0 {
        assert forall|i: int, j: int| 0 <= i <= j < rest.len() implies rest[i] <= rest[j] by {
            assert(times[i + 1] <= times[j + 1]);
        }
        lemma_rate_from(Some(next), limit, rest);
        assert(rest.last() == times.last());
        assert(times[0] <= times[1]);
        assert(rest[0] == times[1]);
    } else {
        assert(tail == 0);
        assert(0 * limit.period == 0);
        assert(times.last() == times[0]);
    }
}

/// A request of one key leaves the buckets of all others as they were.
pub proof fn law_keys_are_independent(
    buckets: Map<Seq<u8>, RateBucket>,
    key: Seq<u8>,
    other: Seq<u8>,
    limit: Limit,
    now: u64,
)
    requires
        key != other,
    ensures
        lookup(charge(buckets, key, limit, now), other) == lookup(buckets, other),
{
}

/// Dropping buckets that have been idle for as long as a bucket takes to fill up changes
/// nothing that a client can observe: every later request is answered, and charged, the same.
pub proof fn law_sweep_is_unobservable(
    buckets: Map<Seq<u8>, RateBucket>,
    key: Seq<u8>,
    limit: Limit,
    older_than: u64,
    swept_at: u64,
    now: u64,
)
    requires
        limit.full() <= older_than,
        swept_at <= now,
    ensures
        allowed(lookup(fresh_buckets(buckets, older_than, swept_at), key), limit, now) == allowed(
            lookup(buckets, key),
            limit,
            now,
        ),
        charged(lookup(fresh_buckets(buckets, older_than, swept_at), key), limit, now) == charged(
            lookup(buckets, key),
            limit,
            now,
        ),
{
}

/// The number of leading zero bits that a registration hash must have.
pub const REGISTRATION_POW_DIFFICULTY_BITS: u32 = 12;

/// The SHA-256 hash of a byte string.
pub uninterp spec fn sha256(bytes: Seq<u8>) -> Seq<u8>;

/// `sha2::Sha256::digest`. Claimed of it: the result is a function of the bytes alone, called
/// `sha256` in this crate's contracts.
#[verifier::external_body]
fn sha256_digest(bytes: &[u8]) -> (hash: [u8; 32])
    ensures
        hash@ == sha256(bytes@),
{
    Sha256::digest(bytes).into()
}

/// What a registration hash is taken over.
pub open spec fn pow_preimage(
    username: Seq<char>,
    discriminator: u16,
    identity_key: Seq<u8>,
    solution: u64,
) -> Seq<u8> {
    encode_utf8("dratchet-registration-pow-v1"@) + encode_utf8(username) + be_16(discriminator)
        + identity_key + be_64(solution)
}

/// The number of zero bits before the first one bit, most significant bit of the first byte
/// first.
pub open spec fn leading_zeros_of(bytes: Seq<u8>) -> nat
    decreases bytes.len(),
{
    if bytes.len() == 0 {
        0
    } else if bytes[0] == 0 {
        8 + leading_zeros_of(bytes.drop_first())
    } else {
        bytes[0].leading_zeros() as nat
    }
}

/// Whether `solution` is a proof of work for the handle and the identity.
pub open spec fn is_pow(
    username: Seq<char>,
    discriminator: u16,
    identity_key: Seq<u8>,
    solution: u64,
) -> bool {
    leading_zeros_of(sha256(pow_preimage(username, discriminator, identity_key, solution)))
        >= REGISTRATION_POW_DIFFICULTY_BITS
}

fn pow_hash(username: &str, discriminator: u16, identity_key: &[u8], solution: u64) -> (hash: [u8; 32])
    ensures
        hash@ == sha256(pow_preimage(username@, discriminator, identity_key@, solution)),
{
    let mut input: Vec<u8> = Vec::new();
    input.extend_from_slice("dratchet-registration-pow-v1".as_bytes());
    input.extend_from_slice(username.as_bytes());
    push_be_16(&mut input, discriminator);
    input.extend_from_slice(identity_key);
    push_be_64(&mut input, solution);
    assert(input@ =~= pow_preimage(username@, discriminator, identity_key@, solution));
    sha256_digest(input.as_slice())
}

fn leading_zero_bits(hash: &[u8; 32]) -> (bits: u32)
    ensures
        bits == leading_zeros_of(hash@),
{
    broadcast use vstd::std_specs::bits::axiom_u8_leading_zeros;

    let mut bits: u32 = 0;
    let mut i: usize = 0;
    assert(hash@.skip(0) =~= hash@);
    while i < 32
        invariant
            i <= 32,
            bits == 8 * i,
            leading_zeros_of(hash@) == bits + leading_zeros_of(hash@.skip(i as int)),
        decreases 32 - i,
    {
        let byte: u8 = hash[i];
        proof {
            assert(hash@.skip(i as int)[0] == byte);
            assert(hash@.skip(i as int).drop_first() =~= hash@.skip(i + 1));
        }
        if byte != 0 {
            return bits + byte.leading_zeros();
        }
        bits = bits + 8;
        i = i + 1;
    }
    bits
}

/// Whether `solution` is a proof of work for the handle and the identity.
pub fn verify_registration_pow(
    username: &str,
    discriminator: u16,
    identity_key: &[u8],
    solution: u64,
) -> (ok: bool)
    ensures
        ok == is_pow(username@, discriminator, identity_key@, solution),
{
    leading_zero_bits(&pow_hash(username, discriminator, identity_key, solution))
        >= REGISTRATION_POW_DIFFICULTY_BITS
}

/// The least proof of work for the handle and the identity.
pub fn solve_registration_pow(username: &str, discriminator: u16, identity_key: &[u8]) -> (solution: u64)
    requires
        exists|s: u64| is_pow(username@, discriminator, identity_key@, s),
    ensures
        is_pow(username@, discriminator, identity_key@, solution),
        forall|s: u64| s < solution ==> !is_pow(username@, discriminator, identity_key@, s),
{
    let ghost known = choose|s: u64| is_pow(username@, discriminator, identity_key@, s);
    let mut solution: u64 = 0;
    while !verify_registration_pow(username, discriminator, identity_key, solution)
        invariant
            is_pow(username@, discriminator, identity_key@, known),
            solution <= known,
            forall|s: u64| s < solution ==> !is_pow(username@, discriminator, identity_key@, s),
        decreases known - solution,
    {
        solution = solution + 1;
    }
    solution
}

/// The least proof of work for the handle and the identity, where `known` is one.
pub fn least_registration_pow(
    username: &str,
    discriminator: u16,
    identity_key: &[u8],
    known: u64,
) -> (solution: Option<u64>)
    ensures
        solution is Some <==> is_pow(username@, discriminator, identity_key@, known),
        solution matches Some(least) ==> is_pow(username@, discriminator, identity_key@, least) && (
        forall|s: u64| s < least ==> !is_pow(username@, discriminator, identity_key@, s)),
{
    if verify_registration_pow(username, discriminator, identity_key, known) {
        Some(solve_registration_pow(username, discriminator, identity_key))
    } else {
        None
    }
}

/// Credit after a request and a while: what was left once the request was paid for, if it was
/// let through, and a nanosecond for each that has passed, up to what the capacity costs. A
/// request that is turned away costs nothing, and a clock that goes back brings nothing.
pub proof fn law_credit_grows_with_time(
    bucket: Option<RateBucket>,
    limit: Limit,
    now: u64,
    later: u64,
)
    requires
        limit.capacity * limit.period <= u64::MAX,
    ensures
        ({
            let full = limit.capacity * limit.period;
            let before = refilled(bucket, limit, now) as int;
            let left = if before >= limit.period {
                before - limit.period
            } else {
                before
            };
            let grown = left + if later >= now {
                later - now
            } else {
                0
            };
            let after = refilled(Some(charged(bucket, limit, now)), limit, later) as int;
            &&& bucket is None ==> before == full
            &&& allowed(bucket, limit, now) <==> before >= limit.period
            &&& after == if grown <= full {
                grown
            } else {
                full
            }
        }),
{
}

/// A key that has been turned away, or has just used up its credit, is let through again once
/// it has waited for one period.
pub proof fn law_a_period_brings_a_request(
    bucket: Option<RateBucket>,
    limit: Limit,
    now: u64,
    later: u64,
)
    requires
        limit.capacity > 0,
        limit.capacity * limit.period <= u64::MAX,
        now + limit.period <= later,
    ensures
        allowed(Some(charged(bucket, limit, now)), limit, later),
{
    law_credit_grows_with_time(bucket, limit, now, later);
    assert(limit.capacity * limit.period >= limit.period) by (nonlinear_arith)
        requires
            limit.capacity > 0,
    ;
}

/// A request is charged to its own key, and its bucket is brought up to date then.
pub proof fn law_a_request_is_charged_to_its_key(
    buckets: Map<Seq<u8>, RateBucket>,
    key: Seq<u8>,
    limit: Limit,
    now: u64,
)
    ensures
        ({
            let after = charge(buckets, key, limit, now);
            let bucket = if buckets.dom().contains(key) {
                Some(buckets[key])
            } else {
                None
            };
            after == buckets.insert(key, charged(bucket, limit, now))
        }),
        charge(buckets, key, limit, now)[key].last_refill == now,
{
}

/// A bucket survives dropping the stale ones exactly where it was used less than the given time
/// ago, and then as it was.
pub proof fn law_only_idle_buckets_are_dropped(
    buckets: Map<Seq<u8>, RateBucket>,
    older_than: u64,
    now: u64,
    key: Seq<u8>,
)
    ensures
        fresh_buckets(buckets, older_than, now).dom().contains(key) <==> buckets.dom().contains(key)
            && older_than > 0 && now < buckets[key].last_refill + older_than,
        fresh_buckets(buckets, older_than, now).dom().contains(key) ==> fresh_buckets(
            buckets,
            older_than,
            now,
        )[key] == buckets[key],
{
}

/// The places of a 64-bit number in base 256.
pub proof fn lemma_be_64_by_places(n: u64)
    ensures
        be_64(n) == seq![
            (n / 0x100_0000_0000_0000) as u8,
            (n / 0x1_0000_0000_0000 % 256) as u8,
            (n / 0x100_0000_0000 % 256) as u8,
            (n / 0x1_0000_0000 % 256) as u8,
            (n / 0x100_0000 % 256) as u8,
            (n / 0x1_0000 % 256) as u8,
            (n / 0x100 % 256) as u8,
            (n % 256) as u8,
        ],
{
    assert(((n >> 56u64) & 0xff) as u8 == (n / 0x100_0000_0000_0000) as u8) by (bit_vector);
    assert(((n >> 48u64) & 0xff) as u8 == (n / 0x1_0000_0000_0000 % 256) as u8) by (bit_vector);
    assert(((n >> 40u64) & 0xff) as u8 == (n / 0x100_0000_0000 % 256) as u8) by (bit_vector);
    assert(((n >> 32u64) & 0xff) as u8 == (n / 0x1_0000_0000 % 256) as u8) by (bit_vector);
    assert(((n >> 24u64) & 0xff) as u8 == (n / 0x100_0000 % 256) as u8) by (bit_vector);
    assert(((n >> 16u64) & 0xff) as u8 == (n / 0x1_0000 % 256) as u8) by (bit_vector);
    assert(((n >> 8u64) & 0xff) as u8 == (n / 0x100 % 256) as u8) by (bit_vector);
    assert(((n >> 0u64) & 0xff) as u8 == (n % 256) as u8) by (bit_vector);
}

proof fn lemma_four_zero_bits(b: u8)
    ensures
        b.leading_zeros() >= 4 <==> b < 16,
        b.leading_zeros() <= 8,
        b != 0 ==> b.leading_zeros() < 8,
{
    vstd::std_specs::bits::axiom_u8_leading_zeros(b);
    let zeros = b.leading_zeros() as u8;
    if zeros >= 4 {
        let shift: u8 = (8 - zeros) as u8;
        assert(b >> shift == 0);
        assert(b < 16) by (bit_vector)
            requires
                b >> shift == 0,
                shift <= 4,
        ;
    } else {
        let shift: u8 = (7 - zeros) as u8;
        assert((b >> shift) & 1u8 != 0u8);
        assert(b >= 16) by (bit_vector)
            requires
                (b >> shift) & 1u8 != 0u8,
                4 <= shift < 8,
        ;
    }
}

proof fn lemma_twelve_zero_bits(hash: Seq<u8>)
    requires
        hash.len() == 32,
    ensures
        leading_zeros_of(hash) >= 12 <==> hash[0] == 0 && hash[1] < 16,
{
    let rest = hash.drop_first();
    assert(rest[0] == hash[1]);
    lemma_four_zero_bits(hash[1]);
    lemma_four_zero_bits(hash[0]);
    assert(leading_zeros_of(rest) >= 4 <==> hash[1] < 16) by {
        assert(hash[1] == 0 ==> leading_zeros_of(rest) >= 8);
    }
}

/// A proof of work is a number for which the first twelve bits of the hash are zero, where the
/// hash is taken over the fixed label, the username, the discriminator, the key and the number,
/// both numbers with their most significant byte first.
pub proof fn law_a_proof_of_work_is_twelve_zero_bits(
    username: Seq<char>,
    discriminator: u16,
    identity_key: Seq<u8>,
    solution: u64,
)
    ensures
        ({
            let hash = sha256(
                encode_utf8("dratchet-registration-pow-v1"@) + encode_utf8(username) + seq![
                    (discriminator / 256) as u8,
                    (discriminator % 256) as u8,
                ] + identity_key + seq![
                    (solution / 0x100_0000_0000_0000) as u8,
                    (solution / 0x1_0000_0000_0000 % 256) as u8,
                    (solution / 0x100_0000_0000 % 256) as u8,
                    (solution / 0x1_0000_0000 % 256) as u8,
                    (solution / 0x100_0000 % 256) as u8,
                    (solution / 0x1_0000 % 256) as u8,
                    (solution / 0x100 % 256) as u8,
                    (solution % 256) as u8,
                ],
            );
            hash.len() == 32 ==> (is_pow(username, discriminator, identity_key, solution)
                <==> hash[0] == 0 && hash[1] < 16)
        }),
{
    lemma_be_64_by_places(solution);
    let hash = sha256(pow_preimage(username, discriminator, identity_key, solution));
    if hash.len() == 32 {
        lemma_twelve_zero_bits(hash);
    }
}

} // verus!
