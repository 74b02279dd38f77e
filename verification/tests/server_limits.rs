use dratchet::server::abuse::{
    least_registration_pow, solve_registration_pow, verify_registration_pow, FetchRateLimiter,
    MailboxDeleteRateLimiter, MailboxFetchRateLimiter, NewMailboxRateLimiter,
    RendezvousRateLimiter, FETCH_RATE_LIMIT_CAPACITY, MAILBOX_DELETE_RATE_LIMIT_CAPACITY,
    MAILBOX_FETCH_RATE_LIMIT_CAPACITY, NEW_MAILBOX_RATE_LIMIT_CAPACITY,
    RENDEZVOUS_RATE_LIMIT_CAPACITY,
};
use dratchet::server::error::Error;
use dratchet::server::protocol::{encode, split_tag, FrameTag};
use sha2::Digest;

const SECOND: u64 = 1_000_000_000;

#[test]
fn solved_proof_of_work_verifies() {
    let solution = solve_registration_pow("alice", 1, &[7u8; 32]);
    assert!(verify_registration_pow("alice", 1, &[7u8; 32], solution));
}

#[test]
fn a_solution_does_not_transfer_to_a_different_username_discriminator_or_identity() {
    let solution = solve_registration_pow("alice", 1, &[7u8; 32]);
    assert!(!verify_registration_pow("bob", 1, &[7u8; 32], solution));
    assert!(!verify_registration_pow("alice", 2, &[7u8; 32], solution));
    assert!(!verify_registration_pow("alice", 1, &[8u8; 32], solution));
}

#[test]
fn the_solution_is_the_least_one_and_hashes_to_twelve_zero_bits() {
    let solution = solve_registration_pow("alice", 1, &[7u8; 32]);
    for s in 0..solution {
        assert!(!verify_registration_pow("alice", 1, &[7u8; 32], s));
    }
    let mut input = b"dratchet-registration-pow-v1alice".to_vec();
    input.extend_from_slice(&1u16.to_be_bytes());
    input.extend_from_slice(&[7u8; 32]);
    input.extend_from_slice(&solution.to_be_bytes());
    let hash = sha2::Sha256::digest(&input);
    assert_eq!(hash[0], 0);
    assert_eq!(hash[1] >> 4, 0);
    assert_eq!(least_registration_pow("alice", 1, &[7u8; 32], solution), Some(solution));
    let wrong = (0..).find(|s| !verify_registration_pow("alice", 1, &[7u8; 32], *s)).unwrap();
    assert_eq!(least_registration_pow("alice", 1, &[7u8; 32], wrong), None);
}

#[test]
fn fetch_rate_limiter_allows_a_burst_then_rejects() {
    let mut limiter = FetchRateLimiter::default();
    let requester = [1u8; 16];
    let target = [2u8; 32];
    for _ in 0..FETCH_RATE_LIMIT_CAPACITY as u32 {
        assert!(limiter.allow(requester, target, 0));
    }
    assert!(
        !limiter.allow(requester, target, 0),
        "burst beyond capacity should be rejected"
    );
}

#[test]
fn fetch_rate_limiter_tracks_targets_independently() {
    let mut limiter = FetchRateLimiter::default();
    let requester = [1u8; 16];
    for _ in 0..FETCH_RATE_LIMIT_CAPACITY as u32 {
        assert!(limiter.allow(requester, [2u8; 32], 0));
    }
    assert!(
        limiter.allow(requester, [3u8; 32], 0),
        "a different target has its own budget"
    );
}

#[test]
fn sweep_stale_removes_buckets_idle_past_the_threshold_but_keeps_recently_used_ones() {
    let mut limiter = FetchRateLimiter::default();
    let just_created = 5 * SECOND;
    limiter.allow([1u8; 16], [2u8; 32], just_created);
    limiter.allow([9u8; 16], [2u8; 32], just_created);
    assert_eq!(limiter.len(), 2);

    let threshold = 600 * SECOND;
    let removed = limiter.sweep_stale(threshold, just_created + threshold / 2);
    assert_eq!(removed, 0, "buckets younger than the staleness threshold must survive");
    assert_eq!(limiter.len(), 2);

    let removed = limiter.sweep_stale(threshold, just_created + threshold * 2);
    assert_eq!(removed, 2, "buckets idle well past the staleness threshold must be swept");
    assert_eq!(limiter.len(), 0);
}

#[test]
fn fetch_rate_limiter_tracks_requesters_independently() {
    let mut limiter = FetchRateLimiter::default();
    let target = [2u8; 32];
    for _ in 0..FETCH_RATE_LIMIT_CAPACITY as u32 {
        assert!(limiter.allow([1u8; 16], target, 0));
    }
    assert!(
        limiter.allow([9u8; 16], target, 0),
        "a different requester has its own budget"
    );
}

#[test]
fn new_mailbox_rate_limiter_allows_a_burst_then_rejects() {
    let mut limiter = NewMailboxRateLimiter::default();
    let writer = [1u8; 32];
    for _ in 0..NEW_MAILBOX_RATE_LIMIT_CAPACITY as u32 {
        assert!(limiter.allow(writer, 0));
    }
    assert!(!limiter.allow(writer, 0), "burst beyond capacity should be rejected");
}

#[test]
fn new_mailbox_rate_limiter_tracks_writers_independently() {
    let mut limiter = NewMailboxRateLimiter::default();
    for _ in 0..NEW_MAILBOX_RATE_LIMIT_CAPACITY as u32 {
        assert!(limiter.allow([1u8; 32], 0));
    }
    assert!(limiter.allow([9u8; 32], 0), "a different writer has its own budget");
}

#[test]
fn new_mailbox_rate_limiter_sweep_stale_removes_idle_buckets() {
    let mut limiter = NewMailboxRateLimiter::default();
    limiter.allow([1u8; 32], 0);
    limiter.allow([9u8; 32], 0);
    assert_eq!(limiter.len(), 2);

    let threshold = 600 * SECOND;
    let removed = limiter.sweep_stale(threshold, threshold * 2);
    assert_eq!(removed, 2);
    assert_eq!(limiter.len(), 0);
}

#[test]
fn the_other_limiters_have_their_own_capacities() {
    let mut rendezvous = RendezvousRateLimiter::default();
    let mut fetch = MailboxFetchRateLimiter::default();
    let mut delete = MailboxDeleteRateLimiter::default();
    let who = [1u8; 32];
    assert_eq!((0..1000).filter(|_| rendezvous.allow(who, 0)).count(), 10);
    assert_eq!((0..1000).filter(|_| fetch.allow(who, 0)).count(), 600);
    assert_eq!((0..1000).filter(|_| delete.allow(who, 0)).count(), 600);
    assert_eq!(RENDEZVOUS_RATE_LIMIT_CAPACITY, 10);
    assert_eq!(MAILBOX_FETCH_RATE_LIMIT_CAPACITY, 600);
    assert_eq!(MAILBOX_DELETE_RATE_LIMIT_CAPACITY, 600);
    assert_eq!((rendezvous.len(), fetch.len(), delete.len()), (1, 1, 1));
    assert_eq!(rendezvous.sweep_stale(SECOND, SECOND), 1);
    assert_eq!(fetch.sweep_stale(SECOND, SECOND / 2), 0);
    assert_eq!(delete.sweep_stale(0, 0), 1);
}

#[test]
fn credit_grows_back_one_request_for_each_period() {
    let mut limiter = FetchRateLimiter::default();
    for _ in 0..5 {
        assert!(limiter.allow([1; 16], [2; 32], 0));
    }
    assert!(!limiter.allow([1; 16], [2; 32], 5 * SECOND - 1));
    assert!(limiter.allow([1; 16], [2; 32], 5 * SECOND));
    assert!(!limiter.allow([1; 16], [2; 32], 5 * SECOND));
    let mut fetch = MailboxFetchRateLimiter::default();
    for _ in 0..600 {
        assert!(fetch.allow([1; 32], 0));
    }
    assert_eq!((0..100).filter(|_| fetch.allow([1; 32], SECOND)).count(), 50);
}

#[test]
fn over_a_long_time_no_more_than_the_rate_gets_through() {
    let mut limiter = RendezvousRateLimiter::default();
    let end = 1000 * SECOND;
    let passed = (0..=10_000u64).filter(|i| limiter.allow([1; 32], i * end / 10_000)).count();
    assert_eq!(passed, 10 + 1000 / 5);
}

#[test]
fn sweeping_full_buckets_changes_no_answer() {
    let mut swept = NewMailboxRateLimiter::default();
    let mut kept = NewMailboxRateLimiter::default();
    for i in 0..25u64 {
        assert_eq!(swept.allow([1; 32], i), kept.allow([1; 32], i));
    }
    let later = 24 + 600 * SECOND;
    assert_eq!(swept.sweep_stale(600 * SECOND, later), 1);
    for _ in 0..25 {
        assert_eq!(swept.allow([1; 32], later), kept.allow([1; 32], later));
    }
}

#[test]
fn empty_frame_is_rejected_not_panicking() {
    assert!(split_tag(&[]).is_err());
    assert!(matches!(split_tag(&[]), Err(Error::MalformedFrame("empty frame"))));
}

#[test]
fn unknown_tag_is_rejected() {
    assert!(split_tag(&[0xFF, 1, 2, 3]).is_err());
    assert!(matches!(split_tag(&[0, 1]), Err(Error::MalformedFrame("unknown frame tag"))));
}

#[test]
fn every_tag_survives_a_frame() {
    for byte in 0..=255u8 {
        match FrameTag::from_u8(byte) {
            Some(tag) => {
                assert_eq!(tag.to_u8(), byte);
                let frame = encode(tag, &[1, 2, 3]);
                assert_eq!(frame, vec![byte, 1, 2, 3]);
                assert!(matches!(split_tag(&frame), Ok((t, [1, 2, 3])) if t == tag));
            }
            None => assert!(byte == 0 || byte > 0x12),
        }
    }
    assert_eq!(FrameTag::AuthChallenge.to_u8(), 0x01);
    assert_eq!(FrameTag::Error.to_u8(), 0x10);
}

#[test]
fn every_refusal_has_its_text() {
    let texts = [
        (Error::MalformedFrame("x"), "malformed frame: x"),
        (Error::AuthRequired, "authentication required for this operation"),
        (Error::AuthFailed, "authentication failed"),
        (Error::AlreadyAuthenticated, "connection is already authenticated"),
        (Error::InvalidBundle("y"), "bundle is not internally consistent: y"),
        (Error::UsernameTaken, "username is already registered to a different identity"),
        (
            Error::ProofOfWorkRequired,
            "registering a new username requires a valid proof-of-work solution",
        ),
        (Error::RateLimited, "rate limit exceeded for this target, try again shortly"),
        (Error::NotFound, "not found"),
        (Error::NotMailboxOwner, "this mailbox belongs to a different identity"),
        (Error::EnvelopeTooLarge, "envelope exceeds the maximum allowed size"),
        (
            Error::MailboxFull,
            "mailbox is full, try again once existing entries are collected",
        ),
        (
            Error::WriterQuotaExceeded,
            "you have already written your share of this mailbox's capacity",
        ),
        (
            Error::NewMailboxRateLimited,
            "rate limit exceeded for creating new mailboxes, try again shortly",
        ),
        (Error::TooManyOneTimePrekeys, "too many one-time prekeys in a single publish"),
        (Error::UsernameTooLong, "username exceeds the maximum allowed length"),
        (
            Error::UsernameInvalidCharacters,
            "username may only contain ASCII letters, digits, '_', and '-'",
        ),
        (Error::SdpTooLarge, "SDP payload exceeds the maximum allowed length"),
        (Error::IceCandidatesInvalid, "too many or too large ICE candidates"),
    ];
    for (error, text) in texts {
        assert_eq!(error.message(), text);
    }
}
