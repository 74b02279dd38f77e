//! What each request leads to, in terms of what was sent, what was stored and what is answered.

use vstd::prelude::*;
use vstd::utf8::encode_utf8;
use crate::map::{in_order, keys_sorted, lemma_in_order_of_finite, lookup};
use super::abuse::{allowed, charge, is_pow, Limit};
use super::action::{ActionView, EntryWireView, FrameView, KeyFacts, Request};
use super::error::Error;
use super::protocol::{
    AuthResponse, FetchBundle, FetchOwnPrekeyCount, FrameTag, MailboxDelete, MailboxFetch,
    MailboxWrite, OneTimePrekeyWire, PresenceAnnounce, PresenceSubscribe, PublishBundle,
    RendezvousAnswer, RendezvousOffer,
};
use super::state::{
    is_least_id, law_pool_hands_out_until_empty, next_prekey, prekey_pool, unexpired, EntryView,
    InnerView, OneTimePrekeyView, PresenceState,
};
use super::ws::{
    closed_step, dispatch_step, frame_actions, presence_frame, presence_pushes,
    reachable_subscribers, readable, written_by, Moment,
};

verus! {

// Publishing.

pub proof fn lemma_pool(prekeys: Seq<OneTimePrekeyView>)
    ensures
        forall|id: u32|
            prekey_pool(prekeys).dom().contains(id) <==> exists|i: int|
                0 <= i < prekeys.len() && (#[trigger] prekeys[i]).id == id,
        forall|i: int|
            #![trigger prekeys[i]]
            0 <= i < prekeys.len() && (forall|j: int|
                i < j < prekeys.len() ==> (#[trigger] prekeys[j]).id != prekeys[i].id)
                ==> prekey_pool(prekeys)[prekeys[i].id] == prekeys[i].key,
    decreases prekeys.len(),
{
    if prekeys.len() > 0 {
        let shorter = prekeys.drop_last();
        let n = prekeys.len() - 1;
        lemma_pool(shorter);
        assert forall|id: u32|
            prekey_pool(prekeys).dom().contains(id) <==> exists|i: int|
                0 <= i < prekeys.len() && (#[trigger] prekeys[i]).id == id by {
            if exists|i: int| 0 <= i < prekeys.len() && (#[trigger] prekeys[i]).id == id {
                let i = choose|i: int| 0 <= i < prekeys.len() && (#[trigger] prekeys[i]).id == id;
                if i < n {
                    assert(shorter[i].id == id);
                }
            }
            if prekey_pool(shorter).dom().contains(id) {
                let i = choose|i: int| 0 <= i < shorter.len() && (#[trigger] shorter[i]).id == id;
                assert(prekeys[i].id == id);
            }
            assert(prekeys[n].id == prekeys.last().id);
        }
        assert forall|i: int|
            #![trigger prekeys[i]]
            0 <= i < prekeys.len() && (forall|j: int|
                i < j < prekeys.len() ==> (#[trigger] prekeys[j]).id != prekeys[i].id) implies
            prekey_pool(prekeys)[prekeys[i].id] == prekeys[i].key by {
            if i < n {
                assert(prekeys[n].id != prekeys[i].id);
                assert(shorter[i] == prekeys[i]);
                assert forall|j: int| i < j < shorter.len() implies (#[trigger] shorter[j]).id
                    != shorter[i].id by {
                    assert(prekeys[j].id != prekeys[i].id);
                }
            }
        }
    }
}

/// Whenever a publish is answered with success, the directory has under the publisher's
/// fingerprint exactly what was sent, every one-time prekey of it by its id (of two with one id
/// the later); the handle and the bootstrap mailbox lead to that fingerprint, whether or not they
/// did before; the record is to be saved; and nothing else has changed.
pub proof fn law_a_published_bundle_is_in_the_directory(
    st: InnerView,
    who: Option<Seq<u8>>,
    connection: Seq<u8>,
    req: PublishBundle,
    facts: KeyFacts,
    moment: Moment,
)
    requires
        dispatch_step(
            st,
            who,
            connection,
            FrameTag::PublishBundle,
            Some(Request::PublishBundle(req)),
            facts,
            moment,
        ).outcome is Ok,
    ensures
        ({
            let step = dispatch_step(
                st,
                who,
                connection,
                FrameTag::PublishBundle,
                Some(Request::PublishBundle(req)),
                facts,
                moment,
            );
            let after = step.inner;
            let fp = facts.fingerprint@;
            let sent = req.bundle;
            let prekeys = sent.one_time_prekeys@;
            let stored = after.directory[fp];
            let handle = encode_utf8(sent.username@) + seq![
                (sent.discriminator / 256) as u8,
                (sent.discriminator % 256) as u8,
            ];
            &&& after.directory.dom().contains(fp)
            &&& stored.bundle.username == sent.username@
            &&& stored.bundle.discriminator == sent.discriminator
            &&& stored.bundle.identity_key == sent.identity_key@
            &&& stored.bundle.identity_dh_public == sent.identity_dh_public@
            &&& stored.bundle.identity_dh_signature == sent.identity_dh_signature@
            &&& stored.bundle.signed_prekey_id == sent.signed_prekey_id
            &&& stored.bundle.signed_prekey == sent.signed_prekey@
            &&& stored.bundle.signed_prekey_sig == sent.signed_prekey_sig@
            &&& stored.bundle.signed_prekey_expires_at == sent.signed_prekey_expires_at
            &&& stored.bundle.registration_pow == sent.registration_pow
            &&& stored.bundle.one_time_prekeys.len() == prekeys.len()
            &&& forall|i: int|
                0 <= i < prekeys.len() ==> (#[trigger] stored.bundle.one_time_prekeys[i]).id
                    == prekeys[i].id && stored.bundle.one_time_prekeys[i].key == prekeys[i].key@
            &&& forall|id: u32|
                stored.one_time_prekeys.dom().contains(id) <==> exists|i: int|
                    0 <= i < prekeys.len() && (#[trigger] prekeys[i]).id == id
            &&& forall|i: int|
                #![trigger prekeys[i]]
                0 <= i < prekeys.len() && (forall|j: int|
                    i < j < prekeys.len() ==> (#[trigger] prekeys[j]).id != prekeys[i].id)
                    ==> stored.one_time_prekeys[prekeys[i].id] == prekeys[i].key@
            &&& after.username_index == st.username_index.insert(handle, fp)
            &&& after.bootstrap_mailbox_index == st.bootstrap_mailbox_index.insert(
                facts.bootstrap_mailbox@,
                fp,
            )
            &&& after == (InnerView {
                directory: st.directory.insert(fp, stored),
                username_index: after.username_index,
                bootstrap_mailbox_index: after.bootstrap_mailbox_index,
                ..st
            })
            &&& step.outcome == Ok::<Seq<ActionView>, Error>(
                seq![
                    ActionView::Save { fingerprint: fp },
                    ActionView::Reply(FrameView::Ack(true)),
                ],
            )
        }),
{
    let prekeys = req.bundle.one_time_prekeys@;
    let views = req.bundle@.one_time_prekeys;
    assert(views =~= prekeys.map_values(|p: OneTimePrekeyWire| p@));
    assert(views.len() == prekeys.len());
    assert forall|i: int| 0 <= i < prekeys.len() implies views[i] == (OneTimePrekeyView {
        id: #[trigger] prekeys[i].id,
        key: prekeys[i].key@,
    }) by {}
    lemma_pool(views);
    let step = dispatch_step(
        st,
        who,
        connection,
        FrameTag::PublishBundle,
        Some(Request::PublishBundle(req)),
        facts,
        moment,
    );
    let pool = step.inner.directory[facts.fingerprint@].one_time_prekeys;
    assert(pool == prekey_pool(views));
    assert forall|id: u32|
        pool.dom().contains(id) <==> exists|i: int|
            0 <= i < prekeys.len() && (#[trigger] prekeys[i]).id == id by {
        if pool.dom().contains(id) {
            let i = choose|i: int| 0 <= i < views.len() && (#[trigger] views[i]).id == id;
            assert(prekeys[i].id == id);
        }
        if exists|i: int| 0 <= i < prekeys.len() && (#[trigger] prekeys[i]).id == id {
            let i = choose|i: int| 0 <= i < prekeys.len() && (#[trigger] prekeys[i]).id == id;
            assert(views[i].id == id);
        }
    }
    assert forall|i: int|
        #![trigger prekeys[i]]
        0 <= i < prekeys.len() && (forall|j: int|
            i < j < prekeys.len() ==> (#[trigger] prekeys[j]).id != prekeys[i].id) implies
        pool[prekeys[i].id] == prekeys[i].key@ by {
        assert forall|j: int| i < j < views.len() implies (#[trigger] views[j]).id
            != views[i].id by {
            assert(prekeys[j].id != prekeys[i].id);
        }
        assert(views[i].key == prekeys[i].key@);
    }
}

/// Whether a byte is an ASCII letter or digit, an underscore or a hyphen.
pub open spec fn handle_character(b: u8) -> bool {
    ('0' as u8 <= b && b <= '9' as u8) || ('A' as u8 <= b && b <= 'Z' as u8) || ('a' as u8 <= b && b
        <= 'z' as u8) || b == '_' as u8 || b == '-' as u8
}

/// A publish succeeds exactly where the bundle is within its limits and of its shape, its
/// signatures are valid, and its handle is the publisher's already or free and paid for by a
/// proof of work. Otherwise the first of these that fails is the answer, and nothing changes.
pub proof fn law_publish_succeeds_exactly_when(
    st: InnerView,
    who: Option<Seq<u8>>,
    connection: Seq<u8>,
    req: PublishBundle,
    facts: KeyFacts,
    moment: Moment,
)
    ensures
        ({
            let step = dispatch_step(
                st,
                who,
                connection,
                FrameTag::PublishBundle,
                Some(Request::PublishBundle(req)),
                facts,
                moment,
            );
            let sent = req.bundle;
            let name = encode_utf8(sent.username@);
            let handle = name + seq![
                (sent.discriminator / 256) as u8,
                (sent.discriminator % 256) as u8,
            ];
            let keys_ok = forall|i: int|
                0 <= i < sent.one_time_prekeys@.len() ==> (
                #[trigger] sent.one_time_prekeys@[i]).key@.len() == 32;
            let chars_ok = name.len() > 0 && forall|i: int|
                0 <= i < name.len() ==> handle_character(#[trigger] name[i]);
            let refusal = if sent.one_time_prekeys@.len() > 100 {
                Some(Error::TooManyOneTimePrekeys)
            } else if name.len() > 64 {
                Some(Error::UsernameTooLong)
            } else if !chars_ok {
                Some(Error::UsernameInvalidCharacters)
            } else if !keys_ok {
                Some(Error::InvalidBundle("one-time prekey must be 32 bytes"))
            } else if sent.identity_dh_public@.len() != 32 {
                Some(Error::InvalidBundle("identity_dh_public must be 32 bytes"))
            } else if sent.signed_prekey@.len() != 32 {
                Some(Error::InvalidBundle("signed_prekey must be 32 bytes"))
            } else if !facts.signature_valid {
                Some(Error::InvalidBundle("signature verification failed"))
            } else if st.username_index.dom().contains(handle) {
                if st.username_index[handle] == facts.fingerprint@ {
                    None
                } else {
                    Some(Error::UsernameTaken)
                }
            } else if sent.registration_pow matches Some(solution) && is_pow(
                sent.username@,
                sent.discriminator,
                sent.identity_key@,
                solution,
            ) {
                None
            } else {
                Some(Error::ProofOfWorkRequired)
            };
            match refusal {
                Some(e) => step.outcome == Err::<Seq<ActionView>, Error>(e) && step.inner == st,
                None => step.outcome is Ok,
            }
        }),
{
    let sent = req.bundle;
    let views = sent@.one_time_prekeys;
    assert forall|i: int| 0 <= i < views.len() implies views[i].key
        == #[trigger] sent.one_time_prekeys@[i].key@ by {}
    if exists|i: int| 0 <= i < views.len() && (#[trigger] views[i]).key.len() != 32 {
        let i = choose|i: int| 0 <= i < views.len() && (#[trigger] views[i]).key.len() != 32;
        assert(sent.one_time_prekeys@[i].key@.len() != 32);
    }
    let name = encode_utf8(sent.username@);
    assert forall|i: int| 0 <= i < name.len() implies (crate::username::username_byte(
        #[trigger] name[i],
    ) <==> handle_character(name[i])) by {}
}

// Fetching.

/// What a fetch answers and changes. An unknown handle gives nothing. Within five fetches of one
/// target by one connection, one more every five seconds, the answer has every field of the
/// target's bundle, and one of its one-time prekeys while there are any: that one is gone from
/// the pool afterwards, and the record is to be saved. Without one the shortage is counted, and
/// every tenth time raises an alert. Only an authenticated fetcher's fetch counts as evidence.
pub proof fn law_a_fetch_hands_out_what_is_stored(
    st: InnerView,
    who: Option<Seq<u8>>,
    connection: Seq<u8>,
    req: FetchBundle,
    facts: KeyFacts,
    moment: Moment,
)
    ensures
        ({
            let step = dispatch_step(
                st,
                who,
                connection,
                FrameTag::FetchBundle,
                Some(Request::FetchBundle(req)),
                facts,
                moment,
            );
            let after = step.inner;
            let handle = encode_utf8(req.username@) + seq![
                (req.discriminator / 256) as u8,
                (req.discriminator % 256) as u8,
            ];
            let target = st.username_index[handle];
            let limit = Limit { capacity: 5, period: 5_000_000_000 };
            let buckets = st.fetch_buckets.insert(
                connection + target,
                charge(st.fetch_buckets, connection + target, limit, moment.monotonic)[connection
                    + target],
            );
            let stored = st.directory[target];
            let pool = stored.one_time_prekeys;
            let nothing = seq![ActionView::Reply(FrameView::BundleResult(None))];
            if !st.username_index.dom().contains(handle) {
                step.inner == st && step.outcome == Ok::<Seq<ActionView>, Error>(nothing)
            } else if !allowed(
                lookup(st.fetch_buckets, connection + target),
                limit,
                moment.monotonic,
            ) {
                &&& step.outcome == Err::<Seq<ActionView>, Error>(Error::RateLimited)
                &&& after == (InnerView { fetch_buckets: buckets, ..st })
            } else if !st.directory.dom().contains(target) {
                &&& step.outcome == Ok::<Seq<ActionView>, Error>(nothing)
                &&& after == (InnerView { fetch_buckets: buckets, ..st })
            } else {
                &&& step.outcome matches Ok(actions) && actions.last() matches ActionView::Reply(
                    FrameView::BundleResult(Some(b)),
                ) && {
                    &&& b.username == stored.bundle.username
                    &&& b.discriminator == stored.bundle.discriminator
                    &&& b.identity_key == stored.bundle.identity_key
                    &&& b.identity_dh_public == stored.bundle.identity_dh_public
                    &&& b.identity_dh_signature == stored.bundle.identity_dh_signature
                    &&& b.signed_prekey_id == stored.bundle.signed_prekey_id
                    &&& b.signed_prekey == stored.bundle.signed_prekey
                    &&& b.signed_prekey_sig == stored.bundle.signed_prekey_sig
                    &&& b.signed_prekey_expires_at == stored.bundle.signed_prekey_expires_at
                    &&& b.one_time_prekey is None <==> pool.dom() =~= Set::<u32>::empty()
                    &&& match b.one_time_prekey {
                        Some(prekey) => {
                            &&& pool.dom().contains(prekey.id)
                            &&& pool[prekey.id] == prekey.key
                            &&& after.directory.dom() == st.directory.dom()
                            &&& after.directory[target].bundle == stored.bundle
                            &&& after.directory[target].one_time_prekeys == pool.remove(prekey.id)
                            &&& after.otp_exhaustion_attempts == st.otp_exhaustion_attempts
                            &&& actions.len() == 2
                            &&& actions[0] == (ActionView::Save { fingerprint: target })
                        },
                        None => {
                            let count = after.otp_exhaustion_attempts[target];
                            &&& after.directory == st.directory
                            &&& !st.otp_exhaustion_attempts.dom().contains(target) ==> count == 1
                            &&& st.otp_exhaustion_attempts.dom().contains(target)
                                && st.otp_exhaustion_attempts[target] < u32::MAX ==> count
                                == st.otp_exhaustion_attempts[target] + 1
                            &&& after.otp_exhaustion_attempts == st.otp_exhaustion_attempts.insert(
                                target,
                                count,
                            )
                            &&& if count % 10 == 0 {
                                actions.len() == 2 && actions[0] == (ActionView::Alert {
                                    target,
                                    attempts: count,
                                })
                            } else {
                                actions.len() == 1
                            }
                        },
                    }
                }
                &&& match who {
                    None => after.fetch_evidence == st.fetch_evidence,
                    Some(w) => {
                        &&& after.fetch_evidence.dom() == st.fetch_evidence.dom().insert(w)
                        &&& forall|x: Seq<u8>|
                            x != w && st.fetch_evidence.dom().contains(x)
                                ==> #[trigger] after.fetch_evidence[x] == st.fetch_evidence[x]
                        &&& forall|y: Seq<u8>| #[trigger]
                            after.fetch_evidence[w].contains(y) <==> y == target || (
                            st.fetch_evidence.dom().contains(w) && st.fetch_evidence[w].contains(y))
                    },
                }
                &&& after == (InnerView {
                    directory: st.directory.insert(target, after.directory[target]),
                    fetch_evidence: after.fetch_evidence,
                    otp_exhaustion_attempts: after.otp_exhaustion_attempts,
                    fetch_buckets: buckets,
                    ..st
                })
            }
        }),
{
    let step = dispatch_step(
        st,
        who,
        connection,
        FrameTag::FetchBundle,
        Some(Request::FetchBundle(req)),
        facts,
        moment,
    );
    let after = step.inner;
    let handle = encode_utf8(req.username@) + seq![
        (req.discriminator / 256) as u8,
        (req.discriminator % 256) as u8,
    ];
    assert(handle == super::state::handle_bytes(req.username@, req.discriminator));
    let target = st.username_index[handle];
    let pool = st.directory[target].one_time_prekeys;
    law_pool_hands_out_until_empty(pool);
    if st.username_index.dom().contains(handle) && st.directory.dom().contains(target) {
        match next_prekey(pool) {
            Some(id) => {
                assert(is_least_id(pool, id));
                assert(pool.dom().contains(id));
            },
            None => {},
        }
        assert(after.directory =~= st.directory.insert(target, after.directory[target])
            || step.outcome is Err);
        assert(after.directory.dom() =~= st.directory.dom());
        if who is Some && step.outcome is Ok {
            assert(after.fetch_evidence.dom() =~= st.fetch_evidence.dom().insert(who->0));
        }
    }
}

/// A fetch of a handle right after a successful publish of it, on any connection that has not
/// used up its fetches, hands out the bundle that was published: every field as it was sent, and
/// one of the one-time prekeys that were sent, if any were.
pub proof fn law_a_fetch_gives_back_a_publish(
    st: InnerView,
    publisher: Option<Seq<u8>>,
    connection: Seq<u8>,
    req: PublishBundle,
    facts: KeyFacts,
    moment: Moment,
    fetcher: Option<Seq<u8>>,
    fetch_connection: Seq<u8>,
    fetch: FetchBundle,
    fetch_facts: KeyFacts,
    fetch_moment: Moment,
)
    requires
        dispatch_step(
            st,
            publisher,
            connection,
            FrameTag::PublishBundle,
            Some(Request::PublishBundle(req)),
            facts,
            moment,
        ).outcome is Ok,
        fetch.username@ == req.bundle.username@,
        fetch.discriminator == req.bundle.discriminator,
        allowed(
            lookup(st.fetch_buckets, fetch_connection + facts.fingerprint@),
            (Limit { capacity: 5, period: 5_000_000_000 }),
            fetch_moment.monotonic,
        ),
    ensures
        ({
            let published = dispatch_step(
                st,
                publisher,
                connection,
                FrameTag::PublishBundle,
                Some(Request::PublishBundle(req)),
                facts,
                moment,
            ).inner;
            let outcome = dispatch_step(
                published,
                fetcher,
                fetch_connection,
                FrameTag::FetchBundle,
                Some(Request::FetchBundle(fetch)),
                fetch_facts,
                fetch_moment,
            ).outcome;
            let sent = req.bundle;
            let prekeys = sent.one_time_prekeys@;
            outcome matches Ok(actions) && actions.last() matches ActionView::Reply(
                FrameView::BundleResult(Some(b)),
            ) && {
                &&& b.username == sent.username@
                &&& b.discriminator == sent.discriminator
                &&& b.identity_key == sent.identity_key@
                &&& b.identity_dh_public == sent.identity_dh_public@
                &&& b.identity_dh_signature == sent.identity_dh_signature@
                &&& b.signed_prekey_id == sent.signed_prekey_id
                &&& b.signed_prekey == sent.signed_prekey@
                &&& b.signed_prekey_sig == sent.signed_prekey_sig@
                &&& b.signed_prekey_expires_at == sent.signed_prekey_expires_at
                &&& prekeys.len() == 0 <==> b.one_time_prekey is None
                &&& b.one_time_prekey matches Some(p) ==> exists|i: int|
                    0 <= i < prekeys.len() && (#[trigger] prekeys[i]).id == p.id && prekeys[i].key@
                        == p.key
            }
        }),
{
    law_a_published_bundle_is_in_the_directory(st, publisher, connection, req, facts, moment);
    let published = dispatch_step(
        st,
        publisher,
        connection,
        FrameTag::PublishBundle,
        Some(Request::PublishBundle(req)),
        facts,
        moment,
    ).inner;
    law_a_fetch_hands_out_what_is_stored(
        published,
        fetcher,
        fetch_connection,
        fetch,
        fetch_facts,
        fetch_moment,
    );
    let prekeys = req.bundle.one_time_prekeys@;
    let pool = published.directory[facts.fingerprint@].one_time_prekeys;
    if prekeys.len() > 0 {
        assert(prekeys[0].id == prekeys[0].id);
        assert(pool.dom().contains(prekeys[0].id));
    }
    assert forall|id: u32| pool.dom().contains(id) implies exists|i: int|
        0 <= i < prekeys.len() && (#[trigger] prekeys[i]).id == id && prekeys[i].key@ == pool[id] by {
        let i = choose|i: int| 0 <= i < prekeys.len() && (#[trigger] prekeys[i]).id == id;
        let last = lemma_last_with_id(prekeys, i);
    }
}

/// The last place of the prekey's id.
proof fn lemma_last_with_id(prekeys: Seq<OneTimePrekeyWire>, i: int) -> (last: int)
    requires
        0 <= i < prekeys.len(),
    ensures
        i <= last < prekeys.len(),
        prekeys[last].id == prekeys[i].id,
        forall|j: int| last < j < prekeys.len() ==> (#[trigger] prekeys[j]).id != prekeys[last].id,
    decreases prekeys.len() - i,
{
    if exists|j: int| i < j < prekeys.len() && (#[trigger] prekeys[j]).id == prekeys[i].id {
        let j = choose|j: int| i < j < prekeys.len() && (#[trigger] prekeys[j]).id == prekeys[i].id;
        lemma_last_with_id(prekeys, j)
    } else {
        i
    }
}

/// An identity asks for its own prekeys and is told how many are left; none if it is not
/// registered. Nothing changes.
pub proof fn law_own_prekeys_are_counted(
    st: InnerView,
    who: Seq<u8>,
    connection: Seq<u8>,
    req: FetchOwnPrekeyCount,
    facts: KeyFacts,
    moment: Moment,
)
    ensures
        ({
            let step = dispatch_step(
                st,
                Some(who),
                connection,
                FrameTag::FetchOwnPrekeyCount,
                Some(Request::FetchOwnPrekeyCount(req)),
                facts,
                moment,
            );
            let left: nat = if st.directory.dom().contains(who) {
                st.directory[who].one_time_prekeys.dom().len()
            } else {
                0
            };
            &&& step.inner == st
            &&& step.outcome == Ok::<Seq<ActionView>, Error>(
                seq![ActionView::Reply(FrameView::OwnPrekeyCount(left as u64))],
            )
        }),
{
}

// Rendezvous.

/// Whether one of two identities has fetched the other's bundle.
pub open spec fn have_met(st: InnerView, a: Seq<u8>, b: Seq<u8>) -> bool {
    (st.fetch_evidence.dom().contains(a) && st.fetch_evidence[a].contains(b)) || (
    st.fetch_evidence.dom().contains(b) && st.fetch_evidence[b].contains(a))
}

/// What a rendezvous frame with this payload leads to, up to the frame that is relayed.
pub open spec fn relayed_as(
    st: InnerView,
    from: Seq<u8>,
    peer: Seq<u8>,
    sdp: Seq<char>,
    ice_candidates: Seq<String>,
    monotonic: u64,
    after: InnerView,
    outcome: std::result::Result<Seq<ActionView>, Error>,
) -> bool {
    let limit = Limit { capacity: 10, period: 5_000_000_000 };
    let candidates_ok = ice_candidates.len() <= 64 && forall|i: int|
        0 <= i < ice_candidates.len() ==> encode_utf8((#[trigger] ice_candidates[i])@).len() <= 4096;
    let paid = InnerView {
        rendezvous_buckets: charge(st.rendezvous_buckets, from, limit, monotonic),
        ..st
    };
    if encode_utf8(sdp).len() > 65536 {
        after == st && outcome == Err::<Seq<ActionView>, Error>(Error::SdpTooLarge)
    } else if !candidates_ok {
        after == st && outcome == Err::<Seq<ActionView>, Error>(Error::IceCandidatesInvalid)
    } else if peer.len() != 32 {
        after == st && outcome == Err::<Seq<ActionView>, Error>(
            Error::MalformedFrame("peer_fingerprint must be 32 bytes"),
        )
    } else if !have_met(st, from, peer) {
        after == st && outcome == Err::<Seq<ActionView>, Error>(Error::AuthRequired)
    } else if !allowed(lookup(st.rendezvous_buckets, from), limit, monotonic) {
        after == paid && outcome == Err::<Seq<ActionView>, Error>(Error::RateLimited)
    } else if !st.connections.contains(peer) {
        after == paid && outcome == Ok::<Seq<ActionView>, Error>(
            seq![ActionView::Reply(FrameView::Ack(false))],
        )
    } else {
        &&& after == paid
        &&& outcome is Ok
        &&& outcome->Ok_0.len() == 1
        &&& outcome->Ok_0[0] is Relay
        &&& outcome->Ok_0[0]->Relay_to == peer
    }
}

proof fn lemma_candidates(ice_candidates: Seq<String>)
    ensures
        super::action::texts(ice_candidates).len() == ice_candidates.len(),
        forall|i: int|
            0 <= i < ice_candidates.len() ==> super::action::texts(ice_candidates)[i]
                == (#[trigger] ice_candidates[i])@,
        (exists|i: int|
            0 <= i < ice_candidates.len() && encode_utf8(
                #[trigger] super::action::texts(ice_candidates)[i],
            ).len() > 4096) <==> exists|i: int|
            0 <= i < ice_candidates.len() && encode_utf8((#[trigger] ice_candidates[i])@).len()
                > 4096,
{
    let t = super::action::texts(ice_candidates);
    if exists|i: int| 0 <= i < ice_candidates.len() && encode_utf8(#[trigger] t[i]).len() > 4096 {
        let i = choose|i: int|
            0 <= i < ice_candidates.len() && encode_utf8(#[trigger] t[i]).len() > 4096;
        assert(encode_utf8(ice_candidates[i]@).len() > 4096);
    }
    if exists|i: int|
        0 <= i < ice_candidates.len() && encode_utf8((#[trigger] ice_candidates[i])@).len() > 4096 {
        let i = choose|i: int|
            0 <= i < ice_candidates.len() && encode_utf8((#[trigger] ice_candidates[i])@).len()
                > 4096;
        assert(encode_utf8(t[i]).len() > 4096);
    }
}

/// An offer that is relayed reaches the peer that it names as an offer, with its SDP text and all
/// its ICE candidates as they were sent, under the sender's own fingerprint.
pub proof fn law_an_offer_is_relayed_unchanged(
    st: InnerView,
    from: Seq<u8>,
    connection: Seq<u8>,
    req: RendezvousOffer,
    facts: KeyFacts,
    moment: Moment,
)
    ensures
        ({
            let step = dispatch_step(
                st,
                Some(from),
                connection,
                FrameTag::RendezvousOffer,
                Some(Request::RendezvousOffer(req)),
                facts,
                moment,
            );
            &&& relayed_as(
                st,
                from,
                req.peer_fingerprint@,
                req.sdp_offer@,
                req.ice_candidates@,
                moment.monotonic,
                step.inner,
                step.outcome,
            )
            &&& step.outcome matches Ok(actions) ==> actions.len() == 1 && (actions[0] matches
                ActionView::Relay { to, frame } ==> {
                &&& to == req.peer_fingerprint@
                &&& frame matches FrameView::RendezvousOffer { from: named, sdp, ice_candidates }
                    && {
                    &&& named == from
                    &&& sdp == req.sdp_offer@
                    &&& ice_candidates.len() == req.ice_candidates@.len()
                    &&& forall|i: int|
                        0 <= i < ice_candidates.len() ==> #[trigger] ice_candidates[i]
                            == req.ice_candidates@[i]@
                }
            })
        }),
{
    lemma_candidates(req.ice_candidates@);
}

/// An answer that is relayed reaches the peer that it names as an answer, with its SDP text and
/// all its ICE candidates as they were sent, under the sender's own fingerprint.
pub proof fn law_an_answer_is_relayed_unchanged(
    st: InnerView,
    from: Seq<u8>,
    connection: Seq<u8>,
    req: RendezvousAnswer,
    facts: KeyFacts,
    moment: Moment,
)
    ensures
        ({
            let step = dispatch_step(
                st,
                Some(from),
                connection,
                FrameTag::RendezvousAnswer,
                Some(Request::RendezvousAnswer(req)),
                facts,
                moment,
            );
            &&& relayed_as(
                st,
                from,
                req.peer_fingerprint@,
                req.sdp_answer@,
                req.ice_candidates@,
                moment.monotonic,
                step.inner,
                step.outcome,
            )
            &&& step.outcome matches Ok(actions) ==> actions.len() == 1 && (actions[0] matches
                ActionView::Relay { to, frame } ==> {
                &&& to == req.peer_fingerprint@
                &&& frame matches FrameView::RendezvousAnswer { from: named, sdp, ice_candidates }
                    && {
                    &&& named == from
                    &&& sdp == req.sdp_answer@
                    &&& ice_candidates.len() == req.ice_candidates@.len()
                    &&& forall|i: int|
                        0 <= i < ice_candidates.len() ==> #[trigger] ice_candidates[i]
                            == req.ice_candidates@[i]@
                }
            })
        }),
{
    lemma_candidates(req.ice_candidates@);
}


// Presence.

/// Whether `watcher` is to be told of `who`'s presence.
pub open spec fn watches(st: InnerView, watcher: Seq<u8>, who: Seq<u8>) -> bool {
    st.subscriptions.dom().contains(who) && st.subscriptions[who].contains(watcher)
}

/// Whether the actions tell each subscriber of `who` that is among the connected ones exactly
/// once, and nobody else, that `who` is in the state with the given byte and time.
pub open spec fn told_once(
    actions: Seq<ActionView>,
    st: InnerView,
    connected: Set<Seq<u8>>,
    who: Seq<u8>,
    state: u8,
    last_seen: Option<u64>,
) -> bool {
    &&& forall|i: int|
        #![trigger actions[i]]
        0 <= i < actions.len() ==> (actions[i] matches ActionView::Push { to, frame } && frame == (
        FrameView::PresenceUpdate { identity_fingerprint: who, state, last_seen })
            && connected.contains(to) && watches(st, to, who))
    &&& forall|i: int, j: int|
        0 <= i < j < actions.len() ==> (#[trigger] actions[i])->Push_to != (
        #[trigger] actions[j])->Push_to
    &&& forall|to: Seq<u8>| #[trigger]
        connected.contains(to) && watches(st, to, who) ==> exists|i: int|
            0 <= i < actions.len() && (#[trigger] actions[i])->Push_to == to
}

proof fn lemma_told_once(st: InnerView, who: Seq<u8>, state: PresenceState)
    requires
        st.connections.finite(),
    ensures
        ({
            let bytes = super::ws::presence_bytes(state);
            told_once(presence_pushes(st, who, state), st, st.connections, who, bytes.0, bytes.1)
        }),
{
    let actions = presence_pushes(st, who, state);
    let watchers = super::state::members(st.subscriptions, who);
    let set = watchers.intersect(st.connections);
    vstd::set_lib::lemma_len_intersect(st.connections, watchers);
    assert(set =~= st.connections.intersect(watchers));
    lemma_in_order_of_finite(set);
    let targets = reachable_subscribers(st, who);
    assert(targets == in_order(set));
    assert(actions.len() == targets.len());
    assert forall|i: int| 0 <= i < actions.len() implies #[trigger] actions[i] == (
    ActionView::Push { to: targets[i], frame: presence_frame(who, state) }) && set.contains(
        targets[i],
    ) by {
        assert(targets.contains(targets[i]));
    }
    assert forall|i: int, j: int| 0 <= i < j < actions.len() implies (
    #[trigger] actions[i])->Push_to != (#[trigger] actions[j])->Push_to by {
        assert(keys_sorted(targets));
        assert(crate::bytes::bytes_lt(targets[i], targets[j]));
        crate::bytes::lemma_bytes_lt_total(targets[i], targets[j]);
    }
    assert forall|to: Seq<u8>| #[trigger]
        st.connections.contains(to) && watches(st, to, who) implies exists|i: int|
        0 <= i < actions.len() && (#[trigger] actions[i])->Push_to == to by {
        assert(set.contains(to));
        assert(targets.contains(to));
        let i = choose|i: int| 0 <= i < targets.len() && targets[i] == to;
        assert(actions[i]->Push_to == to);
    }
}

/// An announcement is taken exactly where it names a state that there is: zero for online and
/// one for away. The sender is then in that state, with no time of departure, and each of its
/// connected subscribers is told of it once, with the byte that was announced.
pub proof fn law_an_announcement_is_shown_as_made(
    st: InnerView,
    who: Seq<u8>,
    connection: Seq<u8>,
    req: PresenceAnnounce,
    facts: KeyFacts,
    moment: Moment,
)
    requires
        st.connections.finite(),
    ensures
        ({
            let step = dispatch_step(
                st,
                Some(who),
                connection,
                FrameTag::PresenceAnnounce,
                Some(Request::PresenceAnnounce(req)),
                facts,
                moment,
            );
            &&& step.outcome is Ok <==> req.state == 0 || req.state == 1
            &&& step.outcome is Err ==> step.inner == st && step.outcome == Err::<
                Seq<ActionView>,
                Error,
            >(Error::MalformedFrame("unknown presence state"))
            &&& step.outcome matches Ok(pushes) ==> {
                &&& step.inner.presence.dom().contains(who)
                &&& req.state == 0 ==> step.inner.presence[who] is Online
                &&& req.state == 1 ==> step.inner.presence[who] is Away
                &&& step.inner == (InnerView {
                    presence: st.presence.insert(who, step.inner.presence[who]),
                    ..st
                })
                &&& told_once(pushes, st, st.connections, who, req.state, None)
            }
        }),
{
    lemma_told_once(st, who, PresenceState::Online);
    lemma_told_once(st, who, PresenceState::Away);
}

/// Whoever may subscribe to a presence is told of it next, if it is known: online as zero, away
/// as one, and offline as two with the time of departure.
pub proof fn law_a_subscription_answers_with_the_presence(
    st: InnerView,
    who: Seq<u8>,
    connection: Seq<u8>,
    req: PresenceSubscribe,
    facts: KeyFacts,
    moment: Moment,
)
    ensures
        ({
            let step = dispatch_step(
                st,
                Some(who),
                connection,
                FrameTag::PresenceSubscribe,
                Some(Request::PresenceSubscribe(req)),
                facts,
                moment,
            );
            let target = req.identity_fingerprint@;
            let met = st.fetch_evidence.dom().contains(who) && st.fetch_evidence[who].contains(
                target,
            );
            if target.len() != 32 {
                step.inner == st && step.outcome == Err::<Seq<ActionView>, Error>(
                    Error::MalformedFrame("identity_fingerprint must be 32 bytes"),
                )
            } else if !met {
                step.inner == st && step.outcome == Err::<Seq<ActionView>, Error>(
                    Error::AuthRequired,
                )
            } else {
                &&& forall|w: Seq<u8>, t: Seq<u8>| #[trigger]
                    watches(step.inner, w, t) <==> watches(st, w, t) || (w == who && t == target)
                &&& step.inner == (InnerView { subscriptions: step.inner.subscriptions, ..st })
                &&& step.outcome is Ok
                &&& !st.presence.dom().contains(target) ==> step.outcome->Ok_0.len() == 0
                &&& st.presence.dom().contains(target) ==> step.outcome->Ok_0 == seq![
                    ActionView::Reply(
                        match st.presence[target] {
                            PresenceState::Online => FrameView::PresenceUpdate {
                                identity_fingerprint: target,
                                state: 0,
                                last_seen: None,
                            },
                            PresenceState::Away => FrameView::PresenceUpdate {
                                identity_fingerprint: target,
                                state: 1,
                                last_seen: None,
                            },
                            PresenceState::Offline { last_seen } => FrameView::PresenceUpdate {
                                identity_fingerprint: target,
                                state: 2,
                                last_seen: Some(last_seen),
                            },
                        },
                    ),
                ]
            }
        }),
{
}

/// An identity that is registered is held to its published key, whatever it sends along; any
/// other to the key that it sends along.
pub proof fn law_the_key_of_an_authentication(st: InnerView, req: AuthResponse)
    ensures
        ({
            let fp = req.identity_fingerprint@;
            &&& st.directory.dom().contains(fp) ==> super::ws::auth_key(st, req) == Some(
                st.directory[fp].bundle.identity_key,
            )
            &&& !st.directory.dom().contains(fp) ==> match req.identity_key {
                Some(key) => super::ws::auth_key(st, req) == Some(key@),
                None => super::ws::auth_key(st, req) is None,
            }
        }),
{
}

/// A connection becomes an identity's exactly where it names it in full and proves to have its
/// key, the published one if there is one. The identity is then connected and online, the
/// client is told so, and each connected subscriber is told once.
pub proof fn law_an_authenticated_identity_is_online(
    st: InnerView,
    frame: Seq<u8>,
    connection: Seq<u8>,
    req: AuthResponse,
    facts: KeyFacts,
    moment: Moment,
    body: Seq<u8>,
)
    requires
        st.connections.finite(),
        frame == seq![2u8] + body,
    ensures
        ({
            let fp = req.identity_fingerprint@;
            let keyed = st.directory.dom().contains(fp) || req.identity_key is Some;
            let connected = st.connections.insert(fp);
            let (after, identity, actions) = frame_actions(
                st,
                None,
                connection,
                frame,
                Some(Request::AuthResponse(req)),
                facts,
                moment,
            );
            if fp.len() == 32 && keyed && facts.signature_valid && facts.fingerprint@ == fp {
                &&& identity == Some(fp)
                &&& after == (InnerView {
                    connections: connected,
                    presence: st.presence.insert(fp, PresenceState::Online),
                    ..st
                })
                &&& actions.len() > 0
                &&& actions[0] == ActionView::Reply(FrameView::Ack(true))
                &&& told_once(actions.drop_first(), st, connected, fp, 0, None)
            } else {
                &&& identity is None
                &&& after == st
                &&& actions == seq![
                    ActionView::Reply(
                        FrameView::Error(
                            if fp.len() != 32 {
                                Error::MalformedFrame(
                                    "identity_fingerprint must be 32 bytes",
                                ).text()
                            } else {
                                Error::AuthFailed.text()
                            },
                        ),
                    ),
                ]
            }
        }),
{
    law_a_frame_is_answered(
        st,
        None,
        connection,
        FrameTag::AuthResponse,
        body,
        Some(Request::AuthResponse(req)),
        facts,
        moment,
    );
    let fp = req.identity_fingerprint@;
    let connected = InnerView { connections: st.connections.insert(fp), ..st };
    lemma_told_once(connected, fp, PresenceState::Online);
    let pushes = presence_pushes(connected, fp, PresenceState::Online);
    let ack = seq![ActionView::Reply(FrameView::Ack(true))];
    assert((ack + pushes).drop_first() =~= pushes);
    assert forall|to: Seq<u8>| watches(connected, to, fp) == watches(st, to, fp) by {}
    assert(told_once(pushes, st, connected.connections, fp, 0, None));
}

/// Once the connection of an identity is closed, it is no longer connected, and offline since
/// the second in which it closed; each subscriber that is still connected is told once. A
/// connection that never authenticated leaves no trace.
pub proof fn law_a_closed_connection_is_offline(st: InnerView, who: Option<Seq<u8>>, wall: u64)
    requires
        st.connections.finite(),
    ensures
        ({
            let (after, pushes) = closed_step(st, who, wall);
            let since = wall / 1_000_000_000;
            match who {
                None => after == st && pushes.len() == 0,
                Some(fp) => {
                    &&& after == (InnerView {
                        connections: st.connections.remove(fp),
                        presence: st.presence.insert(fp, PresenceState::Offline { last_seen: since }),
                        ..st
                    })
                    &&& told_once(pushes, st, st.connections.remove(fp), fp, 2, Some(since))
                },
            }
        }),
{
    if let Some(fp) = who {
        let gone = InnerView { connections: st.connections.remove(fp), ..st };
        let offline = PresenceState::Offline { last_seen: wall / 1_000_000_000 };
        lemma_told_once(gone, fp, offline);
        assert forall|to: Seq<u8>| watches(gone, to, fp) == watches(st, to, fp) by {}
        assert(told_once(
            presence_pushes(gone, fp, offline),
            st,
            st.connections.remove(fp),
            fp,
            2,
            Some(wall / 1_000_000_000),
        ));
    }
}

// Mailboxes.

/// Of a mailbox's entries, those that are alive at `wall`.
pub open spec fn alive(entries: Seq<EntryView>, wall: u64) -> Seq<EntryView> {
    entries.filter(|e: EntryView| wall < e.expires_at)
}

/// What the mailbox holds; nothing if there is no such mailbox.
pub open spec fn held(st: InnerView, id: Seq<u8>) -> Seq<EntryView> {
    if st.mailboxes.dom().contains(id) {
        st.mailboxes[id]
    } else {
        Seq::empty()
    }
}

pub proof fn lemma_alive(entries: Seq<EntryView>, wall: u64)
    ensures
        alive(entries, wall) == unexpired(entries, wall),
    decreases entries.len(),
{
    reveal(Seq::filter);
    if entries.len() > 0 {
        lemma_alive(entries.drop_last(), wall);
    }
}

proof fn lemma_written(entries: Seq<EntryView>, who: Seq<u8>)
    ensures
        written_by(entries, who) == entries.filter(|e: EntryView| e.written_by == who).len(),
    decreases entries.len(),
{
    reveal(Seq::filter);
    if entries.len() > 0 {
        lemma_written(entries.drop_last(), who);
    }
}

/// A write is taken exactly where the mailbox's name and the envelope are within their limits,
/// less than 256 entries are alive in it and less than 128 of these are the writer's, and the
/// writer has not used up its new mailboxes if it is one. The entry is then the last, as it was
/// sent, under the fresh id and the writer's name, and expires when its time to live is over.
pub proof fn law_a_write_is_kept_as_it_was_sent(
    st: InnerView,
    who: Seq<u8>,
    connection: Seq<u8>,
    req: MailboxWrite,
    facts: KeyFacts,
    moment: Moment,
)
    requires
        moment.wall + req.ttl * 1_000_000_000 <= u64::MAX,
    ensures
        ({
            let step = dispatch_step(
                st,
                Some(who),
                connection,
                FrameTag::MailboxWrite,
                Some(Request::MailboxWrite(req)),
                facts,
                moment,
            );
            let id = req.mailbox_id@;
            let live = alive(held(st, id), moment.wall);
            let known = st.mailboxes.dom().contains(id);
            let limit = Limit { capacity: 20, period: 30_000_000_000 };
            let pruned = if known {
                InnerView { mailboxes: st.mailboxes.insert(id, live), ..st }
            } else {
                st
            };
            let paid = if known {
                pruned
            } else {
                InnerView {
                    new_mailbox_buckets: charge(
                        st.new_mailbox_buckets,
                        who,
                        limit,
                        moment.monotonic,
                    ),
                    ..pruned
                }
            };
            if id.len() != 16 {
                step.inner == st && step.outcome == Err::<Seq<ActionView>, Error>(
                    Error::MalformedFrame("mailbox_id must be 16 bytes"),
                )
            } else if req.envelope@.len() > 65536 {
                step.inner == st && step.outcome == Err::<Seq<ActionView>, Error>(
                    Error::EnvelopeTooLarge,
                )
            } else if live.len() >= 256 {
                step.inner == pruned && step.outcome == Err::<Seq<ActionView>, Error>(
                    Error::MailboxFull,
                )
            } else if live.filter(|e: EntryView| e.written_by == who).len() >= 128 {
                step.inner == pruned && step.outcome == Err::<Seq<ActionView>, Error>(
                    Error::WriterQuotaExceeded,
                )
            } else if !known && !allowed(
                lookup(st.new_mailbox_buckets, who),
                limit,
                moment.monotonic,
            ) {
                step.inner == paid && step.outcome == Err::<Seq<ActionView>, Error>(
                    Error::NewMailboxRateLimited,
                )
            } else {
                let kept = step.inner.mailboxes[id];
                &&& step.outcome == Ok::<Seq<ActionView>, Error>(
                    seq![ActionView::Reply(FrameView::Ack(true))],
                )
                &&& step.inner == (InnerView {
                    mailboxes: st.mailboxes.insert(id, kept),
                    ..paid
                })
                &&& kept.len() == live.len() + 1
                &&& forall|i: int| 0 <= i < live.len() ==> #[trigger] kept[i] == live[i]
                &&& kept.last().entry_id == moment.entry_id
                &&& kept.last().envelope == req.envelope@
                &&& kept.last().written_by == who
                &&& kept.last().expires_at == moment.wall + req.ttl * 1_000_000_000
            }
        }),
{
    let id = req.mailbox_id@;
    lemma_alive(held(st, id), moment.wall);
    lemma_written(alive(held(st, id), moment.wall), who);
    assert(alive(Seq::empty(), moment.wall) =~= Seq::empty()) by {
        reveal(Seq::filter);
    }
    let step = dispatch_step(
                st,
                Some(who),
                connection,
                FrameTag::MailboxWrite,
                Some(Request::MailboxWrite(req)),
                facts,
                moment,
            );
    assert(step.outcome is Ok ==> step.inner.mailboxes =~= st.mailboxes.insert(
        id,
        step.inner.mailboxes[id],
    ));
}

proof fn lemma_readable(entries: Seq<EntryView>, who: Seq<u8>, wall: u64)
    ensures
        readable(unexpired(entries, wall), who) == entries.filter(
            |e: EntryView| wall < e.expires_at && e.written_by != who,
        ).map_values(
            |e: EntryView| EntryWireView { entry_id: e.entry_id, envelope: e.envelope },
        ),
    decreases entries.len(),
{
    reveal(Seq::filter);
    let wire = |e: EntryView| EntryWireView { entry_id: e.entry_id, envelope: e.envelope };
    let due = |e: EntryView| wall < e.expires_at && e.written_by != who;
    let live = unexpired(entries, wall);
    if entries.len() > 0 {
        let before = entries.drop_last();
        let last = entries.last();
        lemma_readable(before, who, wall);
        let live_before = unexpired(before, wall);
        if wall < last.expires_at {
            assert(live == live_before.push(last));
            assert(live.drop_last() =~= live_before);
            if last.written_by != who {
                assert(readable(live, who) =~= readable(live_before, who).push(wire(last)));
                assert(entries.filter(due).map_values(wire) =~= before.filter(due).map_values(
                    wire,
                ).push(wire(last)));
            }
        } else {
            assert(live == live_before);
        }
    } else {
        assert(readable(live, who) =~= Seq::empty());
        assert(entries.filter(due).map_values(wire) =~= Seq::empty());
    }
}

/// A read is taken exactly where the mailbox's name is of its length, the reader is within 600
/// reads and 50 more in a second, and the mailbox is not another's bootstrap mailbox. It gives
/// the ids and envelopes of the entries that are alive and not the reader's own, in the order
/// in which they were written. Only what has expired is gone afterwards.
pub proof fn law_a_read_gives_what_others_wrote(
    st: InnerView,
    who: Seq<u8>,
    connection: Seq<u8>,
    req: MailboxFetch,
    facts: KeyFacts,
    moment: Moment,
)
    ensures
        ({
            let step = dispatch_step(
                st,
                Some(who),
                connection,
                FrameTag::MailboxFetch,
                Some(Request::MailboxFetch(req)),
                facts,
                moment,
            );
            let id = req.mailbox_id@;
            let limit = Limit { capacity: 600, period: 20_000_000 };
            let paid = InnerView {
                mailbox_fetch_buckets: charge(
                    st.mailbox_fetch_buckets,
                    who,
                    limit,
                    moment.monotonic,
                ),
                ..st
            };
            if id.len() != 16 {
                step.inner == st && step.outcome == Err::<Seq<ActionView>, Error>(
                    Error::MalformedFrame("mailbox_id must be 16 bytes"),
                )
            } else if !allowed(lookup(st.mailbox_fetch_buckets, who), limit, moment.monotonic) {
                step.inner == paid && step.outcome == Err::<Seq<ActionView>, Error>(
                    Error::RateLimited,
                )
            } else if st.bootstrap_mailbox_index.dom().contains(id)
                && st.bootstrap_mailbox_index[id] != who {
                step.inner == paid && step.outcome == Err::<Seq<ActionView>, Error>(
                    Error::NotMailboxOwner,
                )
            } else {
                &&& step.outcome == Ok::<Seq<ActionView>, Error>(
                    seq![
                        ActionView::Reply(
                            FrameView::MailboxEntries(
                                held(st, id).filter(
                                    |e: EntryView|
                                        moment.wall < e.expires_at && e.written_by != who,
                                ).map_values(
                                    |e: EntryView|
                                        EntryWireView {
                                            entry_id: e.entry_id,
                                            envelope: e.envelope,
                                        },
                                ),
                            ),
                        ),
                    ],
                )
                &&& !st.mailboxes.dom().contains(id) ==> step.inner == paid
                &&& st.mailboxes.dom().contains(id) ==> step.inner == (InnerView {
                    mailboxes: st.mailboxes.insert(id, alive(st.mailboxes[id], moment.wall)),
                    ..paid
                })
            }
        }),
{
    let id = req.mailbox_id@;
    lemma_alive(held(st, id), moment.wall);
    lemma_readable(held(st, id), who, moment.wall);
    assert(unexpired(Seq::empty(), moment.wall) =~= Seq::empty()) by {
        reveal(Seq::filter);
    }
}

/// A delete is taken exactly where both names are of their length, the caller is within 600
/// deletes and 50 more in a second, and the mailbox is not another's bootstrap mailbox. The
/// entry with that id is then gone from that mailbox, and no other entry of it or of another.
pub proof fn law_a_delete_takes_one_entry(
    st: InnerView,
    who: Seq<u8>,
    connection: Seq<u8>,
    req: MailboxDelete,
    facts: KeyFacts,
    moment: Moment,
)
    ensures
        ({
            let step = dispatch_step(
                st,
                Some(who),
                connection,
                FrameTag::MailboxDelete,
                Some(Request::MailboxDelete(req)),
                facts,
                moment,
            );
            let id = req.mailbox_id@;
            let limit = Limit { capacity: 600, period: 20_000_000 };
            let paid = InnerView {
                mailbox_delete_buckets: charge(
                    st.mailbox_delete_buckets,
                    who,
                    limit,
                    moment.monotonic,
                ),
                ..st
            };
            if id.len() != 16 {
                step.inner == st && step.outcome == Err::<Seq<ActionView>, Error>(
                    Error::MalformedFrame("mailbox_id must be 16 bytes"),
                )
            } else if req.entry_id@.len() != 16 {
                step.inner == st && step.outcome == Err::<Seq<ActionView>, Error>(
                    Error::MalformedFrame("entry_id must be 16 bytes"),
                )
            } else if !allowed(lookup(st.mailbox_delete_buckets, who), limit, moment.monotonic) {
                step.inner == paid && step.outcome == Err::<Seq<ActionView>, Error>(
                    Error::RateLimited,
                )
            } else if st.bootstrap_mailbox_index.dom().contains(id)
                && st.bootstrap_mailbox_index[id] != who {
                step.inner == paid && step.outcome == Err::<Seq<ActionView>, Error>(
                    Error::NotMailboxOwner,
                )
            } else {
                &&& step.outcome == Ok::<Seq<ActionView>, Error>(
                    seq![ActionView::Reply(FrameView::Ack(true))],
                )
                &&& !st.mailboxes.dom().contains(id) ==> step.inner == paid
                &&& st.mailboxes.dom().contains(id) ==> step.inner == (InnerView {
                    mailboxes: st.mailboxes.insert(
                        id,
                        st.mailboxes[id].filter(|e: EntryView| e.entry_id != req.entry_id@),
                    ),
                    ..paid
                })
            }
        }),
{
    let id = req.mailbox_id@;
    assert(super::ws::without_entry(held(st, id), req.entry_id@) =~= held(st, id).filter(
        |e: EntryView| e.entry_id != req.entry_id@,
    ));
}

// Frames.

/// A frame whose first byte is a tag's does what the tagged request does, and is answered with
/// its actions, or with the refusal's text and nothing else. The connection has the identity
/// that an `AuthResponse` has proved, and otherwise keeps the one it had.
pub proof fn law_a_frame_is_answered(
    st: InnerView,
    who: Option<Seq<u8>>,
    connection: Seq<u8>,
    tag: FrameTag,
    body: Seq<u8>,
    request: Option<Request>,
    facts: KeyFacts,
    moment: Moment,
)
    ensures
        ({
            let step = dispatch_step(st, who, connection, tag, request, facts, moment);
            let (after, identity, actions) = frame_actions(
                st,
                who,
                connection,
                seq![tag.byte()] + body,
                request,
                facts,
                moment,
            );
            &&& after == step.inner
            &&& match step.outcome {
                Ok(done) => actions == done,
                Err(e) => actions == seq![ActionView::Reply(FrameView::Error(e.text()))],
            }
            &&& identity == if tag is AuthResponse && step.outcome is Ok {
                Some(facts.fingerprint@)
            } else {
                who
            }
        }),
{
    super::protocol::law_split_undoes_encode(tag, body);
}

/// A frame without a tag that there is changes nothing, and is answered with why.
pub proof fn law_an_untagged_frame_is_refused(
    st: InnerView,
    who: Option<Seq<u8>>,
    connection: Seq<u8>,
    frame: Seq<u8>,
    request: Option<Request>,
    facts: KeyFacts,
    moment: Moment,
)
    requires
        frame.len() == 0 || frame[0] == 0 || frame[0] > 0x12,
    ensures
        frame_actions(st, who, connection, frame, request, facts, moment) == (
            st,
            who,
            seq![
                ActionView::Reply(
                    FrameView::Error(
                        if frame.len() == 0 {
                            Error::MalformedFrame("empty frame").text()
                        } else {
                            Error::MalformedFrame("unknown frame tag").text()
                        },
                    ),
                ),
            ],
        ),
{
}

/// What only the server sends is refused from a client, a second authentication is refused,
/// everything but authenticating, publishing and fetching a bundle takes an identity, and a
/// body that is not its tag's is refused; each without a trace, and in this order.
pub proof fn law_frames_are_let_in_by_their_tag(
    st: InnerView,
    who: Option<Seq<u8>>,
    connection: Seq<u8>,
    tag: FrameTag,
    request: Option<Request>,
    facts: KeyFacts,
    moment: Moment,
)
    ensures
        ({
            let step = dispatch_step(st, who, connection, tag, request, facts, moment);
            let servers = tag is AuthChallenge || tag is BundleResult || tag is PresenceUpdate
                || tag is MailboxEntries || tag is OwnPrekeyCount || tag is Ack || tag is Error;
            let open = tag is AuthResponse || tag is PublishBundle || tag is FetchBundle;
            let fits = match request {
                None => false,
                Some(Request::AuthResponse(_)) => tag is AuthResponse,
                Some(Request::PublishBundle(_)) => tag is PublishBundle,
                Some(Request::FetchBundle(_)) => tag is FetchBundle,
                Some(Request::PresenceAnnounce(_)) => tag is PresenceAnnounce,
                Some(Request::PresenceSubscribe(_)) => tag is PresenceSubscribe,
                Some(Request::RendezvousOffer(_)) => tag is RendezvousOffer,
                Some(Request::RendezvousAnswer(_)) => tag is RendezvousAnswer,
                Some(Request::MailboxWrite(_)) => tag is MailboxWrite,
                Some(Request::MailboxFetch(_)) => tag is MailboxFetch,
                Some(Request::MailboxDelete(_)) => tag is MailboxDelete,
                Some(Request::FetchOwnPrekeyCount(_)) => tag is FetchOwnPrekeyCount,
            };
            let refusal = if servers {
                Some(Error::MalformedFrame("this frame type is server-to-client only"))
            } else if tag is AuthResponse && who is Some {
                Some(Error::AlreadyAuthenticated)
            } else if !open && who is None {
                Some(Error::AuthRequired)
            } else if !fits {
                Some(Error::MalformedFrame("body did not decode as expected CBOR shape"))
            } else {
                None
            };
            refusal matches Some(e) ==> step.inner == st && step.outcome == Err::<
                Seq<ActionView>,
                Error,
            >(e)
        }),
{
}

} // verus!
