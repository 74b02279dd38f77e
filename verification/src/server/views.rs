//! What the models of the server's types say: each field stands for the field of its name.

use vstd::prelude::*;
use super::action::{actions_view, Action, ActionView, Frame, FrameView, Session};
use super::error::{Error, Result};
use super::protocol::{FetchedBundleWire, MailboxEntryWire, PrekeyBundleWire};
use super::state::{entries_view, Inner, MailboxEntry, StoredBundle};
use super::ws::outcome_is;

verus! {

/// A bundle that is handed out is read field by field.
pub proof fn law_a_fetched_bundle_is_read_by_field(wire: FetchedBundleWire)
    ensures
        wire@.username == wire.username@,
        wire@.discriminator == wire.discriminator,
        wire@.identity_key == wire.identity_key@,
        wire@.identity_dh_public == wire.identity_dh_public@,
        wire@.identity_dh_signature == wire.identity_dh_signature@,
        wire@.signed_prekey_id == wire.signed_prekey_id,
        wire@.signed_prekey == wire.signed_prekey@,
        wire@.signed_prekey_sig == wire.signed_prekey_sig@,
        wire@.signed_prekey_expires_at == wire.signed_prekey_expires_at,
        wire@.one_time_prekey is Some <==> wire.one_time_prekey is Some,
        wire.one_time_prekey matches Some(p) ==> (wire@.one_time_prekey->0).id == p.id && (
        wire@.one_time_prekey->0).key == p.key@,
{
}

/// A bundle that is published is read field by field, and its one-time prekeys in order.
pub proof fn law_a_published_bundle_is_read_by_field(wire: PrekeyBundleWire, i: int)
    ensures
        wire@.username == wire.username@,
        wire@.discriminator == wire.discriminator,
        wire@.identity_key == wire.identity_key@,
        wire@.identity_dh_public == wire.identity_dh_public@,
        wire@.identity_dh_signature == wire.identity_dh_signature@,
        wire@.signed_prekey_id == wire.signed_prekey_id,
        wire@.signed_prekey == wire.signed_prekey@,
        wire@.signed_prekey_sig == wire.signed_prekey_sig@,
        wire@.signed_prekey_expires_at == wire.signed_prekey_expires_at,
        wire@.registration_pow == wire.registration_pow,
        wire@.one_time_prekeys.len() == wire.one_time_prekeys@.len(),
        0 <= i < wire.one_time_prekeys@.len() ==> wire@.one_time_prekeys[i].id
            == wire.one_time_prekeys@[i].id && wire@.one_time_prekeys[i].key
            == wire.one_time_prekeys@[i].key@,
{
}

/// A stored bundle is read as the bundle and the prekeys that it holds.
pub proof fn law_a_stored_bundle_is_read_by_field(stored: StoredBundle, id: u32)
    ensures
        stored@.bundle == stored.bundle@,
        stored@.one_time_prekeys.dom() == stored.one_time_prekeys@.dom(),
        stored.one_time_prekeys@.dom().contains(id) ==> stored@.one_time_prekeys[id]
            == stored.one_time_prekeys@[id]@,
{
    assert(stored@.one_time_prekeys.dom() =~= stored.one_time_prekeys@.dom());
}

/// Entries are read field by field, in order.
pub proof fn law_entries_are_read_by_field(
    entries: Seq<MailboxEntry>,
    wire: MailboxEntryWire,
    i: int,
)
    ensures
        entries_view(entries).len() == entries.len(),
        0 <= i < entries.len() ==> {
            let e = entries_view(entries)[i];
            &&& e.entry_id == entries[i].entry_id@
            &&& e.envelope == entries[i].envelope@
            &&& e.expires_at == entries[i].expires_at
            &&& e.written_by == entries[i].written_by@
        },
        wire@.entry_id == wire.entry_id@,
        wire@.envelope == wire.envelope@,
{
}

/// A frame to a client is read as the kind that it is, field by field.
pub proof fn law_a_frame_is_read_by_field(frame: Frame, i: int)
    ensures
        match frame {
            Frame::AuthChallenge(f) => frame@ == (FrameView::AuthChallenge { nonce: f.nonce@ }),
            Frame::BundleResult(f) => frame@ matches FrameView::BundleResult(b) && (match f.bundle {
                Some(bundle) => b == Some(bundle@),
                None => b is None,
            }),
            Frame::PresenceUpdate(f) => frame@ == (FrameView::PresenceUpdate {
                identity_fingerprint: f.identity_fingerprint@,
                state: f.state,
                last_seen: f.last_seen,
            }),
            Frame::RendezvousOffer(f) => frame@ matches FrameView::RendezvousOffer {
                from,
                sdp,
                ice_candidates,
            } && from == f.peer_fingerprint@ && sdp == f.sdp_offer@ && ice_candidates.len()
                == f.ice_candidates@.len() && (0 <= i < f.ice_candidates@.len()
                ==> ice_candidates[i] == f.ice_candidates@[i]@),
            Frame::RendezvousAnswer(f) => frame@ matches FrameView::RendezvousAnswer {
                from,
                sdp,
                ice_candidates,
            } && from == f.peer_fingerprint@ && sdp == f.sdp_answer@ && ice_candidates.len()
                == f.ice_candidates@.len() && (0 <= i < f.ice_candidates@.len()
                ==> ice_candidates[i] == f.ice_candidates@[i]@),
            Frame::MailboxEntries(f) => frame@ matches FrameView::MailboxEntries(entries)
                && entries.len() == f.entries@.len() && (0 <= i < f.entries@.len() ==> entries[i]
                == f.entries@[i]@),
            Frame::OwnPrekeyCount(f) => frame@ == FrameView::OwnPrekeyCount(f.remaining),
            Frame::Ack(f) => frame@ == FrameView::Ack(f.ok),
            Frame::Error(f) => frame@ == FrameView::Error(f.message@),
        },
{
}

/// Actions are read in order, each as the kind that it is, to whom it goes and what it carries.
pub proof fn law_actions_are_read_in_order(
    actions: Seq<Action>,
    outcome: Result<Vec<Action>>,
    stated: std::result::Result<Seq<ActionView>, Error>,
    i: int,
)
    ensures
        actions_view(actions).len() == actions.len(),
        0 <= i < actions.len() ==> actions_view(actions)[i] == match actions[i] {
            Action::Reply(frame) => ActionView::Reply(frame@),
            Action::Push { to, frame } => ActionView::Push { to: to@, frame: frame@ },
            Action::Relay { to, frame } => ActionView::Relay { to: to@, frame: frame@ },
            Action::Save { fingerprint } => ActionView::Save { fingerprint: fingerprint@ },
            Action::Alert { target, attempts } => ActionView::Alert { target: target@, attempts },
        },
        outcome_is(outcome, stated) <==> match outcome {
            Ok(done) => stated is Ok && stated->Ok_0 == actions_view(done@),
            Err(e) => stated is Err && stated->Err_0 == e,
        },
{
}

/// The state is read table by table.
pub proof fn law_the_state_is_read_by_table(inner: Inner, session: Session, k: Seq<u8>)
    ensures
        inner@.directory.dom() == inner.directory@.dom(),
        inner.directory@.dom().contains(k) ==> inner@.directory[k] == inner.directory@[k]@,
        inner@.bootstrap_mailbox_index.dom() == inner.bootstrap_mailbox_index@.dom(),
        inner.bootstrap_mailbox_index@.dom().contains(k) ==> inner@.bootstrap_mailbox_index[k]
            == inner.bootstrap_mailbox_index@[k]@,
        inner@.username_index.dom() == inner.username_index@.dom(),
        inner.username_index@.dom().contains(k) ==> inner@.username_index[k]
            == inner.username_index@[k]@,
        inner@.presence == inner.presence@,
        inner@.subscriptions.dom() == inner.subscriptions@.dom(),
        inner.subscriptions@.dom().contains(k) ==> inner@.subscriptions[k]
            == inner.subscriptions@[k]@.dom(),
        inner@.fetch_evidence.dom() == inner.fetch_evidence@.dom(),
        inner.fetch_evidence@.dom().contains(k) ==> inner@.fetch_evidence[k]
            == inner.fetch_evidence@[k]@.dom(),
        inner@.mailboxes.dom() == inner.mailboxes@.dom(),
        inner.mailboxes@.dom().contains(k) ==> inner@.mailboxes[k] == entries_view(
            inner.mailboxes@[k]@,
        ),
        inner@.connections == inner.connections@.dom(),
        inner@.fetch_buckets == inner.fetch_rate_limiter@,
        inner@.new_mailbox_buckets == inner.new_mailbox_rate_limiter@,
        inner@.rendezvous_buckets == inner.rendezvous_rate_limiter@,
        inner@.mailbox_fetch_buckets == inner.mailbox_fetch_rate_limiter@,
        inner@.mailbox_delete_buckets == inner.mailbox_delete_rate_limiter@,
        inner@.otp_exhaustion_attempts == inner.otp_exhaustion_attempts@,
        match session.authenticated {
            Some(fp) => session.identity() == Some(fp@),
            None => session.identity() is None,
        },
{
    assert(inner@.directory.dom() =~= inner.directory@.dom());
    assert(inner@.bootstrap_mailbox_index.dom() =~= inner.bootstrap_mailbox_index@.dom());
    assert(inner@.username_index.dom() =~= inner.username_index@.dom());
    assert(inner@.subscriptions.dom() =~= inner.subscriptions@.dom());
    assert(inner@.fetch_evidence.dom() =~= inner.fetch_evidence@.dom());
    assert(inner@.mailboxes.dom() =~= inner.mailboxes@.dom());
}

} // verus!
