//! What a connection asks for, and what the server does about it.

use vstd::prelude::*;
use super::protocol::{
    Ack, AuthChallenge, AuthResponse, BundleResult, ErrorFrame, FetchBundle, FetchOwnPrekeyCount,
    FetchedBundleWire, MailboxDelete, MailboxEntries, MailboxEntryWire, MailboxFetch, MailboxWrite,
    OneTimePrekeyWire, OwnPrekeyCount, PresenceAnnounce, PresenceSubscribe, PresenceUpdate,
    PublishBundle, RendezvousAnswer, RendezvousOffer,
};
use super::abuse::ConnectionId;
use super::protocol::FrameTag;
use super::state::{Fingerprint, MailboxId, OneTimePrekeyView};

verus! {

/// A decoded frame from a client.
pub enum Request {
    AuthResponse(AuthResponse),
    PublishBundle(PublishBundle),
    FetchBundle(FetchBundle),
    PresenceAnnounce(PresenceAnnounce),
    PresenceSubscribe(PresenceSubscribe),
    RendezvousOffer(RendezvousOffer),
    RendezvousAnswer(RendezvousAnswer),
    MailboxWrite(MailboxWrite),
    MailboxFetch(MailboxFetch),
    MailboxDelete(MailboxDelete),
    FetchOwnPrekeyCount(FetchOwnPrekeyCount),
}

impl Request {
    /// The tag that the request came under.
    pub open spec fn tag(&self) -> FrameTag {
        match self {
            Request::AuthResponse(_) => FrameTag::AuthResponse,
            Request::PublishBundle(_) => FrameTag::PublishBundle,
            Request::FetchBundle(_) => FrameTag::FetchBundle,
            Request::PresenceAnnounce(_) => FrameTag::PresenceAnnounce,
            Request::PresenceSubscribe(_) => FrameTag::PresenceSubscribe,
            Request::RendezvousOffer(_) => FrameTag::RendezvousOffer,
            Request::RendezvousAnswer(_) => FrameTag::RendezvousAnswer,
            Request::MailboxWrite(_) => FrameTag::MailboxWrite,
            Request::MailboxFetch(_) => FrameTag::MailboxFetch,
            Request::MailboxDelete(_) => FrameTag::MailboxDelete,
            Request::FetchOwnPrekeyCount(_) => FrameTag::FetchOwnPrekeyCount,
        }
    }
}

/// What only public-key cryptography can say of a request.
pub struct KeyFacts {
    /// The fingerprint of the identity key that a `PublishBundle` carries or that an
    /// `AuthResponse` is to be verified with (see `ws::authentication_key`).
    pub fingerprint: Fingerprint,
    /// The bootstrap mailbox of that fingerprint.
    pub bootstrap_mailbox: MailboxId,
    /// Of an `AuthResponse`: its signature is that key's over this connection's nonce. Of a
    /// `PublishBundle`: every signature in the bundle is that identity's.
    pub signature_valid: bool,
}

/// One connection.
pub struct Session {
    pub nonce: [u8; 32],
    pub connection_id: ConnectionId,
    pub authenticated: Option<Fingerprint>,
}

impl Session {
    /// The identity that the connection has proved to be.
    pub open spec fn identity(&self) -> Option<Seq<u8>> {
        fingerprint_view(self.authenticated)
    }
}

pub open spec fn fingerprint_view(fingerprint: Option<Fingerprint>) -> Option<Seq<u8>> {
    match fingerprint {
        Some(fp) => Some(fp@),
        None => None,
    }
}

/// A frame to a client.
pub enum Frame {
    AuthChallenge(AuthChallenge),
    BundleResult(BundleResult),
    PresenceUpdate(PresenceUpdate),
    RendezvousOffer(RendezvousOffer),
    RendezvousAnswer(RendezvousAnswer),
    MailboxEntries(MailboxEntries),
    OwnPrekeyCount(OwnPrekeyCount),
    Ack(Ack),
    Error(ErrorFrame),
}

pub struct FetchedView {
    pub username: Seq<char>,
    pub discriminator: u16,
    pub identity_key: Seq<u8>,
    pub identity_dh_public: Seq<u8>,
    pub identity_dh_signature: Seq<u8>,
    pub signed_prekey_id: u32,
    pub signed_prekey: Seq<u8>,
    pub signed_prekey_sig: Seq<u8>,
    pub signed_prekey_expires_at: u64,
    pub one_time_prekey: Option<OneTimePrekeyView>,
}

pub open spec fn prekey_view(prekey: Option<OneTimePrekeyWire>) -> Option<OneTimePrekeyView> {
    match prekey {
        Some(p) => Some(p@),
        None => None,
    }
}

impl View for FetchedBundleWire {
    type V = FetchedView;

    open spec fn view(&self) -> FetchedView {
        FetchedView {
            username: self.username@,
            discriminator: self.discriminator,
            identity_key: self.identity_key@,
            identity_dh_public: self.identity_dh_public@,
            identity_dh_signature: self.identity_dh_signature@,
            signed_prekey_id: self.signed_prekey_id,
            signed_prekey: self.signed_prekey@,
            signed_prekey_sig: self.signed_prekey_sig@,
            signed_prekey_expires_at: self.signed_prekey_expires_at,
            one_time_prekey: prekey_view(self.one_time_prekey),
        }
    }
}

pub struct EntryWireView {
    pub entry_id: Seq<u8>,
    pub envelope: Seq<u8>,
}

impl View for MailboxEntryWire {
    type V = EntryWireView;

    open spec fn view(&self) -> EntryWireView {
        EntryWireView { entry_id: self.entry_id@, envelope: self.envelope@ }
    }
}

pub enum FrameView {
    AuthChallenge { nonce: Seq<u8> },
    BundleResult(Option<FetchedView>),
    PresenceUpdate { identity_fingerprint: Seq<u8>, state: u8, last_seen: Option<u64> },
    RendezvousOffer { from: Seq<u8>, sdp: Seq<char>, ice_candidates: Seq<Seq<char>> },
    RendezvousAnswer { from: Seq<u8>, sdp: Seq<char>, ice_candidates: Seq<Seq<char>> },
    MailboxEntries(Seq<EntryWireView>),
    OwnPrekeyCount(u64),
    Ack(bool),
    Error(Seq<char>),
}

/// The texts of a list of strings.
pub open spec fn texts(strings: Seq<String>) -> Seq<Seq<char>> {
    strings.map_values(|s: String| s@)
}

impl View for Frame {
    type V = FrameView;

    open spec fn view(&self) -> FrameView {
        match self {
            Frame::AuthChallenge(f) => FrameView::AuthChallenge { nonce: f.nonce@ },
            Frame::BundleResult(f) => FrameView::BundleResult(
                match f.bundle {
                    Some(b) => Some(b@),
                    None => None,
                },
            ),
            Frame::PresenceUpdate(f) => FrameView::PresenceUpdate {
                identity_fingerprint: f.identity_fingerprint@,
                state: f.state,
                last_seen: f.last_seen,
            },
            Frame::RendezvousOffer(f) => FrameView::RendezvousOffer {
                from: f.peer_fingerprint@,
                sdp: f.sdp_offer@,
                ice_candidates: texts(f.ice_candidates@),
            },
            Frame::RendezvousAnswer(f) => FrameView::RendezvousAnswer {
                from: f.peer_fingerprint@,
                sdp: f.sdp_answer@,
                ice_candidates: texts(f.ice_candidates@),
            },
            Frame::MailboxEntries(f) => FrameView::MailboxEntries(
                f.entries@.map_values(|e: MailboxEntryWire| e@),
            ),
            Frame::OwnPrekeyCount(f) => FrameView::OwnPrekeyCount(f.remaining),
            Frame::Ack(f) => FrameView::Ack(f.ok),
            Frame::Error(f) => FrameView::Error(f.message@),
        }
    }
}

/// What is to be done about a frame, in order.
pub enum Action {
    /// Answer on the connection that the frame came on.
    Reply(Frame),
    /// Send to another identity's connection; nothing depends on whether it gets there.
    Push { to: Vec<u8>, frame: Frame },
    /// Send to another identity's connection, and answer with `relay_acknowledgement`.
    Relay { to: Vec<u8>, frame: Frame },
    /// Write the identity's directory record to disk, where the directory is persistent.
    Save { fingerprint: Vec<u8> },
    /// Put into the log that the identity's prekeys are repeatedly found used up.
    Alert { target: Vec<u8>, attempts: u32 },
}

pub enum ActionView {
    Reply(FrameView),
    Push { to: Seq<u8>, frame: FrameView },
    Relay { to: Seq<u8>, frame: FrameView },
    Save { fingerprint: Seq<u8> },
    Alert { target: Seq<u8>, attempts: u32 },
}

impl View for Action {
    type V = ActionView;

    open spec fn view(&self) -> ActionView {
        match self {
            Action::Reply(frame) => ActionView::Reply(frame@),
            Action::Push { to, frame } => ActionView::Push { to: to@, frame: frame@ },
            Action::Relay { to, frame } => ActionView::Relay { to: to@, frame: frame@ },
            Action::Save { fingerprint } => ActionView::Save { fingerprint: fingerprint@ },
            Action::Alert { target, attempts } => ActionView::Alert {
                target: target@,
                attempts: *attempts,
            },
        }
    }
}

/// What a list of actions says.
pub open spec fn actions_view(actions: Seq<Action>) -> Seq<ActionView> {
    actions.map_values(|a: Action| a@)
}

} // verus!
