//! Frames of the wire protocol: a tag byte followed by a CBOR body.

use vstd::prelude::*;
use super::error::{Error, Result};

verus! {

/// The first byte of a frame.
#[derive(Debug, Clone, Copy, PartialEq, Eq, Structural)]
pub enum FrameTag {
    AuthChallenge,
    AuthResponse,
    PublishBundle,
    FetchBundle,
    BundleResult,
    PresenceAnnounce,
    PresenceUpdate,
    PresenceSubscribe,
    RendezvousOffer,
    RendezvousAnswer,
    MailboxWrite,
    MailboxFetch,
    MailboxEntries,
    MailboxDelete,
    Ack,
    Error,
    FetchOwnPrekeyCount,
    OwnPrekeyCount,
}

impl FrameTag {
    /// The byte that stands for this tag on the wire.
    pub open spec fn byte(self) -> u8 {
        match self {
            FrameTag::AuthChallenge => 0x01,
            FrameTag::AuthResponse => 0x02,
            FrameTag::PublishBundle => 0x03,
            FrameTag::FetchBundle => 0x04,
            FrameTag::BundleResult => 0x05,
            FrameTag::PresenceAnnounce => 0x06,
            FrameTag::PresenceUpdate => 0x07,
            FrameTag::PresenceSubscribe => 0x08,
            FrameTag::RendezvousOffer => 0x09,
            FrameTag::RendezvousAnswer => 0x0A,
            FrameTag::MailboxWrite => 0x0B,
            FrameTag::MailboxFetch => 0x0C,
            FrameTag::MailboxEntries => 0x0D,
            FrameTag::MailboxDelete => 0x0E,
            FrameTag::Ack => 0x0F,
            FrameTag::Error => 0x10,
            FrameTag::FetchOwnPrekeyCount => 0x11,
            FrameTag::OwnPrekeyCount => 0x12,
        }
    }

    /// The byte that stands for this tag on the wire.
    pub fn to_u8(self) -> (byte: u8)
        ensures
            byte == self.byte(),
    {
        match self {
            FrameTag::AuthChallenge => 0x01,
            FrameTag::AuthResponse => 0x02,
            FrameTag::PublishBundle => 0x03,
            FrameTag::FetchBundle => 0x04,
            FrameTag::BundleResult => 0x05,
            FrameTag::PresenceAnnounce => 0x06,
            FrameTag::PresenceUpdate => 0x07,
            FrameTag::PresenceSubscribe => 0x08,
            FrameTag::RendezvousOffer => 0x09,
            FrameTag::RendezvousAnswer => 0x0A,
            FrameTag::MailboxWrite => 0x0B,
            FrameTag::MailboxFetch => 0x0C,
            FrameTag::MailboxEntries => 0x0D,
            FrameTag::MailboxDelete => 0x0E,
            FrameTag::Ack => 0x0F,
            FrameTag::Error => 0x10,
            FrameTag::FetchOwnPrekeyCount => 0x11,
            FrameTag::OwnPrekeyCount => 0x12,
        }
    }

    /// The tag that a wire byte stands for, if it stands for one.
    pub fn from_u8(b: u8) -> (tag: Option<FrameTag>)
        ensures
            tag matches Some(t) ==> t.byte() == b,
            tag is None ==> forall|t: FrameTag| t.byte() != b,
    {
        match b {
            0x01 => Some(FrameTag::AuthChallenge),
            0x02 => Some(FrameTag::AuthResponse),
            0x03 => Some(FrameTag::PublishBundle),
            0x04 => Some(FrameTag::FetchBundle),
            0x05 => Some(FrameTag::BundleResult),
            0x06 => Some(FrameTag::PresenceAnnounce),
            0x07 => Some(FrameTag::PresenceUpdate),
            0x08 => Some(FrameTag::PresenceSubscribe),
            0x09 => Some(FrameTag::RendezvousOffer),
            0x0A => Some(FrameTag::RendezvousAnswer),
            0x0B => Some(FrameTag::MailboxWrite),
            0x0C => Some(FrameTag::MailboxFetch),
            0x0D => Some(FrameTag::MailboxEntries),
            0x0E => Some(FrameTag::MailboxDelete),
            0x0F => Some(FrameTag::Ack),
            0x10 => Some(FrameTag::Error),
            0x11 => Some(FrameTag::FetchOwnPrekeyCount),
            0x12 => Some(FrameTag::OwnPrekeyCount),
            _ => None,
        }
    }
}

/// Different tags have different bytes.
pub proof fn law_tag_bytes_distinct(a: FrameTag, b: FrameTag)
    ensures
        a.byte() == b.byte() <==> a == b,
{
}

/// The tags are numbered from one in the order in which the protocol names them.
pub proof fn law_tags_are_numbered(tag: FrameTag, body: Seq<u8>)
    ensures
        tag is AuthChallenge <==> tag.byte() == 1,
        tag is AuthResponse <==> tag.byte() == 2,
        tag is PublishBundle <==> tag.byte() == 3,
        tag is FetchBundle <==> tag.byte() == 4,
        tag is BundleResult <==> tag.byte() == 5,
        tag is PresenceAnnounce <==> tag.byte() == 6,
        tag is PresenceUpdate <==> tag.byte() == 7,
        tag is PresenceSubscribe <==> tag.byte() == 8,
        tag is RendezvousOffer <==> tag.byte() == 9,
        tag is RendezvousAnswer <==> tag.byte() == 10,
        tag is MailboxWrite <==> tag.byte() == 11,
        tag is MailboxFetch <==> tag.byte() == 12,
        tag is MailboxEntries <==> tag.byte() == 13,
        tag is MailboxDelete <==> tag.byte() == 14,
        tag is Ack <==> tag.byte() == 15,
        tag is Error <==> tag.byte() == 16,
        tag is FetchOwnPrekeyCount <==> tag.byte() == 17,
        tag is OwnPrekeyCount <==> tag.byte() == 18,
        framed(tag, body).len() == body.len() + 1,
        framed(tag, body)[0] == tag.byte(),
        framed(tag, body).drop_first() == body,
{
    assert(framed(tag, body).drop_first() =~= body);
}

/// The frame that carries `body` under `tag`.
pub open spec fn framed(tag: FrameTag, body: Seq<u8>) -> Seq<u8> {
    seq![tag.byte()] + body
}

/// What a raw frame holds: its tag and its body, or why it is refused.
pub open spec fn frame_parts(frame: Seq<u8>) -> std::result::Result<(FrameTag, Seq<u8>), Error> {
    if frame.len() == 0 {
        Err(Error::MalformedFrame("empty frame"))
    } else if exists|t: FrameTag| t.byte() == frame[0] {
        Ok((choose|t: FrameTag| t.byte() == frame[0], frame.drop_first()))
    } else {
        Err(Error::MalformedFrame("unknown frame tag"))
    }
}

/// Puts the tag byte in front of an encoded body.
pub fn encode(tag: FrameTag, body: &[u8]) -> (frame: Vec<u8>)
    ensures
        frame@ == framed(tag, body@),
{
    let mut frame: Vec<u8> = Vec::new();
    frame.push(tag.to_u8());
    frame.extend_from_slice(body);
    assert(frame@ =~= framed(tag, body@));
    frame
}

/// Splits a raw frame into its tag and its body, without reading the body.
pub fn split_tag(frame: &[u8]) -> (parts: Result<(FrameTag, &[u8])>)
    ensures
        match parts {
            Ok(p) => frame_parts(frame@) == Ok::<(FrameTag, Seq<u8>), Error>((p.0, p.1@)),
            Err(e) => frame_parts(frame@) == Err::<(FrameTag, Seq<u8>), Error>(e),
        },
{
    if frame.len() == 0 {
        return Err(Error::MalformedFrame("empty frame"));
    }
    match FrameTag::from_u8(frame[0]) {
        Some(tag) => {
            let body: &[u8] = vstd::slice::slice_subrange(frame, 1, frame.len());
            proof {
                assert(tag.byte() == frame@[0]);
                let t = choose|t: FrameTag| t.byte() == frame@[0];
                law_tag_bytes_distinct(t, tag);
                assert(body@ =~= frame@.drop_first());
            }
            Ok((tag, body))
        },
        None => Err(Error::MalformedFrame("unknown frame tag")),
    }
}

/// Splitting a frame gives back the tag and the body that were put into it.
pub proof fn law_split_undoes_encode(tag: FrameTag, body: Seq<u8>)
    ensures
        frame_parts(framed(tag, body)) == Ok::<(FrameTag, Seq<u8>), Error>((tag, body)),
{
    let frame = framed(tag, body);
    assert(tag.byte() == frame[0]);
    let t = choose|t: FrameTag| t.byte() == frame[0];
    law_tag_bytes_distinct(t, tag);
    assert(frame.drop_first() =~= body);
}

#[derive(Debug)]
pub struct AuthChallenge {
    pub nonce: Vec<u8>,
}

/// The identity that answers, and its signature over the nonce. An identity that is not
/// registered sends its public key along.
#[derive(Debug)]
pub struct AuthResponse {
    pub identity_fingerprint: Vec<u8>,
    pub signature: Vec<u8>,
    pub identity_key: Option<Vec<u8>>,
}

#[derive(Debug, Clone)]
pub struct OneTimePrekeyWire {
    pub id: u32,
    pub key: Vec<u8>,
}

/// A bundle as it is published, with a batch of one-time prekeys.
#[derive(Debug, Clone)]
pub struct PrekeyBundleWire {
    pub username: String,
    pub discriminator: u16,
    pub identity_key: Vec<u8>,
    pub identity_dh_public: Vec<u8>,
    pub identity_dh_signature: Vec<u8>,
    pub signed_prekey_id: u32,
    pub signed_prekey: Vec<u8>,
    pub signed_prekey_sig: Vec<u8>,
    pub signed_prekey_expires_at: u64,
    pub one_time_prekeys: Vec<OneTimePrekeyWire>,
    /// The proof of work that claiming a new username takes.
    pub registration_pow: Option<u64>,
}

#[derive(Debug)]
pub struct PublishBundle {
    pub bundle: PrekeyBundleWire,
}

#[derive(Debug)]
pub struct FetchBundle {
    pub username: String,
    pub discriminator: u16,
}

/// A bundle as it is handed out: with at most one one-time prekey, which is gone from the
/// stored batch afterwards.
#[derive(Debug, Clone)]
pub struct FetchedBundleWire {
    pub username: String,
    pub discriminator: u16,
    pub identity_key: Vec<u8>,
    pub identity_dh_public: Vec<u8>,
    pub identity_dh_signature: Vec<u8>,
    pub signed_prekey_id: u32,
    pub signed_prekey: Vec<u8>,
    pub signed_prekey_sig: Vec<u8>,
    pub signed_prekey_expires_at: u64,
    pub one_time_prekey: Option<OneTimePrekeyWire>,
}

#[derive(Debug)]
pub struct BundleResult {
    pub bundle: Option<FetchedBundleWire>,
}

#[derive(Debug, Clone, Copy)]
pub enum PresenceState {
    Online,
    Away,
    Offline,
}

#[derive(Debug)]
pub struct PresenceAnnounce {
    pub state: u8,
}

#[derive(Debug)]
pub struct PresenceUpdate {
    pub identity_fingerprint: Vec<u8>,
    pub state: u8,
    pub last_seen: Option<u64>,
}

#[derive(Debug)]
pub struct PresenceSubscribe {
    pub identity_fingerprint: Vec<u8>,
}

#[derive(Debug)]
pub struct RendezvousOffer {
    pub peer_fingerprint: Vec<u8>,
    pub sdp_offer: String,
    pub ice_candidates: Vec<String>,
}

#[derive(Debug)]
pub struct RendezvousAnswer {
    pub peer_fingerprint: Vec<u8>,
    pub sdp_answer: String,
    pub ice_candidates: Vec<String>,
}

#[derive(Debug)]
pub struct MailboxWrite {
    pub mailbox_id: Vec<u8>,
    pub envelope: Vec<u8>,
    pub ttl: u32,
}

#[derive(Debug)]
pub struct MailboxFetch {
    pub mailbox_id: Vec<u8>,
}

#[derive(Debug, Clone)]
pub struct MailboxEntryWire {
    pub entry_id: Vec<u8>,
    pub envelope: Vec<u8>,
}

#[derive(Debug)]
pub struct MailboxEntries {
    pub entries: Vec<MailboxEntryWire>,
}

#[derive(Debug)]
pub struct MailboxDelete {
    pub mailbox_id: Vec<u8>,
    pub entry_id: Vec<u8>,
}

#[derive(Debug)]
pub struct FetchOwnPrekeyCount {}

#[derive(Debug)]
pub struct OwnPrekeyCount {
    pub remaining: u64,
}

#[derive(Debug)]
pub struct Ack {
    pub ok: bool,
}

#[derive(Debug)]
pub struct ErrorFrame {
    pub message: String,
}

} // verus!
