//! Why the server refuses a request.

use vstd::prelude::*;

verus! {

#[derive(Debug)]
pub enum Error {
    MalformedFrame(&'static str),
    AuthRequired,
    AuthFailed,
    AlreadyAuthenticated,
    InvalidBundle(&'static str),
    UsernameTaken,
    ProofOfWorkRequired,
    RateLimited,
    NotFound,
    /// A `MailboxFetch` or `MailboxDelete` named the bootstrap mailbox of another registered
    /// identity. Writing to one is open to everybody; reading and deleting is its owner's alone.
    NotMailboxOwner,
    EnvelopeTooLarge,
    /// The mailbox as a whole is at capacity.
    MailboxFull,
    /// The caller alone has used up what one writer may keep in a mailbox.
    WriterQuotaExceeded,
    NewMailboxRateLimited,
    TooManyOneTimePrekeys,
    UsernameTooLong,
    UsernameInvalidCharacters,
    SdpTooLarge,
    IceCandidatesInvalid,
}

pub type Result<T> = std::result::Result<T, Error>;

impl Error {
    /// The text that a client is sent.
    pub open spec fn text(&self) -> Seq<char> {
        match self {
            Error::MalformedFrame(detail) => "malformed frame: "@ + detail@,
            Error::AuthRequired => "authentication required for this operation"@,
            Error::AuthFailed => "authentication failed"@,
            Error::AlreadyAuthenticated => "connection is already authenticated"@,
            Error::InvalidBundle(detail) => "bundle is not internally consistent: "@ + detail@,
            Error::UsernameTaken => "username is already registered to a different identity"@,
            Error::ProofOfWorkRequired =>
                "registering a new username requires a valid proof-of-work solution"@,
            Error::RateLimited => "rate limit exceeded for this target, try again shortly"@,
            Error::NotFound => "not found"@,
            Error::NotMailboxOwner => "this mailbox belongs to a different identity"@,
            Error::EnvelopeTooLarge => "envelope exceeds the maximum allowed size"@,
            Error::MailboxFull =>
                "mailbox is full, try again once existing entries are collected"@,
            Error::WriterQuotaExceeded =>
                "you have already written your share of this mailbox's capacity"@,
            Error::NewMailboxRateLimited =>
                "rate limit exceeded for creating new mailboxes, try again shortly"@,
            Error::TooManyOneTimePrekeys => "too many one-time prekeys in a single publish"@,
            Error::UsernameTooLong => "username exceeds the maximum allowed length"@,
            Error::UsernameInvalidCharacters =>
                "username may only contain ASCII letters, digits, '_', and '-'"@,
            Error::SdpTooLarge => "SDP payload exceeds the maximum allowed length"@,
            Error::IceCandidatesInvalid => "too many or too large ICE candidates"@,
        }
    }

    /// The text that a client is sent.
    pub fn message(&self) -> (message: String)
        ensures
            message@ == self.text(),
    {
        match self {
            Error::MalformedFrame(detail) => {
                let mut message: String = "malformed frame: ".to_owned();
                message.append(detail);
                message
            },
            Error::AuthRequired => "authentication required for this operation".to_owned(),
            Error::AuthFailed => "authentication failed".to_owned(),
            Error::AlreadyAuthenticated => "connection is already authenticated".to_owned(),
            Error::InvalidBundle(detail) => {
                let mut message: String = "bundle is not internally consistent: ".to_owned();
                message.append(detail);
                message
            },
            Error::UsernameTaken =>
                "username is already registered to a different identity".to_owned(),
            Error::ProofOfWorkRequired =>
                "registering a new username requires a valid proof-of-work solution".to_owned(),
            Error::RateLimited =>
                "rate limit exceeded for this target, try again shortly".to_owned(),
            Error::NotFound => "not found".to_owned(),
            Error::NotMailboxOwner => "this mailbox belongs to a different identity".to_owned(),
            Error::EnvelopeTooLarge => "envelope exceeds the maximum allowed size".to_owned(),
            Error::MailboxFull =>
                "mailbox is full, try again once existing entries are collected".to_owned(),
            Error::WriterQuotaExceeded =>
                "you have already written your share of this mailbox's capacity".to_owned(),
            Error::NewMailboxRateLimited =>
                "rate limit exceeded for creating new mailboxes, try again shortly".to_owned(),
            Error::TooManyOneTimePrekeys =>
                "too many one-time prekeys in a single publish".to_owned(),
            Error::UsernameTooLong => "username exceeds the maximum allowed length".to_owned(),
            Error::UsernameInvalidCharacters =>
                "username may only contain ASCII letters, digits, '_', and '-'".to_owned(),
            Error::SdpTooLarge => "SDP payload exceeds the maximum allowed length".to_owned(),
            Error::IceCandidatesInvalid => "too many or too large ICE candidates".to_owned(),
        }
    }
}

} // verus!
