//! Why the store cannot do what it is asked.

use vstd::prelude::*;

verus! {

#[derive(Debug)]
pub enum Error {
    WrongPassphraseOrCorrupted,
    PassphraseHash(String),
    MalformedRecord(&'static str),
    DecryptionFailed,
    /// A record is longer than the cipher can encrypt under one nonce.
    EncryptionFailed,
    /// Chat content is neither sent to nor released from a contact that is not verified.
    NotVerified,
}

pub type Result<T> = std::result::Result<T, Error>;

pub enum ErrorView {
    WrongPassphraseOrCorrupted,
    PassphraseHash(Seq<char>),
    MalformedRecord(&'static str),
    DecryptionFailed,
    EncryptionFailed,
    NotVerified,
}

impl View for Error {
    type V = ErrorView;

    open spec fn view(&self) -> ErrorView {
        match self {
            Error::WrongPassphraseOrCorrupted => ErrorView::WrongPassphraseOrCorrupted,
            Error::PassphraseHash(detail) => ErrorView::PassphraseHash(detail@),
            Error::MalformedRecord(detail) => ErrorView::MalformedRecord(*detail),
            Error::DecryptionFailed => ErrorView::DecryptionFailed,
            Error::EncryptionFailed => ErrorView::EncryptionFailed,
            Error::NotVerified => ErrorView::NotVerified,
        }
    }
}

impl ErrorView {
    /// The text that a user is shown.
    pub open spec fn text(self) -> Seq<char> {
        match self {
            ErrorView::WrongPassphraseOrCorrupted =>
                "wrong passphrase, or the database is corrupted"@,
            ErrorView::PassphraseHash(detail) => "passphrase hashing failed: "@ + detail,
            ErrorView::MalformedRecord(detail) => "stored record is malformed: "@ + detail@,
            ErrorView::DecryptionFailed =>
                "stored record failed to decrypt (corrupted or tampered)"@,
            ErrorView::EncryptionFailed => "record is too long to encrypt"@,
            ErrorView::NotVerified =>
                "contact is not verified — chat content is blocked until §6.2's mandatory gate is satisfied"@,
        }
    }
}

impl Error {
    /// The text that a user is shown.
    pub fn message(&self) -> (message: String)
        ensures
            message@ == self@.text(),
    {
        match self {
            Error::WrongPassphraseOrCorrupted =>
                "wrong passphrase, or the database is corrupted".to_owned(),
            Error::PassphraseHash(detail) => {
                let mut message: String = "passphrase hashing failed: ".to_owned();
                message.append(detail.as_str());
                message
            },
            Error::MalformedRecord(detail) => {
                let mut message: String = "stored record is malformed: ".to_owned();
                message.append(detail);
                message
            },
            Error::DecryptionFailed =>
                "stored record failed to decrypt (corrupted or tampered)".to_owned(),
            Error::EncryptionFailed => "record is too long to encrypt".to_owned(),
            Error::NotVerified =>
                "contact is not verified — chat content is blocked until §6.2's mandatory gate is satisfied".to_owned(),
        }
    }
}

} // verus!
