//! No chat with a contact that is not verified.
//!
//! The ratchet itself runs outside: before it encrypts, [`encrypt_gated`] says whether it may;
//! after it has decrypted, [`decrypt_gated`] says what may be released. Other payloads pass, so
//! that a pending contact can still become verified.

use vstd::prelude::*;
use super::contacts::{Contact, ContactView, VerificationState};
use super::error::{Error, Result};

verus! {

/// Whether a payload is held back.
pub open spec fn held_back(contact: ContactView, is_chat: bool) -> bool {
    is_chat && !(contact.verification_state is Verified)
}

/// Whether a payload may be encrypted for the contact. `is_chat` says that it is chat content.
pub fn encrypt_gated(contact: &Contact, is_chat: bool) -> (allowed: Result<()>)
    ensures
        match allowed {
            Ok(_) => !held_back(contact@, is_chat),
            Err(e) => held_back(contact@, is_chat) && e is NotVerified,
        },
{
    if is_chat && contact.verification_state != VerificationState::Verified {
        Err(Error::NotVerified)
    } else {
        Ok(())
    }
}

/// What is released of a payload that the ratchet has decrypted. `is_chat` says that its type
/// is that of chat content.
pub fn decrypt_gated(contact: &Contact, is_chat: bool, payload_type: u8, content: Vec<u8>) -> (released:
    Result<(u8, Vec<u8>)>)
    ensures
        match released {
            Ok(payload) => !held_back(contact@, is_chat) && payload.0 == payload_type && payload.1@
                == content@,
            Err(e) => held_back(contact@, is_chat) && e is NotVerified,
        },
{
    if is_chat && contact.verification_state != VerificationState::Verified {
        Err(Error::NotVerified)
    } else {
        Ok((payload_type, content))
    }
}

impl Contact {
    /// The fingerprint matched: the only way to become verified.
    pub fn mark_verified(&mut self)
        ensures
            final(self)@ == (ContactView {
                verification_state: VerificationState::Verified,
                ..old(self)@
            }),
    {
        self.verification_state = VerificationState::Verified;
    }

    /// The fingerprint did not match, or has changed.
    pub fn mark_mismatch(&mut self)
        ensures
            final(self)@ == (ContactView {
                verification_state: VerificationState::Mismatch,
                ..old(self)@
            }),
    {
        self.verification_state = VerificationState::Mismatch;
    }
}

/// Chat passes, in either direction, exactly where the contact is verified; anything else
/// always passes.
pub proof fn law_gate_follows_verification(contact: ContactView)
    ensures
        held_back(contact, true) <==> contact.verification_state is Pending
            || contact.verification_state is Mismatch,
        !held_back(contact, false),
{
}

} // verus!
