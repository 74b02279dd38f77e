//! Moving a conversation from its bootstrap mailbox to the one that both routing ids stand for.

use vstd::prelude::*;
use crate::bytes::{bytes_equal, copy_bytes};
use super::contacts::{
    contact_fits, contact_storable, stored_contact, stores_contact, Contact, ContactView,
};
use super::db::{Db, DbView};
use super::error::{Error, ErrorView, Result};

verus! {

/// The contact once the peer's routing id is known. Where it is known already, nothing changes.
pub open spec fn routed(contact: ContactView, peer_routing_id: Seq<u8>, mailbox_id: Seq<u8>) -> ContactView {
    if contact.peer_routing_id == Some(peer_routing_id) {
        contact
    } else {
        ContactView { mailbox_id, peer_routing_id: Some(peer_routing_id), ..contact }
    }
}

/// Whether recording the peer's routing id did what it should.
pub open spec fn routing_outcome(
    before: DbView,
    after: DbView,
    fingerprint: Seq<u8>,
    peer_routing_id: Seq<u8>,
    mailbox_id: Seq<u8>,
    result: std::result::Result<ContactView, ErrorView>,
) -> bool {
    match stored_contact(before, fingerprint) {
        Err(e) => after == before && result == std::result::Result::<ContactView, ErrorView>::Err(e),
        Ok(None) => after == before && result == std::result::Result::<ContactView, ErrorView>::Err(
            ErrorView::MalformedRecord("record_peer_routing_id: no such contact"),
        ),
        Ok(Some(c)) => {
            let routed = routed(c, peer_routing_id, mailbox_id);
            if c.peer_routing_id == Some(peer_routing_id) {
                after == before && result == std::result::Result::<ContactView, ErrorView>::Ok(c)
            } else if contact_storable(routed) {
                stores_contact(before, after, routed) && result == std::result::Result::<
                    ContactView,
                    ErrorView,
                >::Ok(routed)
            } else {
                after == before && result == std::result::Result::<ContactView, ErrorView>::Err(
                    ErrorView::EncryptionFailed,
                )
            }
        },
    }
}

/// The view of a contact or an error.
pub open spec fn contact_result(result: Result<Contact>) -> std::result::Result<
    ContactView,
    ErrorView,
> {
    match result {
        Ok(c) => Ok(c@),
        Err(e) => Err(e@),
    }
}

impl Db {
    /// Records the routing id that the peer has announced. `mailbox_id` is the mailbox that it
    /// and this side's routing id stand for together.
    pub fn record_peer_routing_id(
        &mut self,
        fingerprint: &[u8],
        peer_routing_id: Vec<u8>,
        mailbox_id: [u8; 16],
    ) -> (contact: Result<Contact>)
        ensures
            routing_outcome(
                old(self)@,
                final(self)@,
                fingerprint@,
                peer_routing_id@,
                mailbox_id@,
                contact_result(contact),
            ),
            stored_contact(old(self)@, fingerprint@) matches Ok(Some(c)) && contact_fits(
                routed(c, peer_routing_id@, mailbox_id@),
            ) ==> contact is Ok,
    {
        let mut contact: Contact = match self.load_contact(fingerprint) {
            Ok(Some(contact)) => contact,
            Ok(None) => {
                return Err(
                    Error::MalformedRecord("record_peer_routing_id: no such contact"),
                );
            },
            Err(e) => {
                return Err(e);
            },
        };
        let known: bool = match &contact.peer_routing_id {
            Some(id) => bytes_equal(id.as_slice(), peer_routing_id.as_slice()),
            None => false,
        };
        if !known {
            contact.mailbox_id = copy_bytes(mailbox_id.as_slice());
            contact.peer_routing_id = Some(peer_routing_id);
            match self.save_contact(&contact) {
                Ok(_) => {},
                Err(e) => {
                    return Err(e);
                },
            }
        }
        Ok(contact)
    }
}

/// Recording the same announcement twice is the same as recording it once.
pub proof fn law_routing_is_idempotent(
    before: DbView,
    after: DbView,
    again: DbView,
    fingerprint: Seq<u8>,
    peer_routing_id: Seq<u8>,
    mailbox_id: Seq<u8>,
    other_mailbox_id: Seq<u8>,
    first: std::result::Result<ContactView, ErrorView>,
    second: std::result::Result<ContactView, ErrorView>,
)
    requires
        routing_outcome(before, after, fingerprint, peer_routing_id, mailbox_id, first),
        first matches Ok(c) && c.fingerprint == fingerprint,
        routing_outcome(after, again, fingerprint, peer_routing_id, other_mailbox_id, second),
    ensures
        again == after,
        second == first,
{
}

/// Where the key library gives both sides of an exchange the same mailbox, as it does whichever
/// way round it is given their routing ids, both sides end with that mailbox.
pub proof fn law_both_sides_end_with_one_mailbox(
    here: DbView,
    here_after: DbView,
    there: DbView,
    there_after: DbView,
    peer: Seq<u8>,
    this: Seq<u8>,
    peer_routing_id: Seq<u8>,
    local_routing_id: Seq<u8>,
    mailbox_id: Seq<u8>,
    first: std::result::Result<ContactView, ErrorView>,
    second: std::result::Result<ContactView, ErrorView>,
)
    requires
        routing_outcome(here, here_after, peer, peer_routing_id, mailbox_id, first),
        routing_outcome(there, there_after, this, local_routing_id, mailbox_id, second),
        stored_contact(here, peer) matches Ok(Some(c)) && c.peer_routing_id != Some(
            peer_routing_id,
        ),
        stored_contact(there, this) matches Ok(Some(c)) && c.peer_routing_id != Some(
            local_routing_id,
        ),
        first is Ok,
        second is Ok,
    ensures
        first->Ok_0.mailbox_id == second->Ok_0.mailbox_id,
        first->Ok_0.mailbox_id == mailbox_id,
{
}

} // verus!
