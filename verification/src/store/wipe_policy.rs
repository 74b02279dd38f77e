//! How a conversation is wiped on both sides.

use vstd::prelude::*;
use crate::map::lemma_in_order_of_finite;
use super::contacts::{
    contact_fits, contact_storable, stored_contact, stores_contact, Contact, ContactView,
};
use super::db::{
    listing, names_view, ratchet_name, ratchet_prefix, message_prefix, lemma_content_prefixes, Db,
    DbView, Scope,
};
use super::error::{Error, ErrorView, Result};
use super::messages::{conversation_prefix, message_key_prefix};
use super::routing::contact_result;

verus! {

impl Contact {
    /// Whether a wipe request waits for confirmation: only if both sides want it so.
    pub fn effective_wipe_ask_before_delete(&self) -> (ask: bool)
        ensures
            ask == (self@.wipe_ask_before_delete && self@.peer_wipe_ask_before_delete == Some(true)),
    {
        let peer: bool = match self.peer_wipe_ask_before_delete {
            Some(peer) => peer,
            None => false,
        };
        self.wipe_ask_before_delete && peer
    }

    /// Whether a wipe takes the session too: as soon as one side wants it so.
    pub fn effective_wipe_include_session(&self) -> (include_session: bool)
        ensures
            include_session == (self@.wipe_include_session || self@.peer_wipe_include_session == Some(
                true,
            )),
    {
        let peer: bool = match self.peer_wipe_include_session {
            Some(peer) => peer,
            None => false,
        };
        self.wipe_include_session || peer
    }
}

/// The contact once the peer's wipe policy is known: with it comes the boundary, the time and
/// the sequence number that this side has reached.
pub open spec fn with_peer_policy(
    contact: ContactView,
    ask_before_delete: bool,
    include_session: bool,
    now: u64,
    sequence: u64,
) -> ContactView {
    ContactView {
        peer_wipe_ask_before_delete: Some(ask_before_delete),
        peer_wipe_include_session: Some(include_session),
        peer_wipe_boundary_timestamp: Some(now),
        peer_wipe_boundary_sequence: Some(sequence),
        ..contact
    }
}

/// What a wipe of a conversation gives: the store afterwards, and the number of records taken
/// out or why the session could not be looked at.
pub open spec fn wiped(before: DbView, conversation_id: Seq<u8>, include_session: bool) -> (
    DbView,
    std::result::Result<nat, ErrorView>,
) {
    let names = listing(before.records, conversation_prefix(conversation_id));
    let left = before.without_each(names);
    let session = ratchet_name(conversation_id);
    if !include_session {
        (left, Ok(names.len()))
    } else {
        match left.read(Scope::Content, session) {
            Err(e) => (left, Err(e)),
            Ok(None) => (left, Ok(names.len())),
            Ok(Some(_)) => (left.without_records(seq![session]), Ok(names.len() + 1)),
        }
    }
}

/// A session's name is never that of a message.
pub proof fn lemma_session_is_no_message(conversation_id: Seq<u8>, other: Seq<u8>)
    ensures
        !conversation_prefix(conversation_id).is_prefix_of(ratchet_name(other)),
{
    lemma_content_prefixes();
    let prefix = conversation_prefix(conversation_id);
    let name = ratchet_name(other);
    assert(prefix[0] == message_prefix()[0]);
    assert(name[0] == ratchet_prefix()[0]);
    if prefix.is_prefix_of(name) {
        assert(name.subrange(0, prefix.len() as int)[0] == name[0]);
    }
}

impl Db {
    /// Records the wipe policy that the peer has announced, at `now` seconds since the Unix
    /// epoch.
    pub fn record_peer_wipe_policy(
        &mut self,
        fingerprint: &[u8],
        ask_before_delete: bool,
        include_session: bool,
        now: u64,
    ) -> (contact: Result<Contact>)
        ensures
            match stored_contact(old(self)@, fingerprint@) {
                Err(e) => final(self)@ == old(self)@ && contact_result(contact)
                    == std::result::Result::<ContactView, ErrorView>::Err(e),
                Ok(None) => final(self)@ == old(self)@ && contact_result(contact)
                    == std::result::Result::<ContactView, ErrorView>::Err(
                    ErrorView::MalformedRecord("record_peer_wipe_policy: no such contact"),
                ),
                Ok(Some(c)) => {
                    let updated = with_peer_policy(
                        c,
                        ask_before_delete,
                        include_session,
                        now,
                        old(self)@.message_sequence,
                    );
                    if contact_storable(updated) {
                        stores_contact(old(self)@, final(self)@, updated) && contact_result(contact)
                            == std::result::Result::<ContactView, ErrorView>::Ok(updated)
                    } else {
                        final(self)@ == old(self)@ && contact_result(contact)
                            == std::result::Result::<ContactView, ErrorView>::Err(
                            ErrorView::EncryptionFailed,
                        )
                    }
                },
            },
            stored_contact(old(self)@, fingerprint@) matches Ok(Some(c)) && contact_fits(c)
                ==> contact is Ok,
    {
        let mut contact: Contact = match self.load_contact(fingerprint) {
            Ok(Some(contact)) => contact,
            Ok(None) => {
                return Err(
                    Error::MalformedRecord("record_peer_wipe_policy: no such contact"),
                );
            },
            Err(e) => {
                return Err(e);
            },
        };
        contact.peer_wipe_ask_before_delete = Some(ask_before_delete);
        contact.peer_wipe_include_session = Some(include_session);
        contact.peer_wipe_boundary_timestamp = Some(now);
        contact.peer_wipe_boundary_sequence = Some(self.message_sequence());
        match self.save_contact(&contact) {
            Ok(_) => Ok(contact),
            Err(e) => Err(e),
        }
    }

    /// Takes out every message of a conversation and, if asked, its session. Returns how many
    /// records went.
    pub fn wipe_conversation(&mut self, conversation_id: [u8; 16], include_session: bool) -> (removed:
        Result<usize>)
        ensures
            final(self)@ == wiped(old(self)@, conversation_id@, include_session).0,
            match removed {
                Ok(n) => wiped(old(self)@, conversation_id@, include_session).1
                    == std::result::Result::<nat, ErrorView>::Ok(n as nat),
                Err(e) => wiped(old(self)@, conversation_id@, include_session).1
                    == std::result::Result::<nat, ErrorView>::Err(e@),
            },
    {
        let prefix: Vec<u8> = message_key_prefix(conversation_id);
        let names: Vec<Vec<u8>> = self.keys_with_prefix(prefix.as_slice());
        let total: usize = self.record_count();
        let ghost list = names_view(names@);
        let ghost set = self@.records.dom().filter(|n: Seq<u8>| prefix@.is_prefix_of(n));
        proof {
            lemma_in_order_of_finite(set);
            assert(list.len() == set.len());
        }
        let mut i: usize = 0;
        assert(list.take(0) =~= Seq::<Seq<u8>>::empty());
        while i < names.len()
            invariant
                i <= names@.len(),
                list == names_view(names@),
                self@ == old(self)@.without_each(list.take(i as int)),
                self@.records.dom().subset_of(old(self)@.records.dom()),
            decreases names@.len() - i,
        {
            self.delete(names[i].as_slice());
            proof {
                assert(list.take(i + 1).drop_last() =~= list.take(i as int));
                assert(list.take(i + 1).last() == names@[i as int]@);
            }
            i = i + 1;
        }
        assert(list.take(i as int) =~= list);
        let mut removed: usize = names.len();
        if include_session {
            let session: Vec<u8> = Db::ratchet_key(conversation_id);
            match self.get_encrypted(Scope::Content, session.as_slice()) {
                Err(e) => {
                    return Err(e);
                },
                Ok(None) => {},
                Ok(Some(_)) => {
                    proof {
                        lemma_session_is_no_message(conversation_id@, conversation_id@);
                        let all = old(self)@.records.dom();
                        assert(all.contains(session@));
                        assert(!set.contains(session@));
                        assert(set.insert(session@).subset_of(all));
                        vstd::set_lib::lemma_len_subset(set.insert(session@), all);
                    }
                    self.delete(session.as_slice());
                    removed = removed + 1;
                },
            }
        }
        Ok(removed)
    }
}

} // verus!
