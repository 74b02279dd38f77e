//! What a caller gets of the store's functions, whatever they are called with.

use vstd::prelude::*;
use vstd::utf8::encode_utf8;
use crate::hex::hex;
use crate::map::lemma_in_order_of_finite;
use super::cbor::optional_bytes;
use super::contacts::{
    contact_list, contact_of, contacts_view, decode_contact, encode_contact, stored_contact, Contact,
    ContactRead, ContactView, VerificationState,
};
use super::crypto::{decrypt, encrypt_with, holds};
use super::db::{
    changes_view, content_dek_name, entries_view, listing, message_prefix, names_view, open_outcome,
    quick_wiped, ratchet_prefix, table_of, wiped_names, Change, Db, DbView, Read, Scope,
};
use super::error::{ErrorView, Result};
use super::gate::{decrypt_gated, encrypt_gated};
use super::laws::{filed_by_id, law_wiping_a_conversation_spares_the_rest};
use super::messages::{
    all_fit, conversation, conversation_prefix, decode_message, encode_message, message_name,
    message_of, messages_view, readable_message, recover_message_sequence, sort_messages, Message,
    MessageView,
};
use super::notification_prefs::{stored_level, NotificationPreviewLevel};
use super::outcomes::{
    law_a_conversation_is_listed_by_time, law_a_wipe_counts_what_it_takes,
    law_an_acknowledgement_covers_its_chain, law_doubting_touches_sent_messages_only,
};
use super::profile::{stored_profile, OwnProfile, ProfileRead};

verus! {

// Messages.

/// After a saved message is read back it is the one that was saved, and every other record reads
/// as before.
pub proof fn law_saving_a_message(
    db: &mut Db,
    conversation_id: [u8; 16],
    message: Message,
    done: Result<()>,
    scope: Scope,
    name: Seq<u8>,
)
    requires
        call_ensures(Db::save_message, (db, conversation_id, &message), done),
    ensures
        done is Ok ==> readable_message(
            final(db)@,
            message_name(conversation_id@, message.id@),
        ) == Some(message@),
        done is Ok && name != message_name(conversation_id@, message.id@) ==> final(db)@.read(
            scope,
            name,
        ) == old(db)@.read(scope, name),
        done is Err ==> final(db)@ == old(db)@,
{
}

/// A message that is saved now has the content, the direction, the place in its chain and the
/// time that were given, the next sequence number and a fresh id, and is neither delivered nor
/// uncertain; it reads back so. The counter has gone on by one.
pub proof fn law_saving_a_message_now(
    db: &mut Db,
    conversation_id: [u8; 16],
    content: Vec<u8>,
    sender_is_local: bool,
    send_n: Option<u32>,
    send_dh_pub: Option<Vec<u8>>,
    now: u64,
    saved: Result<Message>,
)
    requires
        call_ensures(
            Db::save_message_now,
            (db, conversation_id, content, sender_is_local, send_n, send_dh_pub, now),
            saved,
        ),
    ensures
        saved matches Ok(m) ==> {
            &&& m.id@.len() == 16
            &&& m.sender_is_local == sender_is_local
            &&& m.content@ == content@
            &&& m.timestamp == now
            &&& m.sequence == old(db)@.message_sequence
            &&& m.send_n == send_n
            &&& match send_dh_pub {
                Some(chain) => m.send_dh_pub matches Some(c) && c@ == chain@,
                None => m.send_dh_pub is None,
            }
            &&& !m.delivered
            &&& !m.uncertain
            &&& readable_message(final(db)@, message_name(conversation_id@, m.id@)) == Some(m@)
        },
        old(db)@.message_sequence < u64::MAX ==> final(db)@.message_sequence == old(db)@.message_sequence + 1,
        old(db)@.message_sequence == u64::MAX ==> final(db)@.message_sequence == 0,
        content@.len() <= 8_589_934_592 && send_dh_pub is None ==> saved is Ok,
{
    if let Ok(m) = saved {
        assert(m@.id == m.id@);
        assert(m@.send_dh_pub == optional_bytes(send_dh_pub));
        assert(m@.sequence == old(db)@.message_sequence);
        let counted = DbView { message_sequence: final(db)@.message_sequence, ..old(db)@ };
        assert(super::messages::stores_message(counted, final(db)@, conversation_id@, m@));
    }
}

/// Marking what is undelivered when the connection breaks: a message becomes uncertain exactly
/// where it was sent from here, is not delivered and not uncertain yet; a received message reads
/// the same as before, and so does everything else.
pub proof fn law_marking_undelivered_messages(
    db: &mut Db,
    conversation_id: [u8; 16],
    marked: Result<usize>,
    name: Seq<u8>,
)
    requires
        call_ensures(Db::mark_undelivered_uncertain, (db, conversation_id), marked),
        old(db)@.records.dom().finite(),
        filed_by_id(old(db)@, conversation_id@),
        conversation_prefix(conversation_id@).is_prefix_of(name),
    ensures
        marked is Ok ==> (readable_message(old(db)@, name) matches Some(m) ==> readable_message(
            final(db)@,
            name,
        ) == Some(
            if m.sender_is_local && !m.delivered && !m.uncertain {
                MessageView { uncertain: true, ..m }
            } else {
                m
            },
        )),
        marked is Ok && readable_message(old(db)@, name) is None ==> readable_message(
            final(db)@,
            name,
        ) is None,
        marked matches Ok(n) ==> n == conversation(old(db)@, conversation_id@).filter(
            |m: MessageView| m.sender_is_local && !m.delivered && !m.uncertain,
        ).len(),
        all_fit(conversation(old(db)@, conversation_id@)) ==> marked is Ok,
{
    if marked is Ok {
        law_doubting_touches_sent_messages_only(old(db)@, final(db)@, conversation_id@, name);
    }
}

/// Marking what an acknowledgement covers: the messages that were sent from here in its chain up
/// to its place, and were not delivered, are delivered and certain; the others read as before.
pub proof fn law_marking_delivered_messages(
    db: &mut Db,
    conversation_id: [u8; 16],
    dh_pub: &[u8],
    highest_n: u32,
    marked: Result<Vec<Message>>,
    name: Seq<u8>,
)
    requires
        call_ensures(
            Db::mark_messages_delivered_up_to,
            (db, conversation_id, dh_pub, highest_n),
            marked,
        ),
        old(db)@.records.dom().finite(),
        filed_by_id(old(db)@, conversation_id@),
        conversation_prefix(conversation_id@).is_prefix_of(name),
    ensures
        marked is Ok ==> (readable_message(old(db)@, name) matches Some(m) ==> readable_message(
            final(db)@,
            name,
        ) == Some(
            if m.sender_is_local && !m.delivered && m.send_dh_pub == Some(dh_pub@)
                && m.send_n is Some && m.send_n->0 <= highest_n {
                MessageView { delivered: true, uncertain: false, ..m }
            } else {
                m
            },
        )),
        marked is Ok && readable_message(old(db)@, name) is None ==> readable_message(
            final(db)@,
            name,
        ) is None,
        marked matches Ok(list) ==> messages_view(list@) == conversation(
            old(db)@,
            conversation_id@,
        ).filter(
            |m: MessageView|
                m.sender_is_local && !m.delivered && m.send_dh_pub == Some(dh_pub@)
                    && m.send_n is Some && m.send_n->0 <= highest_n,
        ).map_values(|m: MessageView| MessageView { delivered: true, uncertain: false, ..m }),
        all_fit(conversation(old(db)@, conversation_id@)) ==> marked is Ok,
{
    if marked is Ok {
        law_an_acknowledgement_covers_its_chain(
            old(db)@,
            final(db)@,
            conversation_id@,
            dh_pub@,
            highest_n,
            name,
        );
    }
}

/// Marking the one message that an acknowledgement names: it was sent from here at that place of
/// that chain and was not delivered; it is handed out delivered and certain, otherwise as it was,
/// and reads so. Where there is none, nothing changes.
pub proof fn law_marking_one_message(
    db: &mut Db,
    conversation_id: [u8; 16],
    dh_pub: &[u8],
    acked_n: u32,
    marked: Result<Option<Message>>,
    scope: Scope,
    name: Seq<u8>,
)
    requires
        call_ensures(
            Db::mark_message_delivered,
            (db, conversation_id, dh_pub, acked_n),
            marked,
        ),
    ensures
        ({
            let list = conversation(old(db)@, conversation_id@);
            &&& marked matches Ok(Some(m)) ==> {
                &&& m.sender_is_local && m.delivered && !m.uncertain && m.send_n == Some(acked_n)
                &&& m.send_dh_pub matches Some(c) && c@ == dh_pub@
                &&& exists|i: int|
                    0 <= i < list.len() && !(#[trigger] list[i]).delivered && m@ == (MessageView {
                        delivered: true,
                        uncertain: false,
                        ..list[i]
                    })
                &&& readable_message(final(db)@, message_name(conversation_id@, m.id@)) == Some(m@)
                &&& name != message_name(conversation_id@, m.id@) ==> final(db)@.read(scope, name)
                    == old(db)@.read(scope, name)
            }
            &&& marked matches Ok(None) ==> final(db)@ == old(db)@ && forall|i: int|
                0 <= i < list.len() ==> !((#[trigger] list[i]).sender_is_local
                    && !list[i].delivered && list[i].send_n == Some(acked_n)
                    && list[i].send_dh_pub == Some(dh_pub@))
            &&& marked is Err ==> final(db)@ == old(db)@
        }),
        all_fit(conversation(old(db)@, conversation_id@)) ==> marked is Ok,
{
    let list = conversation(old(db)@, conversation_id@);
    if let Ok(Some(m)) = marked {
        let i = choose|i: int| #[trigger]
            super::messages::first_acked(list, dh_pub@, acked_n, i) && m@
                == super::messages::acknowledged(list[i]);
        assert(m@.id == m.id@);
        assert(m@.send_dh_pub == Some(dh_pub@));
        assert(!list[i].delivered);
    }
    if let Ok(None) = marked {
        assert forall|i: int| 0 <= i < list.len() implies !((#[trigger] list[i]).sender_is_local
            && !list[i].delivered && list[i].send_n == Some(acked_n) && list[i].send_dh_pub == Some(
            dh_pub@,
        )) by {
            assert(!super::messages::acked_by(list[i], dh_pub@, acked_n));
        }
    }
}

/// A conversation is listed oldest first, by time and then by sequence number, whole.
pub proof fn law_listing_messages(
    db: Db,
    conversation_id: [u8; 16],
    listed: Result<Vec<Message>>,
    i: int,
    j: int,
    messages: &mut Vec<Message>,
)
    requires
        call_ensures(Db::list_messages, (&db, conversation_id), listed),
        call_ensures(sort_messages, (messages,), ()),
    ensures
        listed matches Ok(list) && messages_view(list@) == conversation(db@, conversation_id@) && (0
            <= i < j < list@.len() ==> list@[i].timestamp < list@[j].timestamp || (list@[i].timestamp
            == list@[j].timestamp && list@[i].sequence <= list@[j].sequence)),
        0 <= i < j < final(messages)@.len() ==> final(messages)@[i].timestamp < final(messages)@[j].timestamp || (final(messages)@[i].timestamp == final(messages)@[j].timestamp && final(messages)@[i].sequence <= final(messages)@[j].sequence),
        final(messages)@.len() == old(messages)@.len(),
        messages_view(final(messages)@).to_multiset() == messages_view(
            old(messages)@,
        ).to_multiset(),
{
    let list = (listed->Ok_0)@;
    let view = messages_view(list);
    if 0 <= i < j < list.len() {
        law_a_conversation_is_listed_by_time(db@, conversation_id@, i, j);
        assert(view[i] == list[i]@ && view[j] == list[j]@);
    }
    super::messages::law_listing_is_in_order(messages_view(old(messages)@));
    let sorted = messages_view(final(messages)@);
    assert(sorted.len() == final(messages)@.len());
    if 0 <= i < j < final(messages)@.len() {
        assert(super::messages::no_later(sorted[i], sorted[j]));
        assert(sorted[i] == final(messages)@[i]@ && sorted[j] == final(messages)@[j]@);
    }
}

/// A message that is deleted is gone, and nothing else is. A number is handed out once.
pub proof fn law_deleting_and_counting(
    db: &mut Db,
    conversation_id: [u8; 16],
    id: &[u8],
    done: Result<()>,
    scope: Scope,
    name: Seq<u8>,
    counting: &mut Db,
    sequence: u64,
)
    requires
        call_ensures(Db::delete_message, (db, conversation_id, id), done),
        call_ensures(Db::next_message_sequence, (counting,), sequence),
    ensures
        done is Ok,
        !final(db)@.records.dom().contains(message_name(conversation_id@, id@)),
        name != message_name(conversation_id@, id@) ==> final(db)@.read(scope, name) == old(db)@.read(scope, name),
        sequence == old(counting)@.message_sequence,
        sequence < u64::MAX ==> final(counting)@ == (DbView {
            message_sequence: (sequence + 1) as u64,
            ..old(counting)@
        }),
        sequence == u64::MAX ==> final(counting)@ == (DbView { message_sequence: 0, ..old(counting)@ }),
{
    let gone = message_name(conversation_id@, id@);
    assert(seq![gone].to_set() =~= Set::<Seq<u8>>::empty().insert(gone)) by {
        assert(seq![gone][0] == gone);
    }
}

// Contacts and the account.

/// A contact that is saved is found again as it was saved; one that is deleted is not found; the
/// other records stay.
pub proof fn law_saving_and_deleting_contacts(
    db: &mut Db,
    contact: Contact,
    done: Result<()>,
    scope: Scope,
    name: Seq<u8>,
    other: &mut Db,
    fingerprint: &[u8],
    deleted: Result<()>,
    reading: Db,
    found: Result<Option<Contact>>,
    listed: Result<Vec<Contact>>,
)
    requires
        call_ensures(Db::save_contact, (db, &contact), done),
        call_ensures(Db::delete_contact, (other, fingerprint), deleted),
        call_ensures(Db::load_contact, (&reading, fingerprint), found),
        call_ensures(Db::list_contacts, (&reading,), listed),
    ensures
        done is Ok ==> stored_contact(final(db)@, contact.fingerprint@) == ContactRead::Ok(
            Some(contact@),
        ),
        done is Ok && name != encode_utf8("contact:"@) + encode_utf8(hex(contact.fingerprint@))
            ==> final(db)@.read(scope, name) == old(db)@.read(scope, name),
        done is Err ==> final(db)@ == old(db)@,
        deleted is Ok,
        stored_contact(final(other)@, fingerprint@) == ContactRead::Ok(None),
        name != encode_utf8("contact:"@) + encode_utf8(hex(fingerprint@)) ==> final(other)@.read(
            scope,
            name,
        ) == old(other)@.read(scope, name),
        found matches Ok(Some(c)) ==> stored_contact(reading@, fingerprint@) == ContactRead::Ok(
            Some(c@),
        ),
        found matches Ok(None) ==> stored_contact(reading@, fingerprint@) == ContactRead::Ok(None),
        found matches Err(e) ==> stored_contact(reading@, fingerprint@) == ContactRead::Err(e@),
        listed matches Ok(list) && contacts_view(list@) == contact_list(reading@),
{
    let gone = super::contacts::contact_name(fingerprint@);
    assert(seq![gone].to_set() =~= Set::<Seq<u8>>::empty().insert(gone)) by {
        assert(seq![gone][0] == gone);
    }
}

/// The account, the session of a conversation, the profile and the preview level are found as
/// they were saved last, each under the key of its scope.
pub proof fn law_saving_single_records(
    db: &mut Db,
    exported: &[u8],
    done: Result<()>,
    sessions: &mut Db,
    conversation_id: [u8; 16],
    session: &[u8],
    saved: Result<()>,
    profiles: &mut Db,
    profile: OwnProfile,
    kept: Result<()>,
    levels: &mut Db,
    level: NotificationPreviewLevel,
    set: Result<()>,
)
    requires
        call_ensures(Db::save_account, (db, exported), done),
        call_ensures(Db::save_ratchet, (sessions, conversation_id, session), saved),
        call_ensures(Db::save_own_profile, (profiles, &profile), kept),
        call_ensures(Db::save_notification_preview_level, (levels, level), set),
    ensures
        done is Ok ==> final(db)@.read(Scope::Identity, encode_utf8("account"@)) == Read::Ok(
            Some(exported@),
        ),
        done is Err ==> final(db)@ == old(db)@,
        saved is Ok ==> final(sessions)@.read(
            Scope::Content,
            encode_utf8("ratchet:"@) + encode_utf8(hex(conversation_id@)),
        ) == Read::Ok(Some(session@)),
        saved is Err ==> final(sessions)@ == old(sessions)@,
        kept is Ok ==> stored_profile(final(profiles)@) == ProfileRead::Ok(Some(profile@)),
        kept is Err ==> final(profiles)@ == old(profiles)@,
        set is Ok,
        stored_level(final(levels)@) == std::result::Result::<
            NotificationPreviewLevel,
            ErrorView,
        >::Ok(level),
{
}

/// What is loaded is what is stored.
pub proof fn law_loading_single_records(
    db: Db,
    conversation_id: [u8; 16],
    account: Result<Option<Vec<u8>>>,
    session: Result<Option<Vec<u8>>>,
    profile: Result<Option<OwnProfile>>,
    level: Result<NotificationPreviewLevel>,
)
    requires
        call_ensures(Db::load_account, (&db,), account),
        call_ensures(Db::load_ratchet, (&db, conversation_id), session),
        call_ensures(Db::load_own_profile, (&db,), profile),
        call_ensures(Db::load_notification_preview_level, (&db,), level),
    ensures
        match account {
            Ok(Some(b)) => db@.read(Scope::Identity, encode_utf8("account"@)) == Read::Ok(Some(b@)),
            Ok(None) => db@.read(Scope::Identity, encode_utf8("account"@)) == Read::Ok(None),
            Err(e) => db@.read(Scope::Identity, encode_utf8("account"@)) == Read::Err(e@),
        },
        ({
            let name = encode_utf8("ratchet:"@) + encode_utf8(hex(conversation_id@));
            match session {
                Ok(Some(b)) => db@.read(Scope::Content, name) == Read::Ok(Some(b@)),
                Ok(None) => db@.read(Scope::Content, name) == Read::Ok(None),
                Err(e) => db@.read(Scope::Content, name) == Read::Err(e@),
            }
        }),
        profile matches Ok(Some(p)) ==> stored_profile(db@) == ProfileRead::Ok(Some(p@)),
        profile matches Ok(None) ==> stored_profile(db@) == ProfileRead::Ok(None),
        profile matches Err(e) ==> stored_profile(db@) == ProfileRead::Err(e@),
        level matches Ok(l) ==> stored_level(db@) == std::result::Result::<
            NotificationPreviewLevel,
            ErrorView,
        >::Ok(l),
        level matches Err(e) ==> stored_level(db@) == std::result::Result::<
            NotificationPreviewLevel,
            ErrorView,
        >::Err(e@),
{
}

/// What a contact announces of its handle, its routing and its wipe policy: the contact that is
/// handed out has it, is otherwise the one that was stored, and is found so afterwards; or the
/// stored one is handed out and nothing has changed.
pub proof fn law_recording_what_a_contact_announces(
    db: &mut Db,
    fingerprint: &[u8],
    username: String,
    discriminator: u16,
    renamed: Result<(Contact, bool)>,
    routes: &mut Db,
    peer_routing_id: Vec<u8>,
    mailbox_id: [u8; 16],
    routed: Result<Contact>,
    policies: &mut Db,
    ask: bool,
    session: bool,
    now: u64,
    agreed: Result<Contact>,
    c: ContactView,
)
    requires
        call_ensures(
            Db::record_peer_profile,
            (db, fingerprint, username, discriminator),
            renamed,
        ),
        call_ensures(
            Db::record_peer_routing_id,
            (routes, fingerprint, peer_routing_id, mailbox_id),
            routed,
        ),
        call_ensures(
            Db::record_peer_wipe_policy,
            (policies, fingerprint, ask, session, now),
            agreed,
        ),
        c.fingerprint == fingerprint@,
        stored_contact(old(db)@, fingerprint@) == ContactRead::Ok(Some(c)),
        stored_contact(old(routes)@, fingerprint@) == ContactRead::Ok(Some(c)),
        stored_contact(old(policies)@, fingerprint@) == ContactRead::Ok(Some(c)),
    ensures
        renamed matches Ok(r) ==> {
            let updated = ContactView {
                username: Some(username@),
                discriminator: Some(discriminator),
                ..c
            };
            &&& stored_contact(final(db)@, fingerprint@) == ContactRead::Ok(Some(r.0@))
            &&& r.0@ == updated || r.0@ == c
            &&& r.1 ==> r.0@ == updated && updated != c && c.username is Some
            &&& r.0@ == c ==> final(db)@ == old(db)@
        },
        routed matches Ok(r) ==> {
            &&& stored_contact(final(routes)@, fingerprint@) == ContactRead::Ok(Some(r@))
            &&& c.peer_routing_id == Some(peer_routing_id@) ==> r@ == c && final(routes)@ == old(routes)@
            &&& c.peer_routing_id != Some(peer_routing_id@) ==> r@ == (ContactView {
                mailbox_id: mailbox_id@,
                peer_routing_id: Some(peer_routing_id@),
                ..c
            })
        },
        agreed matches Ok(r) ==> {
            &&& stored_contact(final(policies)@, fingerprint@) == ContactRead::Ok(Some(r@))
            &&& r@ == (ContactView {
                peer_wipe_ask_before_delete: Some(ask),
                peer_wipe_include_session: Some(session),
                peer_wipe_boundary_timestamp: Some(now),
                peer_wipe_boundary_sequence: Some(old(policies)@.message_sequence),
                ..c
            })
        },
        renamed is Err ==> final(db)@ == old(db)@,
        routed is Err ==> final(routes)@ == old(routes)@,
        agreed is Err ==> final(policies)@ == old(policies)@,
{
}

/// Chat passes only with a verified contact, and then as it is; anything else always passes.
/// Verifying a contact and finding a mismatch change its state and nothing else.
pub proof fn law_the_gate(
    contact: Contact,
    is_chat: bool,
    sending: Result<()>,
    payload_type: u8,
    content: Vec<u8>,
    released: Result<(u8, Vec<u8>)>,
    verified: &mut Contact,
    mismatched: &mut Contact,
)
    requires
        call_ensures(encrypt_gated, (&contact, is_chat), sending),
        call_ensures(decrypt_gated, (&contact, is_chat, payload_type, content), released),
        call_ensures(Contact::mark_verified, (verified,), ()),
        call_ensures(Contact::mark_mismatch, (mismatched,), ()),
    ensures
        sending is Ok <==> !is_chat || contact.verification_state is Verified,
        sending matches Err(e) ==> e is NotVerified,
        released is Ok <==> !is_chat || contact.verification_state is Verified,
        released matches Ok(p) ==> p.0 == payload_type && p.1@ == content@,
        released matches Err(e) ==> e is NotVerified,
        final(verified)@ == (ContactView {
            verification_state: VerificationState::Verified,
            ..old(verified)@
        }),
        final(mismatched)@ == (ContactView {
            verification_state: VerificationState::Mismatch,
            ..old(mismatched)@
        }),
{
}

/// A wipe asks first only if both sides want that, and takes the session as soon as one side
/// wants that; a side that has not said anything wants neither.
pub proof fn law_what_both_sides_want(contact: Contact, ask: bool, session: bool)
    requires
        call_ensures(Contact::effective_wipe_ask_before_delete, (&contact,), ask),
        call_ensures(Contact::effective_wipe_include_session, (&contact,), session),
    ensures
        ask <==> contact.wipe_ask_before_delete && contact.peer_wipe_ask_before_delete is Some
            && contact.peer_wipe_ask_before_delete->0,
        session <==> contact.wipe_include_session || (contact.peer_wipe_include_session is Some
            && contact.peer_wipe_include_session->0),
{
}

// Wiping and changes.

/// Wiping a conversation takes out the records of its messages and, if asked, of its session,
/// says how many these were, and leaves every other record byte for byte.
pub proof fn law_wiping_a_conversation(
    db: &mut Db,
    conversation_id: [u8; 16],
    include_session: bool,
    removed: Result<usize>,
    scope: Scope,
    name: Seq<u8>,
)
    requires
        call_ensures(Db::wipe_conversation, (db, conversation_id, include_session), removed),
        old(db)@.records.dom().finite(),
    ensures
        ({
            let prefix = encode_utf8("message:"@) + encode_utf8(hex(conversation_id@))
                + encode_utf8(":"@);
            let session = encode_utf8("ratchet:"@) + encode_utf8(hex(conversation_id@));
            &&& prefix.is_prefix_of(name) ==> !final(db)@.records.dom().contains(name)
            &&& include_session && removed is Ok ==> !final(db)@.records.dom().contains(session)
            &&& !prefix.is_prefix_of(name) && !(include_session && name == session) ==> final(db)@.read(scope, name) == old(db)@.read(scope, name)
            &&& removed matches Ok(n) ==> n + final(db)@.records.dom().len() == old(db)@.records.dom().len()
            &&& !include_session ==> removed is Ok
        }),
{
    law_wiping_a_conversation_spares_the_rest(
        old(db)@,
        conversation_id@,
        include_session,
        scope,
        name,
    );
    law_a_wipe_counts_what_it_takes(old(db)@, conversation_id@, include_session);
}

/// A quick wipe replaces the content key by the fresh one, wrapped under the master key, takes
/// out every message and session, says how many these were, and leaves everything else.
pub proof fn law_wiping_quickly(db: &mut Db, fresh: [u8; 32], removed: Result<usize>, name: Seq<u8>)
    requires
        call_ensures(Db::quick_wipe_with, (db, fresh), removed),
        old(db)@.records.dom().finite(),
        old(db)@.records.dom().contains(encode_utf8("__content_dek__"@)),
    ensures
        removed is Ok,
        ({
            let content = encode_utf8("message:"@).is_prefix_of(name) || encode_utf8(
                "ratchet:"@,
            ).is_prefix_of(name);
            let wrapped = encode_utf8("__content_dek__"@);
            &&& final(db)@.content_key == fresh@
            &&& final(db)@.master_key == old(db)@.master_key
            &&& final(db)@.identity_key == old(db)@.identity_key
            &&& final(db)@.contacts_key == old(db)@.contacts_key
            &&& final(db)@.message_sequence == old(db)@.message_sequence
            &&& holds(final(db)@.records[wrapped], old(db)@.master_key, wrapped, fresh@)
            &&& content ==> !final(db)@.records.dom().contains(name)
            &&& !content && name != wrapped ==> (final(db)@.records.dom().contains(name) <==> old(db)@.records.dom().contains(name)) && (old(db)@.records.dom().contains(name) ==> final(db)@.records[name] == old(db)@.records[name])
            &&& removed->Ok_0 + final(db)@.records.dom().len() == old(db)@.records.dom().len()
        }),
{
    super::laws::law_quick_wipe_keeps_other_records(old(db)@, final(db)@, name);
    super::laws::law_quick_wipe_takes_content_only(
        old(db)@,
        final(db)@,
        Seq::empty(),
        Scope::Identity,
        name,
    );
    lemma_quick_wipe_count(old(db)@, final(db)@);
}

proof fn lemma_quick_wipe_count(before: DbView, after: DbView)
    requires
        quick_wiped(before, after),
        before.records.dom().finite(),
        before.records.dom().contains(content_dek_name()),
    ensures
        wiped_names(before.records).len() + after.records.dom().len() == before.records.dom().len(),
{
    let records = before.records;
    let messages = records.dom().filter(|n: Seq<u8>| message_prefix().is_prefix_of(n));
    let sessions = records.dom().filter(|n: Seq<u8>| ratchet_prefix().is_prefix_of(n));
    lemma_in_order_of_finite(messages);
    lemma_in_order_of_finite(sessions);
    super::db::lemma_content_prefixes();
    assert(messages.disjoint(sessions)) by {
        assert forall|n: Seq<u8>| messages.contains(n) && sessions.contains(n) implies false by {
            assert(n.subrange(0, 8)[0] == n[0]);
            assert(message_prefix()[0] == n[0] && ratchet_prefix()[0] == n[0]);
        }
    }
    vstd::set_lib::lemma_set_disjoint_lens(messages, sessions);
    let gone = messages.union(sessions);
    let names = wiped_names(records);
    let one = listing(records, message_prefix());
    let two = listing(records, ratchet_prefix());
    assert forall|n: Seq<u8>| names.contains(n) <==> gone.contains(n) by {
        if one.contains(n) {
            let i = choose|i: int| 0 <= i < one.len() && one[i] == n;
            assert(names[i] == n);
        }
        if two.contains(n) {
            let i = choose|i: int| 0 <= i < two.len() && two[i] == n;
            assert(names[one.len() + i] == n);
        }
        if names.contains(n) {
            let i = choose|i: int| 0 <= i < names.len() && names[i] == n;
            if i < one.len() {
                assert(one[i] == n);
            } else {
                assert(two[i - one.len()] == n);
            }
        }
    }
    assert(records.dom().insert(content_dek_name()) =~= records.dom());
    assert(after.records.dom() =~= records.dom().difference(gone));
    assert(gone.subset_of(records.dom()));
    assert(after.records.dom().disjoint(gone));
    vstd::set_lib::lemma_set_disjoint_lens(after.records.dom(), gone);
    assert(after.records.dom().union(gone) =~= records.dom());
}

/// Wiping everything leaves no record. The changes that are taken are those that were listed, and
/// are then listed no more; the names with a prefix are given as they are listed.
pub proof fn law_wiping_everything(
    db: &mut Db,
    done: Result<()>,
    taking: &mut Db,
    changes: Vec<Change>,
    reading: Db,
    prefix: &[u8],
    names: Vec<Vec<u8>>,
    name: Seq<u8>,
)
    requires
        call_ensures(Db::full_wipe, (db,), done),
        call_ensures(Db::take_changes, (taking,), changes),
        call_ensures(Db::keys_with_prefix, (&reading, prefix), names),
    ensures
        done is Ok,
        !final(db)@.records.dom().contains(name),
        changes_view(changes@) == old(taking)@.changes,
        final(taking)@ == (DbView { changes: Seq::empty(), ..old(taking)@ }),
        names_view(names@) == listing(reading@.records, prefix@),
{
}

/// Putting a record in and taking records out, at the level of names: what was put is read back,
/// what was taken out is not there, and nothing else changes.
pub proof fn law_putting_and_taking_out(
    db: &mut Db,
    scope: Scope,
    name: &[u8],
    plaintext: &[u8],
    done: Result<()>,
    other: &mut Db,
    single: &[u8],
    many: &mut Db,
    names: Vec<Vec<u8>>,
    reading: Db,
    found: Result<Option<Vec<u8>>>,
    k_scope: Scope,
    k: Seq<u8>,
)
    requires
        call_ensures(Db::put_encrypted, (db, scope, name, plaintext), done),
        call_ensures(Db::delete, (other, single), ()),
        call_ensures(Db::delete_many, (many, names), ()),
        call_ensures(Db::get_encrypted, (&reading, scope, name), found),
    ensures
        done is Ok <==> plaintext@.len() <= 274_877_906_816,
        done is Ok ==> final(db)@.read(scope, name@) == Read::Ok(Some(plaintext@)),
        done is Ok && k != name@ ==> final(db)@.read(k_scope, k) == old(db)@.read(k_scope, k),
        done is Err ==> final(db)@ == old(db)@,
        !final(other)@.records.dom().contains(single@),
        k != single@ ==> final(other)@.read(k_scope, k) == old(other)@.read(k_scope, k),
        names_view(names@).contains(k) ==> !final(many)@.records.dom().contains(k),
        !names_view(names@).contains(k) ==> final(many)@.read(k_scope, k) == old(many)@.read(
            k_scope,
            k,
        ),
        match found {
            Ok(Some(b)) => reading@.read(scope, name@) == Read::Ok(Some(b@)),
            Ok(None) => reading@.read(scope, name@) == Read::Ok(None),
            Err(e) => reading@.read(scope, name@) == Read::Err(e@),
        },
{
    assert(seq![single@].to_set() =~= Set::<Seq<u8>>::empty().insert(single@)) by {
        assert(seq![single@][0] == single@);
    }
}

// Making, opening and coding.

/// A store that is made with given keys has them, under the master key of the passphrase and the
/// salt; the table that it writes opens with that passphrase to the same keys and records.
pub proof fn law_making_a_store(
    passphrase: &str,
    salt: &str,
    identity_key: [u8; 32],
    contacts_key: [u8; 32],
    content_key: [u8; 32],
    made: Result<Db>,
    entries: Vec<(Vec<u8>, Vec<u8>)>,
    opened: Result<Db>,
)
    requires
        call_ensures(
            Db::create_with,
            (passphrase, salt, identity_key, contacts_key, content_key),
            made,
        ),
        call_ensures(Db::open, (entries, passphrase), opened),
        encode_utf8(salt@).len() == 22,
        made matches Ok(db) ==> table_of(entries_view(entries@)) == db@.records,
    ensures
        made matches Ok(db) ==> {
            &&& db@.identity_key == identity_key@
            &&& db@.contacts_key == contacts_key@
            &&& db@.content_key == content_key@
            &&& db@.records[encode_utf8("__salt__"@)] == encode_utf8(salt@)
            &&& opened matches Ok(again) && again@ == (DbView { changes: Seq::empty(), ..db@ })
        },
        made is Ok <==> encode_utf8(passphrase@).len() <= 0xffff_ffff,
{
    if let Ok(db) = made {
        assert(super::db::created(db@, passphrase@));
        super::laws::law_open_undoes_create(db@, passphrase@);
    }
}

/// Opening a table gives the store that it makes up, or why it does not open.
pub proof fn law_opening_a_store(
    entries: Vec<(Vec<u8>, Vec<u8>)>,
    passphrase: &str,
    opened: Result<Db>,
    i: int,
)
    requires
        call_ensures(Db::open, (entries, passphrase), opened),
    ensures
        opened matches Ok(db) ==> open_outcome(table_of(entries_view(entries@)), passphrase@)
            == std::result::Result::<DbView, ErrorView>::Ok(db@),
        opened matches Err(e) ==> open_outcome(table_of(entries_view(entries@)), passphrase@)
            == std::result::Result::<DbView, ErrorView>::Err(e@),
        entries_view(entries@).len() == entries@.len(),
        0 <= i < entries@.len() ==> entries_view(entries@)[i] == (entries@[i].0@, entries@[i].1@),
{
}

/// What is encrypted is decrypted again under the same key and name, and is the nonce and what
/// the cipher makes of the plaintext.
pub proof fn law_encrypting_and_decrypting(
    key: [u8; 32],
    nonce: [u8; 12],
    name: &[u8],
    plaintext: &[u8],
    stored: Result<Vec<u8>>,
    raw: &[u8],
    read: Result<Vec<u8>>,
)
    requires
        call_ensures(encrypt_with, (&key, &nonce, name, plaintext), stored),
        call_ensures(decrypt, (&key, name, raw), read),
        stored matches Ok(s) ==> raw@ == s@,
    ensures
        stored is Ok <==> plaintext@.len() <= 274_877_906_816,
        stored matches Ok(s) ==> s@ == nonce@ + super::crypto::sealed(
            key@,
            nonce@,
            name@,
            plaintext@,
        ) && s@.len() == plaintext@.len() + 28,
        stored is Ok ==> (read matches Ok(p) && p@ == plaintext@),
{
}

/// The record of a message, a contact: what is encoded is decoded to the same again, and nothing
/// else is decoded to it.
pub proof fn law_coding_records(
    message: Message,
    coded: Vec<u8>,
    raw: &[u8],
    decoded: Result<Message>,
    contact: Contact,
    coded_contact: Vec<u8>,
    raw_contact: &[u8],
    decoded_contact: Result<Contact>,
)
    requires
        call_ensures(encode_message, (&message,), coded),
        call_ensures(decode_message, (raw,), decoded),
        call_ensures(encode_contact, (&contact,), coded_contact),
        call_ensures(decode_contact, (raw_contact,), decoded_contact),
    ensures
        raw@ == coded@ ==> (decoded matches Ok(m) && m@ == message@),
        decoded matches Ok(m) ==> message_of(raw@) == Some(m@),
        decoded is Err ==> message_of(raw@) is None,
        raw_contact@ == coded_contact@ ==> (decoded_contact matches Ok(c) && c@ == contact@),
        decoded_contact matches Ok(c) ==> contact_of(raw_contact@) == Some(c@),
        decoded_contact is Err ==> contact_of(raw_contact@) is None,
{
}

/// Keys that are zeroized are zero in every byte, and the records stay. A quick wipe goes on with
/// a key of 32 bytes. What cannot be read is what is stored and not listed.
pub proof fn law_zeroizing_and_counting(
    db: &mut Db,
    i: int,
    wiped_db: &mut Db,
    removed: Result<usize>,
    reading: Db,
    conversation_id: [u8; 16],
    n: usize,
    contacts: usize,
    next: u64,
)
    requires
        call_ensures(Db::zeroize_keys, (db,), ()),
        call_ensures(Db::quick_wipe, (wiped_db,), removed),
        call_ensures(Db::unreadable_messages, (&reading, conversation_id), n),
        call_ensures(Db::unreadable_contacts, (&reading,), contacts),
        call_ensures(recover_message_sequence, (&reading,), next),
        0 <= i < 32,
    ensures
        final(db)@.master_key[i] == 0,
        final(db)@.identity_key[i] == 0,
        final(db)@.contacts_key[i] == 0,
        final(db)@.content_key[i] == 0,
        final(db)@.records == old(db)@.records,
        quick_wiped(old(wiped_db)@, final(wiped_db)@),
        removed matches Ok(k) && k == wiped_names(old(wiped_db)@.records).len(),
        n + conversation(reading@, conversation_id@).len() == listing(
            reading@.records,
            conversation_prefix(conversation_id@),
        ).len(),
        contacts + contact_list(reading@).len() == listing(
            reading@.records,
            encode_utf8("contact:"@),
        ).len(),
        next == super::messages::recovered_sequence(reading@),
{
    assert(final(db)@.master_key[i] == 0 && final(db)@.identity_key[i] == 0 && final(db)@.contacts_key[i] == 0 && final(db)@.content_key[i] == 0);
}

/// An announcement of somebody who is no contact, or whose record cannot be read, changes nothing
/// and is answered with why.
pub proof fn law_announcements_of_strangers(
    db: &mut Db,
    fingerprint: &[u8],
    username: String,
    discriminator: u16,
    renamed: Result<(Contact, bool)>,
    routes: &mut Db,
    peer_routing_id: Vec<u8>,
    mailbox_id: [u8; 16],
    routed: Result<Contact>,
    policies: &mut Db,
    ask: bool,
    session: bool,
    now: u64,
    agreed: Result<Contact>,
)
    requires
        call_ensures(
            Db::record_peer_profile,
            (db, fingerprint, username, discriminator),
            renamed,
        ),
        call_ensures(
            Db::record_peer_routing_id,
            (routes, fingerprint, peer_routing_id, mailbox_id),
            routed,
        ),
        call_ensures(
            Db::record_peer_wipe_policy,
            (policies, fingerprint, ask, session, now),
            agreed,
        ),
    ensures
        stored_contact(old(db)@, fingerprint@) == ContactRead::Ok(None) ==> final(db)@ == old(db)@
            && (renamed matches Err(e) && e@ == ErrorView::MalformedRecord(
            "record_peer_profile: no such contact",
        )),
        stored_contact(old(routes)@, fingerprint@) == ContactRead::Ok(None) ==> final(routes)@
            == old(routes)@ && (routed matches Err(e) && e@ == ErrorView::MalformedRecord(
            "record_peer_routing_id: no such contact",
        )),
        stored_contact(old(policies)@, fingerprint@) == ContactRead::Ok(None) ==> final(policies)@
            == old(policies)@ && (agreed matches Err(e) && e@ == ErrorView::MalformedRecord(
            "record_peer_wipe_policy: no such contact",
        )),
        stored_contact(old(db)@, fingerprint@) matches Err(why) ==> final(db)@ == old(db)@ && (
        renamed matches Err(e) && e@ == why),
        stored_contact(old(routes)@, fingerprint@) matches Err(why) ==> final(routes)@ == old(routes)@ && (routed matches Err(e) && e@ == why),
        stored_contact(old(policies)@, fingerprint@) matches Err(why) ==> final(policies)@ == old(policies)@ && (agreed matches Err(e) && e@ == why),
{
}

/// A record that does not decode is told of as what it was meant to be.
pub proof fn law_malformed_records_are_told(
    raw: &[u8],
    message: Result<Message>,
    contact: Result<Contact>,
    db: DbView,
)
    requires
        call_ensures(decode_message, (raw,), message),
        call_ensures(decode_contact, (raw,), contact),
    ensures
        message matches Err(e) ==> e@ == ErrorView::MalformedRecord(
            "stored message is not valid CBOR for this shape",
        ),
        contact matches Err(e) ==> e@ == ErrorView::MalformedRecord(
            "stored contact is not valid CBOR for this shape",
        ),
        match db.read(Scope::Identity, encode_utf8("own_profile"@)) {
            Err(e) => stored_profile(db) == ProfileRead::Err(e),
            Ok(None) => stored_profile(db) == ProfileRead::Ok(None),
            Ok(Some(bytes)) => match super::profile::profile_of(bytes) {
                Some(p) => stored_profile(db) == ProfileRead::Ok(Some(p)),
                None => stored_profile(db) == ProfileRead::Err(
                    ErrorView::MalformedRecord(
                        "stored own profile is not valid CBOR for this shape",
                    ),
                ),
            },
        },
{
}

} // verus!
