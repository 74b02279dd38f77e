//! What each operation of the store leads to, in terms of the fields and records that it is
//! about.

use vstd::prelude::*;
use vstd::utf8::{encode_utf8, valid_utf8};
use crate::bytes::bytes_lt;
use crate::hex::hex;
use crate::map::{keys_sorted, lemma_in_order_of_finite};
use super::cbor::{
    cbor_item, field, name_bytes, names_ok, tree_byte, tree_bytes, tree_item, tree_name, tree_scalar,
    untagged, FieldView, ItemView, ScalarView, TreeView,
};
use super::contacts::{
    contact_fits, contact_list, contact_name, contact_of, contact_prefix, contact_storable,
    readable_contact, readable_contacts, stored_contact, ContactRead, ContactView,
};
use super::crypto::{argon2_key, decrypted, holds, opened, sealed};
use super::db::{
    account_name, changed, contacts_dek_name, content_dek_name, created, identity_dek_name,
    kdf_check_name, kdf_check_plaintext, listing, message_prefix, open_outcome, ratchet_name,
    ratchet_prefix, replayed, salt_name, table_of, unwrapped_key, ChangeView, DbView, Read, Records,
    Scope,
};
use super::error::ErrorView;
use super::laws::{filed_by_id, law_marking_changes_what_is_due};
use super::messages::{
    acked_by, acknowledged, becomes_uncertain, conversation, conversation_prefix, covered_by,
    doubted, first_acked, law_listing_is_in_order, message_fits, message_name, message_of,
    newly_delivered, newly_uncertain, readable_message, readable_messages, recovered_sequence,
    sequence_after, store_outcome, stores_message, MessageView,
};
use super::notification_prefs::{
    level_name, level_named, level_of, stored_level, NotificationPreviewLevel,
};
use super::profile::{own_profile_name, profile_outcome};
use super::routing::routing_outcome;
use super::wipe_policy::{with_peer_policy, wiped};

verus! {

// Messages.

/// When the connection breaks, a message becomes uncertain exactly where it was sent from here,
/// is not delivered and is not uncertain yet; nothing else of it changes, and every other
/// message, a received one among them, reads the same afterwards. As many are counted.
pub proof fn law_doubting_touches_sent_messages_only(
    before: DbView,
    after: DbView,
    conversation_id: Seq<u8>,
    name: Seq<u8>,
)
    requires
        before.records.dom().finite(),
        filed_by_id(before, conversation_id),
        store_outcome(
            before,
            after,
            conversation_id,
            newly_uncertain(before, conversation_id),
            Ok(()),
        ),
        conversation_prefix(conversation_id).is_prefix_of(name),
    ensures
        readable_message(before, name) is None ==> readable_message(after, name) is None,
        readable_message(before, name) matches Some(m) ==> readable_message(after, name) == Some(
            if m.sender_is_local && !m.delivered && !m.uncertain {
                MessageView { uncertain: true, ..m }
            } else {
                m
            },
        ),
        readable_message(before, name) matches Some(m) ==> !m.sender_is_local ==> readable_message(
            after,
            name,
        ) == Some(m),
        newly_uncertain(before, conversation_id).len() == conversation(
            before,
            conversation_id,
        ).filter(|m: MessageView| m.sender_is_local && !m.delivered && !m.uncertain).len(),
{
    law_marking_changes_what_is_due(
        before,
        after,
        conversation_id,
        |m: MessageView| becomes_uncertain(m),
        |m: MessageView| doubted(m),
        name,
    );
    let due = |m: MessageView| becomes_uncertain(m);
    let fields = |m: MessageView| m.sender_is_local && !m.delivered && !m.uncertain;
    assert(due =~= fields);
}

/// An acknowledgement of a chain up to a place marks exactly the messages that were sent from
/// here in that chain, up to that place, and are not delivered yet: they are delivered and no
/// longer uncertain, and nothing else of them changes. Every other message reads the same. What
/// was marked is handed out, oldest first.
pub proof fn law_an_acknowledgement_covers_its_chain(
    before: DbView,
    after: DbView,
    conversation_id: Seq<u8>,
    chain: Seq<u8>,
    n: u32,
    name: Seq<u8>,
)
    requires
        before.records.dom().finite(),
        filed_by_id(before, conversation_id),
        store_outcome(
            before,
            after,
            conversation_id,
            newly_delivered(before, conversation_id, chain, n),
            Ok(()),
        ),
        conversation_prefix(conversation_id).is_prefix_of(name),
    ensures
        readable_message(before, name) is None ==> readable_message(after, name) is None,
        readable_message(before, name) matches Some(m) ==> readable_message(after, name) == Some(
            if m.sender_is_local && !m.delivered && m.send_dh_pub == Some(chain) && m.send_n is Some
                && m.send_n->0 <= n {
                MessageView { delivered: true, uncertain: false, ..m }
            } else {
                m
            },
        ),
        newly_delivered(before, conversation_id, chain, n) == conversation(
            before,
            conversation_id,
        ).filter(
            |m: MessageView|
                m.sender_is_local && !m.delivered && m.send_dh_pub == Some(chain) && m.send_n is Some
                    && m.send_n->0 <= n,
        ).map_values(|m: MessageView| MessageView { delivered: true, uncertain: false, ..m }),
{
    law_marking_changes_what_is_due(
        before,
        after,
        conversation_id,
        |m: MessageView| covered_by(m, chain, n),
        |m: MessageView| acknowledged(m),
        name,
    );
    let due = |m: MessageView| covered_by(m, chain, n);
    let fields = |m: MessageView|
        m.sender_is_local && !m.delivered && m.send_dh_pub == Some(chain) && m.send_n is Some
            && m.send_n->0 <= n;
    assert(due =~= fields);
    let mark = |m: MessageView| acknowledged(m);
    let delivered = |m: MessageView| MessageView { delivered: true, uncertain: false, ..m };
    assert(mark =~= delivered);
}

/// The message that an acknowledgement is for is the first that was sent from here at that place
/// of that chain and is not delivered yet. Once it is marked it is delivered and certain, and
/// otherwise as before; every other record reads the same.
pub proof fn law_an_acknowledgement_names_one_message(
    before: DbView,
    after: DbView,
    conversation_id: Seq<u8>,
    chain: Seq<u8>,
    n: u32,
    i: int,
    scope: Scope,
    name: Seq<u8>,
)
    requires
        first_acked(conversation(before, conversation_id), chain, n, i),
        stores_message(
            before,
            after,
            conversation_id,
            acknowledged(conversation(before, conversation_id)[i]),
        ),
    ensures
        ({
            let list = conversation(before, conversation_id);
            let m = list[i];
            &&& m.sender_is_local && !m.delivered && m.send_n == Some(n) && m.send_dh_pub == Some(
                chain,
            )
            &&& forall|j: int|
                0 <= j < i ==> !((#[trigger] list[j]).sender_is_local && !list[j].delivered
                    && list[j].send_n == Some(n) && list[j].send_dh_pub == Some(chain))
            &&& readable_message(after, message_name(conversation_id, m.id)) == Some(
                MessageView { delivered: true, uncertain: false, ..m },
            )
            &&& name != message_name(conversation_id, m.id) ==> after.read(scope, name)
                == before.read(scope, name)
        }),
{
    let list = conversation(before, conversation_id);
    assert forall|j: int| 0 <= j < i implies !((#[trigger] list[j]).sender_is_local
        && !list[j].delivered && list[j].send_n == Some(n) && list[j].send_dh_pub == Some(chain)) by {
        assert(!acked_by(list[j], chain, n));
    }
}

/// Which messages an acknowledgement is for, and which it covers, by their fields.
pub proof fn law_what_an_acknowledgement_is_for(m: MessageView, chain: Seq<u8>, n: u32)
    ensures
        acked_by(m, chain, n) <==> m.sender_is_local && !m.delivered && m.send_n == Some(n)
            && m.send_dh_pub == Some(chain),
        covered_by(m, chain, n) <==> exists|k: u32| k <= n && #[trigger] acked_by(m, chain, k),
{
    if covered_by(m, chain, n) {
        assert(acked_by(m, chain, m.send_n->0));
    }
}

/// A conversation is listed by time, within the same second by sequence number; it lists each
/// message that can be read under the conversation's names, as often as it is stored.
pub proof fn law_a_conversation_is_listed_by_time(db: DbView, conversation_id: Seq<u8>, i: int, j: int)
    requires
        0 <= i < j < conversation(db, conversation_id).len(),
    ensures
        ({
            let list = conversation(db, conversation_id);
            list[i].timestamp < list[j].timestamp || (list[i].timestamp == list[j].timestamp
                && list[i].sequence <= list[j].sequence)
        }),
        conversation(db, conversation_id).to_multiset() == readable_messages(
            db,
            listing(db.records, conversation_prefix(conversation_id)),
        ).to_multiset(),
{
    law_listing_is_in_order(
        readable_messages(db, listing(db.records, conversation_prefix(conversation_id))),
    );
}

/// One more name adds what can be read under it: the record is there, decrypts under the
/// content key and is a message.
pub proof fn law_each_readable_message_is_listed(db: DbView, names: Seq<Seq<u8>>, name: Seq<u8>)
    ensures
        readable_messages(db, Seq::empty()).len() == 0,
        readable_messages(db, names.push(name)) == match readable_message(db, name) {
            Some(m) => readable_messages(db, names).push(m),
            None => readable_messages(db, names),
        },
        forall|m: MessageView| #[trigger]
            readable_message(db, name) == Some(m) <==> db.records.dom().contains(name) && (decrypted(
                db.content_key,
                name,
                db.records[name],
            ) matches Ok(bytes) && message_of(bytes) == Some(m)),
{
    assert(names.push(name).drop_last() =~= names);
}

/// The names with a prefix are listed each once, in dictionary order, and no others.
pub proof fn law_names_are_listed_by_prefix(records: Records, prefix: Seq<u8>, name: Seq<u8>, i: int, j: int)
    requires
        records.dom().finite(),
    ensures
        listing(records, prefix).contains(name) <==> records.dom().contains(name)
            && prefix.is_prefix_of(name),
        0 <= i < j < listing(records, prefix).len() ==> bytes_lt(
            listing(records, prefix)[i],
            listing(records, prefix)[j],
        ),
{
    let set = records.dom().filter(|n: Seq<u8>| prefix.is_prefix_of(n));
    lemma_in_order_of_finite(set);
    assert(set.contains(name) <==> records.dom().contains(name) && prefix.is_prefix_of(name));
    assert(keys_sorted(listing(records, prefix)));
}

/// The recovered counter is one more than the greatest sequence number, which it cannot exceed
/// where that is the greatest number; without messages it is zero.
pub proof fn law_the_counter_goes_on(list: Seq<MessageView>, m: MessageView)
    ensures
        sequence_after(Seq::empty()) == 0,
        sequence_after(list.push(m)) == ({
            let next = if m.sequence == u64::MAX {
                u64::MAX as int
            } else {
                m.sequence + 1
            };
            if next > sequence_after(list) {
                next
            } else {
                sequence_after(list) as int
            }
        }),
{
    assert(list.push(m).drop_last() =~= list);
}

/// A store goes on counting behind every message that can be read in it.
pub proof fn law_the_counter_is_recovered_from_all_messages(db: DbView)
    ensures
        recovered_sequence(db) == sequence_after(
            readable_messages(db, listing(db.records, encode_utf8("message:"@))),
        ),
{
}

// Names and keys.

/// The names of records.
pub proof fn law_the_names_of_records(conversation_id: Seq<u8>, id: Seq<u8>)
    ensures
        salt_name() == encode_utf8("__salt__"@),
        kdf_check_name() == encode_utf8("__kdf_check__"@),
        identity_dek_name() == encode_utf8("__identity_dek__"@),
        contacts_dek_name() == encode_utf8("__contacts_dek__"@),
        content_dek_name() == encode_utf8("__content_dek__"@),
        account_name() == encode_utf8("account"@),
        own_profile_name() == encode_utf8("own_profile"@),
        level_name() == encode_utf8("notification_preview_level"@),
        contact_prefix() == encode_utf8("contact:"@),
        contact_name(id) == encode_utf8("contact:"@) + encode_utf8(hex(id)),
        message_prefix() == encode_utf8("message:"@),
        conversation_prefix(conversation_id) == encode_utf8("message:"@) + encode_utf8(
            hex(conversation_id),
        ) + encode_utf8(":"@),
        message_name(conversation_id, id) == encode_utf8("message:"@) + encode_utf8(
            hex(conversation_id),
        ) + encode_utf8(":"@) + encode_utf8(hex(id)),
        ratchet_prefix() == encode_utf8("ratchet:"@),
        ratchet_name(id) == encode_utf8("ratchet:"@) + encode_utf8(hex(id)),
        kdf_check_plaintext() == encode_utf8("dratchet-store-v1"@),
{
}

/// The account, the contacts, and messages with sessions each have a key of their own, and a
/// record is read with the key of its scope, bound to its name.
pub proof fn law_each_scope_has_its_key(db: DbView, name: Seq<u8>)
    ensures
        db.key(Scope::Identity) == db.identity_key,
        db.key(Scope::Contacts) == db.contacts_key,
        db.key(Scope::Content) == db.content_key,
        !db.records.dom().contains(name) ==> db.read(Scope::Identity, name) == Read::Ok(None)
            && db.read(Scope::Contacts, name) == Read::Ok(None) && db.read(Scope::Content, name)
            == Read::Ok(None),
        db.records.dom().contains(name) ==> {
            let stored = db.records[name];
            &&& match decrypted(db.identity_key, name, stored) {
                Ok(p) => db.read(Scope::Identity, name) == Read::Ok(Some(p)),
                Err(e) => db.read(Scope::Identity, name) == Read::Err(e),
            }
            &&& match decrypted(db.contacts_key, name, stored) {
                Ok(p) => db.read(Scope::Contacts, name) == Read::Ok(Some(p)),
                Err(e) => db.read(Scope::Contacts, name) == Read::Err(e),
            }
            &&& match decrypted(db.content_key, name, stored) {
                Ok(p) => db.read(Scope::Content, name) == Read::Ok(Some(p)),
                Err(e) => db.read(Scope::Content, name) == Read::Err(e),
            }
        },
{
}

/// A stored value is a nonce of twelve bytes and what the cipher makes of the plaintext under the
/// key and that nonce, bound to the name, with a tag of sixteen bytes. It is read with the same.
pub proof fn law_a_stored_value_is_nonce_and_ciphertext(
    key: Seq<u8>,
    name: Seq<u8>,
    stored: Seq<u8>,
    plaintext: Seq<u8>,
)
    ensures
        holds(stored, key, name, plaintext) ==> {
            &&& plaintext.len() <= 274_877_906_816
            &&& stored.len() == plaintext.len() + 28
            &&& stored.skip(12) == sealed(key, stored.take(12), name, plaintext)
        },
        stored.len() < 12 ==> decrypted(key, name, stored) == std::result::Result::<
            Seq<u8>,
            ErrorView,
        >::Err(ErrorView::MalformedRecord("stored value shorter than a nonce")),
        12 <= stored.len() <= 274_877_906_816 + 28 ==> match opened(
            key,
            stored.take(12),
            name,
            stored.skip(12),
        ) {
            Some(p) => decrypted(key, name, stored) == std::result::Result::<
                Seq<u8>,
                ErrorView,
            >::Ok(p),
            None => decrypted(key, name, stored) == std::result::Result::<Seq<u8>, ErrorView>::Err(
                ErrorView::DecryptionFailed,
            ),
        },
{
}

// Changes.

/// Putting a record in, or taking records out, changes the table and lists the change last; the
/// keys and the counter stay.
pub proof fn law_what_a_change_is(
    db: DbView,
    name: Seq<u8>,
    value: Seq<u8>,
    names: Seq<Seq<u8>>,
    k: Seq<u8>,
)
    ensures
        db.with_record(name, value) == (DbView {
            records: db.records.insert(name, value),
            changes: db.changes.push(ChangeView::Put { name, value }),
            ..db
        }),
        ({
            let after = db.without_records(names);
            &&& after == (DbView {
                records: after.records,
                changes: db.changes.push(ChangeView::Remove { names }),
                ..db
            })
            &&& after.records.dom().contains(k) <==> db.records.dom().contains(k) && !names.contains(
                k,
            )
            &&& after.records.dom().contains(k) ==> after.records[k] == db.records[k]
        }),
{
}

/// Carrying out one more change: a put puts its value under its name, a removal takes out its
/// names, and nothing else changes.
pub proof fn law_changes_are_carried_out_in_order(
    records: Records,
    changes: Seq<ChangeView>,
    last: ChangeView,
    k: Seq<u8>,
)
    ensures
        replayed(records, Seq::empty()) == records,
        ({
            let before = replayed(records, changes);
            let after = replayed(records, changes.push(last));
            match last {
                ChangeView::Put { name, value } => after == before.insert(name, value),
                ChangeView::Remove { names } => {
                    &&& after.dom().contains(k) <==> before.dom().contains(k) && !names.contains(k)
                    &&& after.dom().contains(k) ==> after[k] == before[k]
                },
            }
        }),
{
    assert(changes.push(last).drop_last() =~= changes);
}

/// A table that is read in has each record under its name; of two with one name, the later.
pub proof fn law_a_table_is_read_in_order(
    entries: Seq<(Seq<u8>, Seq<u8>)>,
    name: Seq<u8>,
    value: Seq<u8>,
)
    ensures
        table_of(Seq::empty()) == Map::<Seq<u8>, Seq<u8>>::empty(),
        table_of(entries.push((name, value))) == table_of(entries).insert(name, value),
{
    assert(entries.push((name, value)).drop_last() =~= entries);
}

// Opening.

/// A table opens exactly where it has a salt, the passphrase's key for that salt opens the check
/// value to the known text, and the three wrapped keys open to keys of 32 bytes. The store has
/// these keys, the table's records and no changes.
pub proof fn law_a_table_opens_exactly_when(records: Records, passphrase: Seq<char>)
    ensures
        open_outcome(records, passphrase) is Ok <==> {
            let salt = records[encode_utf8("__salt__"@)];
            let master = argon2_key(encode_utf8(passphrase), salt)->Ok_0;
            &&& records.dom().contains(encode_utf8("__salt__"@))
            &&& valid_utf8(salt)
            &&& argon2_key(encode_utf8(passphrase), salt) is Ok
            &&& records.dom().contains(encode_utf8("__kdf_check__"@))
            &&& decrypted(
                master,
                encode_utf8("__kdf_check__"@),
                records[encode_utf8("__kdf_check__"@)],
            ) == std::result::Result::<Seq<u8>, ErrorView>::Ok(encode_utf8("dratchet-store-v1"@))
            &&& wraps_a_key(records, master, encode_utf8("__identity_dek__"@))
            &&& wraps_a_key(records, master, encode_utf8("__contacts_dek__"@))
            &&& wraps_a_key(records, master, encode_utf8("__content_dek__"@))
        },
        open_outcome(records, passphrase) matches Ok(db) ==> {
            &&& argon2_key(encode_utf8(passphrase), records[encode_utf8("__salt__"@)]) == std::result::Result::<
                Seq<u8>,
                Seq<char>,
            >::Ok(db.master_key)
            &&& db.identity_key == decrypted(
                db.master_key,
                encode_utf8("__identity_dek__"@),
                records[encode_utf8("__identity_dek__"@)],
            )->Ok_0
            &&& db.contacts_key == decrypted(
                db.master_key,
                encode_utf8("__contacts_dek__"@),
                records[encode_utf8("__contacts_dek__"@)],
            )->Ok_0
            &&& db.content_key == decrypted(
                db.master_key,
                encode_utf8("__content_dek__"@),
                records[encode_utf8("__content_dek__"@)],
            )->Ok_0
            &&& db.records == records
            &&& db.changes.len() == 0
            &&& db.message_sequence == recovered_sequence(db)
        },
{
    if let Ok(db) = open_outcome(records, passphrase) {
        let counted = DbView { message_sequence: 0, ..db };
        lemma_counter_is_not_read(
            db,
            counted,
            listing(records, message_prefix()),
        );
    }
}

proof fn lemma_counter_is_not_read(a: DbView, b: DbView, names: Seq<Seq<u8>>)
    requires
        a.records == b.records,
        a.content_key == b.content_key,
    ensures
        readable_messages(a, names) == readable_messages(b, names),
    decreases names.len(),
{
    if names.len() > 0 {
        lemma_counter_is_not_read(a, b, names.drop_last());
    }
}

/// Whether a record opens, under the master key and bound to its name, to a key of 32 bytes.
pub open spec fn wraps_a_key(records: Records, master: Seq<u8>, name: Seq<u8>) -> bool {
    records.dom().contains(name) && (decrypted(master, name, records[name]) matches Ok(key)
        && key.len() == 32)
}

/// A check value that does not open to the known text is answered with a wrong passphrase.
pub proof fn law_a_wrong_passphrase_is_told(records: Records, passphrase: Seq<char>, master: Seq<u8>)
    requires
        records.dom().contains(encode_utf8("__salt__"@)),
        valid_utf8(records[encode_utf8("__salt__"@)]),
        argon2_key(encode_utf8(passphrase), records[encode_utf8("__salt__"@)])
            == std::result::Result::<Seq<u8>, Seq<char>>::Ok(master),
        records.dom().contains(encode_utf8("__kdf_check__"@)),
        match decrypted(
            master,
            encode_utf8("__kdf_check__"@),
            records[encode_utf8("__kdf_check__"@)],
        ) {
            Ok(text) => text != encode_utf8("dratchet-store-v1"@),
            Err(e) => e is DecryptionFailed,
        },
    ensures
        open_outcome(records, passphrase) == std::result::Result::<DbView, ErrorView>::Err(
            ErrorView::WrongPassphraseOrCorrupted,
        ),
{
}

/// Why a table does not open: what is missing or does not fit is named, the first of it.
pub proof fn law_why_a_table_does_not_open(records: Records, passphrase: Seq<char>, name: Seq<u8>, master: Seq<u8>)
    ensures
        ({
            let salt_at = encode_utf8("__salt__"@);
            let check_at = encode_utf8("__kdf_check__"@);
            let salt = records[salt_at];
            &&& !records.dom().contains(salt_at) ==> open_outcome(records, passphrase)
                == std::result::Result::<DbView, ErrorView>::Err(
                ErrorView::MalformedRecord("missing salt — not a dratchet-store database"),
            )
            &&& records.dom().contains(salt_at) && !valid_utf8(salt) ==> open_outcome(
                records,
                passphrase,
            ) == std::result::Result::<DbView, ErrorView>::Err(
                ErrorView::MalformedRecord("salt is not valid UTF-8"),
            )
            &&& records.dom().contains(salt_at) && valid_utf8(salt) ==> match argon2_key(
                encode_utf8(passphrase),
                salt,
            ) {
                Err(text) => open_outcome(records, passphrase) == std::result::Result::<
                    DbView,
                    ErrorView,
                >::Err(ErrorView::PassphraseHash(text)),
                Ok(_) => !records.dom().contains(check_at) ==> open_outcome(records, passphrase)
                    == std::result::Result::<DbView, ErrorView>::Err(
                    ErrorView::MalformedRecord("missing KDF check value"),
                ),
            }
        }),
        !records.dom().contains(name) ==> unwrapped_key(records, master, name)
            == std::result::Result::<Seq<u8>, ErrorView>::Err(
            ErrorView::MalformedRecord(
                "missing wrapped data-encryption key — not a dratchet-store database",
            ),
        ),
        records.dom().contains(name) ==> match decrypted(master, name, records[name]) {
            Err(e) => unwrapped_key(records, master, name) == std::result::Result::<
                Seq<u8>,
                ErrorView,
            >::Err(e),
            Ok(key) => if key.len() == 32 {
                unwrapped_key(records, master, name) == std::result::Result::<
                    Seq<u8>,
                    ErrorView,
                >::Ok(key)
            } else {
                unwrapped_key(records, master, name) == std::result::Result::<
                    Seq<u8>,
                    ErrorView,
                >::Err(
                    ErrorView::MalformedRecord("wrapped data-encryption key has the wrong length"),
                )
            },
        },
{
}

/// A store that was just made holds five records and lists them as changes, so that carrying
/// these out on an empty table gives its table; it counts from zero.
pub proof fn law_what_a_new_store_holds(db: DbView, passphrase: Seq<char>, name: Seq<u8>)
    requires
        created(db, passphrase),
    ensures
        db.records.dom().contains(name) <==> name == encode_utf8("__salt__"@) || name
            == encode_utf8("__kdf_check__"@) || name == encode_utf8("__identity_dek__"@) || name
            == encode_utf8("__contacts_dek__"@) || name == encode_utf8("__content_dek__"@),
        db.changes.len() == 5,
        replayed(Map::empty(), db.changes) == db.records,
        db.records[encode_utf8("__salt__"@)].len() == 22,
        db.message_sequence == 0,
        argon2_key(encode_utf8(passphrase), db.records[encode_utf8("__salt__"@)])
            == std::result::Result::<Seq<u8>, Seq<char>>::Ok(db.master_key),
        decrypted(
            db.master_key,
            encode_utf8("__kdf_check__"@),
            db.records[encode_utf8("__kdf_check__"@)],
        ) == std::result::Result::<Seq<u8>, ErrorView>::Ok(encode_utf8("dratchet-store-v1"@)),
        decrypted(
            db.master_key,
            encode_utf8("__identity_dek__"@),
            db.records[encode_utf8("__identity_dek__"@)],
        ) == std::result::Result::<Seq<u8>, ErrorView>::Ok(db.identity_key),
        decrypted(
            db.master_key,
            encode_utf8("__contacts_dek__"@),
            db.records[encode_utf8("__contacts_dek__"@)],
        ) == std::result::Result::<Seq<u8>, ErrorView>::Ok(db.contacts_key),
        decrypted(
            db.master_key,
            encode_utf8("__content_dek__"@),
            db.records[encode_utf8("__content_dek__"@)],
        ) == std::result::Result::<Seq<u8>, ErrorView>::Ok(db.content_key),
{
    let none = Map::<Seq<u8>, Seq<u8>>::empty();
    let all = db.changes;
    assert(all.take(0) =~= Seq::<ChangeView>::empty());
    assert(replayed(none, all.take(0)) == none);
    assert(all.take(1).drop_last() =~= all.take(0));
    assert(all.take(2).drop_last() =~= all.take(1));
    assert(all.take(3).drop_last() =~= all.take(2));
    assert(all.take(4).drop_last() =~= all.take(3));
    assert(all.take(5).drop_last() =~= all.take(4));
    assert(replayed(none, all.take(1)) == changed(none, all[0]));
    assert(replayed(none, all.take(2)) == changed(replayed(none, all.take(1)), all[1]));
    assert(replayed(none, all.take(3)) == changed(replayed(none, all.take(2)), all[2]));
    assert(replayed(none, all.take(4)) == changed(replayed(none, all.take(3)), all[3]));
    assert(replayed(none, all.take(5)) == changed(replayed(none, all.take(4)), all[4]));
    assert(all.take(5) =~= all);
}

/// Which messages and contacts storing never fails for: those whose parts have at most the given
/// number of bytes.
pub proof fn law_what_always_fits(m: MessageView, c: ContactView)
    ensures
        message_fits(m) <==> m.id.len() <= 8_589_934_592 && m.content.len() <= 8_589_934_592 && (
        m.send_dh_pub is Some ==> (m.send_dh_pub->0).len() <= 8_589_934_592),
        contact_fits(c) <==> c.fingerprint.len() <= 8_589_934_592 && c.mailbox_id.len()
            <= 8_589_934_592 && c.local_routing_id.len() <= 8_589_934_592 && (c.username is Some
            ==> encode_utf8(c.username->0).len() <= 8_589_934_592) && (c.peer_routing_id is Some
            ==> (c.peer_routing_id->0).len() <= 8_589_934_592),
{
}

// Contacts.

/// What is found of a contact: what its record says, nothing where there is none, and otherwise
/// why it cannot be read. The list has each contact that can be read, in the order of the names.
pub proof fn law_contacts_are_found_by_fingerprint(
    db: DbView,
    fingerprint: Seq<u8>,
    names: Seq<Seq<u8>>,
    name: Seq<u8>,
)
    ensures
        match db.read(Scope::Contacts, encode_utf8("contact:"@) + encode_utf8(hex(fingerprint))) {
            Ok(None) => stored_contact(db, fingerprint) == ContactRead::Ok(None),
            Ok(Some(bytes)) => match contact_of(bytes) {
                Some(c) => stored_contact(db, fingerprint) == ContactRead::Ok(Some(c)),
                None => stored_contact(db, fingerprint) == ContactRead::Err(
                    ErrorView::MalformedRecord("stored contact is not valid CBOR for this shape"),
                ),
            },
            Err(e) => stored_contact(db, fingerprint) == ContactRead::Err(e),
        },
        contact_list(db) == readable_contacts(db, listing(db.records, encode_utf8("contact:"@))),
        readable_contacts(db, Seq::empty()).len() == 0,
        readable_contacts(db, names.push(name)) == match readable_contact(db, name) {
            Some(c) => readable_contacts(db, names).push(c),
            None => readable_contacts(db, names),
        },
        forall|c: ContactView| #[trigger]
            readable_contact(db, name) == Some(c) <==> db.records.dom().contains(name) && (decrypted(
                db.contacts_key,
                name,
                db.records[name],
            ) matches Ok(bytes) && contact_of(bytes) == Some(c)),
{
    assert(names.push(name).drop_last() =~= names);
}

/// A contact's announcement of a handle is taken exactly where the handle is made of the
/// characters of handles, is not the contact's already, and no other contact goes by it. The
/// contact then goes by it and is otherwise as before, which is worth a notice if it had a name
/// before. Otherwise nothing changes.
pub proof fn law_an_announced_handle_is_recorded(
    before: DbView,
    after: DbView,
    fingerprint: Seq<u8>,
    username: Seq<char>,
    discriminator: u16,
    result: std::result::Result<(ContactView, bool), ErrorView>,
    c: ContactView,
)
    requires
        profile_outcome(before, after, fingerprint, username, discriminator, result),
        stored_contact(before, fingerprint) == ContactRead::Ok(Some(c)),
        c.fingerprint == fingerprint,
    ensures
        ({
            let others = contact_list(before);
            let taken = exists|i: int|
                0 <= i < others.len() && (#[trigger] others[i]).fingerprint != fingerprint
                    && others[i].username == Some(username) && others[i].discriminator == Some(
                    discriminator,
                );
            let same = c.username == Some(username) && c.discriminator == Some(discriminator);
            let updated = ContactView {
                username: Some(username),
                discriminator: Some(discriminator),
                ..c
            };
            if !crate::username::username_allowed(username) || taken || same {
                after == before && result == std::result::Result::<
                    (ContactView, bool),
                    ErrorView,
                >::Ok((c, false))
            } else if contact_storable(updated) {
                &&& result == std::result::Result::<(ContactView, bool), ErrorView>::Ok(
                    (updated, c.username is Some),
                )
                &&& stored_contact(after, fingerprint) == ContactRead::Ok(Some(updated))
            } else {
                after == before && result is Err
            }
        }),
{
    let others = contact_list(before);
    if exists|i: int|
        0 <= i < others.len() && (#[trigger] others[i]).fingerprint != fingerprint
            && others[i].username == Some(username) && others[i].discriminator == Some(
            discriminator,
        ) {
        let i = choose|i: int|
            0 <= i < others.len() && (#[trigger] others[i]).fingerprint != fingerprint
                && others[i].username == Some(username) && others[i].discriminator == Some(
                discriminator,
            );
        assert(super::profile::goes_by(others[i], username, discriminator));
    }
}

/// A peer's routing id that is new is recorded together with the mailbox that it leads to; the
/// contact is otherwise as before. One that is known changes nothing, whatever mailbox comes
/// with it.
pub proof fn law_a_routing_id_moves_the_mailbox(
    before: DbView,
    after: DbView,
    fingerprint: Seq<u8>,
    peer_routing_id: Seq<u8>,
    mailbox_id: Seq<u8>,
    result: std::result::Result<ContactView, ErrorView>,
    c: ContactView,
)
    requires
        routing_outcome(before, after, fingerprint, peer_routing_id, mailbox_id, result),
        stored_contact(before, fingerprint) == ContactRead::Ok(Some(c)),
        c.fingerprint == fingerprint,
    ensures
        ({
            let updated = ContactView {
                mailbox_id,
                peer_routing_id: Some(peer_routing_id),
                ..c
            };
            if c.peer_routing_id == Some(peer_routing_id) {
                after == before && result == std::result::Result::<ContactView, ErrorView>::Ok(c)
            } else if contact_storable(updated) {
                &&& result == std::result::Result::<ContactView, ErrorView>::Ok(updated)
                &&& stored_contact(after, fingerprint) == ContactRead::Ok(Some(updated))
            } else {
                after == before && result is Err
            }
        }),
{
}

/// A peer's wipe policy is recorded with both of its preferences, the time and the sequence
/// number that were given; the contact is otherwise as before, this side's own policy included.
pub proof fn law_a_peer_policy_is_recorded(
    c: ContactView,
    ask_before_delete: bool,
    include_session: bool,
    now: u64,
    sequence: u64,
)
    ensures
        ({
            let updated = with_peer_policy(c, ask_before_delete, include_session, now, sequence);
            &&& updated.peer_wipe_ask_before_delete == Some(ask_before_delete)
            &&& updated.peer_wipe_include_session == Some(include_session)
            &&& updated.peer_wipe_boundary_timestamp == Some(now)
            &&& updated.peer_wipe_boundary_sequence == Some(sequence)
            &&& c == (ContactView {
                peer_wipe_ask_before_delete: c.peer_wipe_ask_before_delete,
                peer_wipe_include_session: c.peer_wipe_include_session,
                peer_wipe_boundary_timestamp: c.peer_wipe_boundary_timestamp,
                peer_wipe_boundary_sequence: c.peer_wipe_boundary_sequence,
                ..updated
            })
        }),
{
}

/// The preview level of each name, and what is found where none was saved: the one that reveals
/// nothing.
pub proof fn law_preview_levels_by_name(db: DbView)
    ensures
        level_named(Some(encode_utf8("None"@))) == Some(NotificationPreviewLevel::Nothing),
        level_named(Some(encode_utf8("HandleOnly"@))) == Some(NotificationPreviewLevel::HandleOnly),
        level_named(Some(encode_utf8("HandleAndMessage"@))) == Some(
            NotificationPreviewLevel::HandleAndMessage,
        ),
        forall|name: Seq<u8>|
            name != encode_utf8("None"@) && name != encode_utf8("HandleOnly"@) && name
                != encode_utf8("HandleAndMessage"@) ==> #[trigger] level_named(Some(name)) is None,
        level_named(None) is None,
        db.read(Scope::Identity, encode_utf8("notification_preview_level"@)) == Read::Ok(None)
            ==> stored_level(db) == std::result::Result::<NotificationPreviewLevel, ErrorView>::Ok(
            NotificationPreviewLevel::Nothing,
        ),
{
    reveal_strlit("None");
    reveal_strlit("HandleOnly");
    reveal_strlit("HandleAndMessage");
    vstd::utf8::encode_utf8_decode_utf8("None"@);
    vstd::utf8::encode_utf8_decode_utf8("HandleOnly"@);
    vstd::utf8::encode_utf8_decode_utf8("HandleAndMessage"@);
    assert("None"@.len() == 4 && "HandleOnly"@.len() == 10 && "HandleAndMessage"@.len() == 16);
}

// Records.

/// What a record holds under a name once a field is put behind the others: one value for the
/// first field of that name, and nothing that can be used for a second one.
pub proof fn law_a_field_is_found_by_its_name(
    pairs: Seq<(ScalarView, ScalarView)>,
    key: ScalarView,
    value: ScalarView,
    name: Seq<char>,
)
    ensures
        field(Seq::empty(), name) is Absent,
        ({
            let named = match key {
                ScalarView::Text(t) => encode_utf8(t) == encode_utf8(name),
                ScalarView::Bytes(b) => b == encode_utf8(name),
                _ => false,
            };
            let before = field(pairs, name);
            field(pairs.push((key, value)), name) == if !named {
                before
            } else if before is Absent {
                FieldView::One(value)
            } else {
                FieldView::Repeated
            }
        }),
        names_ok(pairs.push((key, value))) <==> names_ok(pairs) && match key {
            ScalarView::Text(t) => encode_utf8(t).len() <= 4096,
            ScalarView::Bytes(b) => b.len() <= 4096,
            _ => false,
        },
{
    let all = pairs.push((key, value));
    assert(all.drop_last() =~= pairs);
    if names_ok(all) {
        assert forall|i: int| 0 <= i < pairs.len() implies (name_bytes(
            (#[trigger] pairs[i]).0,
        ) matches Some(n) && n.len() <= 4096) by {
            assert(all[i] == pairs[i]);
        }
        assert(all[pairs.len() as int] == (key, value));
    }
    if names_ok(pairs) {
        assert forall|i: int| 0 <= i < all.len() && i != pairs.len() implies (name_bytes(
            (#[trigger] all[i]).0,
        ) matches Some(n) && n.len() <= 4096) by {
            assert(all[i] == pairs[i]);
        }
    }
}

/// A list of numbers stands for the byte string of these numbers exactly where all of them are
/// bytes, and for nothing else.
pub proof fn law_a_list_of_bytes_is_a_byte_string(items: Seq<TreeView>, bytes: Seq<u8>)
    ensures
        tree_scalar(TreeView::Array(items)) == ScalarView::Bytes(bytes) <==> items.len()
            == bytes.len() && forall|i: int|
            0 <= i < items.len() ==> (untagged(#[trigger] items[i]) matches TreeView::Integer(n)
                && n == bytes[i]),
        tree_scalar(TreeView::Array(items)) is Bytes || tree_scalar(TreeView::Array(items)) is Other,
{
    let tree = TreeView::Array(items);
    assert(untagged(tree) == tree);
    if tree_scalar(tree) == ScalarView::Bytes(bytes) {
        assert forall|i: int| 0 <= i < items.len() implies (untagged(
            #[trigger] items[i],
        ) matches TreeView::Integer(n) && n == bytes[i]) by {
            assert(tree_byte(items[i]) is Some);
        }
    }
    if items.len() == bytes.len() && forall|i: int|
        0 <= i < items.len() ==> (untagged(#[trigger] items[i]) matches TreeView::Integer(n) && n
            == bytes[i]) {
        assert forall|i: int| 0 <= i < items.len() implies tree_byte(#[trigger] items[i]) == Some(
            bytes[i],
        ) by {
            assert(untagged(items[i]) matches TreeView::Integer(n) && n == bytes[i]);
        }
        assert(tree_bytes(items) is Some);
        assert((tree_bytes(items)->0) =~= bytes);
    }
}

/// A preview level is given by a text, or by the name of the one field of a map.
pub proof fn law_how_a_preview_level_is_given(bytes: Seq<u8>)
    ensures
        match cbor_item(bytes) {
            Some(ItemView::Single(ScalarView::Text(t))) => level_of(bytes) == level_named(
                Some(encode_utf8(t)),
            ),
            Some(ItemView::Fields(pairs)) => if pairs.len() == 1 {
                level_of(bytes) == level_named(
                    match pairs[0].0 {
                        ScalarView::Text(t) => Some(encode_utf8(t)),
                        ScalarView::Bytes(b) => Some(b),
                        _ => None,
                    },
                )
            } else {
                level_of(bytes) is None
            },
            _ => level_of(bytes) is None,
        },
{
    assert(level_named(None) is None);
}

/// What an item of a record stands for: a tag in front of it does not matter, except to null.
pub proof fn law_tags_do_not_matter(tag: u64, tree: TreeView)
    ensures
        untagged(TreeView::Tag(tag, Box::new(tree))) == untagged(tree),
        !(tree is Tag) ==> untagged(tree) == tree,
        tree is Null ==> tree_scalar(tree) == ScalarView::Null && tree_scalar(
            TreeView::Tag(tag, Box::new(tree)),
        ) == ScalarView::Other,
        !(tree is Null) ==> tree_scalar(TreeView::Tag(tag, Box::new(tree))) == tree_scalar(tree),
        tree matches TreeView::Bool(b) ==> tree_scalar(tree) == ScalarView::Bool(b),
        tree matches TreeView::Integer(n) ==> tree_scalar(tree) == if 0 <= n
            <= 18_446_744_073_709_551_615 {
            ScalarView::Uint(n as u64)
        } else {
            ScalarView::Other
        },
        tree matches TreeView::Bytes(b) ==> tree_scalar(tree) == ScalarView::Bytes(b) && tree_name(
            tree,
        ) == ScalarView::Bytes(b),
        tree matches TreeView::Text(t) ==> tree_scalar(tree) == ScalarView::Text(t) && tree_name(
            tree,
        ) == ScalarView::Text(t),
        tree is Entries || tree is Float || tree is Other ==> tree_scalar(tree)
            == ScalarView::Other,
        tree matches TreeView::Entries(entries) ==> (tree_item(tree) matches ItemView::Fields(pairs)
            && pairs.len() == entries.len() && forall|i: int|
            0 <= i < entries.len() ==> #[trigger] pairs[i] == (
                tree_name(entries[i].0),
                tree_scalar(entries[i].1),
            )),
        !(tree is Entries) && !(tree is Tag) ==> tree_item(tree) == ItemView::Single(
            tree_scalar(tree),
        ),
{
    let tagged = TreeView::Tag(tag, Box::new(tree));
    assert(untagged(tagged) == untagged(*Box::new(tree)));
}

// Wiping.

/// Wiping a conversation says how many records it has taken out, the session's among them.
pub proof fn law_a_wipe_counts_what_it_takes(
    before: DbView,
    conversation_id: Seq<u8>,
    include_session: bool,
)
    requires
        before.records.dom().finite(),
    ensures
        ({
            let (after, count) = wiped(before, conversation_id, include_session);
            &&& count matches Ok(n) ==> n + after.records.dom().len() == before.records.dom().len()
            &&& !include_session ==> count is Ok
            &&& after.identity_key == before.identity_key
            &&& after.contacts_key == before.contacts_key
            &&& after.content_key == before.content_key
            &&& after.master_key == before.master_key
            &&& after.message_sequence == before.message_sequence
        }),
{
    let names = listing(before.records, conversation_prefix(conversation_id));
    let set = before.records.dom().filter(
        |n: Seq<u8>| conversation_prefix(conversation_id).is_prefix_of(n),
    );
    lemma_in_order_of_finite(set);
    assert forall|i: int, j: int| 0 <= i < j < names.len() implies names[i] != names[j] by {
        assert(keys_sorted(names));
        crate::bytes::lemma_bytes_lt_total(names[i], names[j]);
    }
    assert forall|i: int| 0 <= i < names.len() implies before.records.dom().contains(
        #[trigger] names[i],
    ) by {
        assert(names.contains(names[i]));
        assert(set.contains(names[i]));
    }
    lemma_each_takes_one(before, names);
    let left = before.without_each(names);
    let session = ratchet_name(conversation_id);
    if left.records.dom().contains(session) {
        assert(seq![session].to_set() =~= Set::<Seq<u8>>::empty().insert(session)) by {
            assert(seq![session][0] == session);
        }
        assert(left.without_records(seq![session]).records.dom() =~= left.records.dom().remove(
            session,
        ));
    }
}

proof fn lemma_each_takes_one(db: DbView, names: Seq<Seq<u8>>)
    requires
        db.records.dom().finite(),
        forall|i: int, j: int| 0 <= i < j < names.len() ==> names[i] != names[j],
        forall|i: int| 0 <= i < names.len() ==> db.records.dom().contains(#[trigger] names[i]),
    ensures
        ({
            let after = db.without_each(names);
            &&& after.records.dom().finite()
            &&& after.records.dom().len() + names.len() == db.records.dom().len()
            &&& forall|k: Seq<u8>| #[trigger]
                after.records.dom().contains(k) <==> db.records.dom().contains(k)
                    && !names.contains(k)
            &&& after == (DbView { records: after.records, changes: after.changes, ..db })
        }),
    decreases names.len(),
{
    if names.len() > 0 {
        let shorter = names.drop_last();
        let last = names.last();
        lemma_each_takes_one(db, shorter);
        let between = db.without_each(shorter);
        let after = db.without_each(names);
        assert(!shorter.contains(last)) by {
            if shorter.contains(last) {
                let i = choose|i: int| 0 <= i < shorter.len() && shorter[i] == last;
                assert(names[i] == names[names.len() - 1]);
            }
        }
        assert(names[names.len() - 1] == last);
        assert(seq![last].to_set() =~= Set::<Seq<u8>>::empty().insert(last)) by {
            assert(seq![last][0] == last);
        }
        assert(after.records.dom() =~= between.records.dom().remove(last));
        assert forall|k: Seq<u8>| #[trigger]
            after.records.dom().contains(k) <==> db.records.dom().contains(k) && !names.contains(
                k,
            ) by {
            if names.contains(k) {
                let i = choose|i: int| 0 <= i < names.len() && names[i] == k;
                if i < shorter.len() {
                    assert(shorter[i] == k);
                }
            }
            if shorter.contains(k) {
                let i = choose|i: int| 0 <= i < shorter.len() && shorter[i] == k;
                assert(names[i] == k);
            }
        }
    }
}

} // verus!
