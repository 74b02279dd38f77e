//! What holds of the store as a whole.

use vstd::prelude::*;
use vstd::utf8::encode_utf8;
use crate::hex::{hex, law_decode_undoes_encode, lemma_hex_bytes};
use crate::map::{lemma_in_order, lemma_in_order_of_finite, lookup};
use super::contacts::{
    contact_list, contact_name, contact_prefix, readable_contact, readable_contacts, stored_contact,
    stores_contact, ContactView,
};
use super::db::{
    changed, checked_master_key, contacts_dek_name, content_dek_name, created, identity_dek_name,
    kdf_check_name, lemma_content_prefixes, lemma_reserved_names, listing, message_prefix,
    open_outcome, quick_wiped, ratchet_name, ratchet_prefix, replayed, salt_name, stores, unlocked,
    unwrapped_key, wiped_names, ChangeView, DbView, KeysView, Read, Records, Scope,
};
use super::error::ErrorView;
use super::messages::{
    acknowledged, awaits_ack, becomes_uncertain, conversation, conversation_prefix, covered_by,
    acked_by, doubted, first_acked, law_listing_is_in_order, message_name, newly_delivered,
    newly_uncertain, readable_message, readable_messages, recovered_sequence, stores_message,
    stores_messages, MessageView,
};
use super::profile::{goes_by, profile_outcome};
use super::wipe_policy::wiped;

verus! {

// Reading and writing.

/// A read gives back what was written last, and a write changes nothing under other names.
pub proof fn law_a_read_gives_back_a_write(
    before: DbView,
    after: DbView,
    scope: Scope,
    name: Seq<u8>,
    plaintext: Seq<u8>,
    other_scope: Scope,
    other: Seq<u8>,
)
    requires
        stores(before, after, scope, name, plaintext),
    ensures
        after.read(scope, name) == Read::Ok(Some(plaintext)),
        other != name ==> after.read(other_scope, other) == before.read(other_scope, other),
{
}

/// What was taken out is not found again, and nothing else changes.
pub proof fn law_removed_records_are_gone(before: DbView, names: Seq<Seq<u8>>, scope: Scope, name: Seq<u8>)
    ensures
        ({
            let after = before.without_records(names);
            if names.contains(name) {
                after.read(scope, name) == Read::Ok(None)
            } else {
                after.read(scope, name) == before.read(scope, name)
            }
        }),
{
}

/// Carrying out the listed changes on the table makes it what the store reads.
pub proof fn law_changes_mirror_the_records(
    before: DbView,
    name: Seq<u8>,
    value: Seq<u8>,
    names: Seq<Seq<u8>>,
)
    ensures
        ({
            let put = before.with_record(name, value);
            put.changes.drop_last() == before.changes && put.records == changed(
                before.records,
                put.changes.last(),
            )
        }),
        ({
            let removed = before.without_records(names);
            removed.changes.drop_last() == before.changes && removed.records == changed(
                before.records,
                removed.changes.last(),
            )
        }),
{
    assert(before.with_record(name, value).changes.drop_last() =~= before.changes);
    assert(before.without_records(names).changes.drop_last() =~= before.changes);
}

/// Changes may be carried out in portions.
pub proof fn law_replay_composes(records: Records, first: Seq<ChangeView>, second: Seq<ChangeView>)
    ensures
        replayed(replayed(records, first), second) == replayed(records, first + second),
    decreases second.len(),
{
    if second.len() > 0 {
        law_replay_composes(records, first, second.drop_last());
        assert((first + second).drop_last() =~= first + second.drop_last());
    } else {
        assert(first + second =~= first);
    }
}

// Opening.

/// The passphrase that a store was made with opens it, with the same keys and records.
pub proof fn law_open_undoes_create(db: DbView, passphrase: Seq<char>)
    requires
        created(db, passphrase),
    ensures
        open_outcome(db.records, passphrase) == std::result::Result::<DbView, ErrorView>::Ok(
            DbView { changes: Seq::empty(), ..db },
        ),
{
    lemma_reserved_names();
    lemma_content_prefixes();
    let records = db.records;
    let names = records.dom().filter(|n: Seq<u8>| message_prefix().is_prefix_of(n));
    assert forall|n: Seq<u8>| !names.contains(n) by {
        if names.contains(n) {
            assert(n.subrange(0, 8)[0] == n[0]);
        }
    }
    lemma_in_order(Seq::<Seq<u8>>::empty(), names);
    assert(checked_master_key(records, passphrase) == std::result::Result::<Seq<u8>, ErrorView>::Ok(
        db.master_key,
    ));
    let opened = DbView { changes: Seq::empty(), ..db };
    assert(recovered_sequence(opened) == 0);
    assert(unlocked(records, passphrase) == std::result::Result::<KeysView, ErrorView>::Ok(
        keys_of(db),
    ));
}

/// The keys of a store.
pub open spec fn keys_of(db: DbView) -> KeysView {
    KeysView {
        master: db.master_key,
        identity: db.identity_key,
        contacts: db.contacts_key,
        content: db.content_key,
    }
}

/// Whether the passphrase unlocks the table with the keys that the store works with.
pub open spec fn locked_by(db: DbView, passphrase: Seq<char>) -> bool {
    unlocked(db.records, passphrase) == std::result::Result::<KeysView, ErrorView>::Ok(keys_of(db))
}

/// Whether a name is one of those that opening depends on.
pub open spec fn reserved(name: Seq<u8>) -> bool {
    name == salt_name() || name == kdf_check_name() || name == identity_dek_name() || name
        == contacts_dek_name() || name == content_dek_name()
}

/// The passphrase keeps unlocking a store while records are written and taken out.
pub proof fn law_the_passphrase_stays(
    before: DbView,
    after: DbView,
    passphrase: Seq<char>,
    scope: Scope,
    name: Seq<u8>,
    plaintext: Seq<u8>,
    names: Seq<Seq<u8>>,
)
    requires
        locked_by(before, passphrase),
    ensures
        stores(before, after, scope, name, plaintext) && !reserved(name) ==> locked_by(
            after,
            passphrase,
        ),
        (forall|i: int| 0 <= i < names.len() ==> !reserved(#[trigger] names[i])) ==> locked_by(
            before.without_records(names),
            passphrase,
        ),
{
    if forall|i: int| 0 <= i < names.len() ==> !reserved(#[trigger] names[i]) {
        let kept = before.without_records(names).records;
        assert forall|n: Seq<u8>| reserved(n) implies lookup(kept, n) == lookup(before.records, n) by {
            if names.contains(n) {
                let i = choose|i: int| 0 <= i < names.len() && names[i] == n;
                assert(!reserved(names[i]));
            }
        }
        assert(reserved(salt_name()) && reserved(kdf_check_name()) && reserved(identity_dek_name())
            && reserved(contacts_dek_name()) && reserved(content_dek_name()));
    }
}

/// A store opens again with its passphrase, whatever else its table holds, and reads what it
/// read before.
pub proof fn law_reopening_reads_the_same(
    db: DbView,
    passphrase: Seq<char>,
    scope: Scope,
    name: Seq<u8>,
)
    requires
        locked_by(db, passphrase),
    ensures
        open_outcome(db.records, passphrase) is Ok,
        (open_outcome(db.records, passphrase)->Ok_0).read(scope, name) == db.read(scope, name),
        (open_outcome(db.records, passphrase)->Ok_0).records == db.records,
{
}

// Names.

/// Hexadecimal text names one byte string only.
pub proof fn lemma_hex_injective(a: Seq<u8>, b: Seq<u8>)
    requires
        encode_utf8(hex(a)) == encode_utf8(hex(b)),
    ensures
        a == b,
{
    law_decode_undoes_encode(a);
    law_decode_undoes_encode(b);
}

proof fn lemma_behind_prefix(prefix: Seq<u8>, a: Seq<u8>, b: Seq<u8>)
    requires
        prefix + a == prefix + b,
    ensures
        a == b,
{
    assert((prefix + a).skip(prefix.len() as int) =~= a);
    assert((prefix + b).skip(prefix.len() as int) =~= b);
}

/// Different contacts, sessions and messages are stored under different names.
pub proof fn law_names_are_distinct(a: Seq<u8>, b: Seq<u8>, conversation_id: Seq<u8>)
    ensures
        contact_name(a) == contact_name(b) <==> a == b,
        ratchet_name(a) == ratchet_name(b) <==> a == b,
        message_name(conversation_id, a) == message_name(conversation_id, b) <==> a == b,
{
    if contact_name(a) == contact_name(b) {
        lemma_behind_prefix(contact_prefix(), encode_utf8(hex(a)), encode_utf8(hex(b)));
        lemma_hex_injective(a, b);
    }
    if ratchet_name(a) == ratchet_name(b) {
        lemma_behind_prefix(ratchet_prefix(), encode_utf8(hex(a)), encode_utf8(hex(b)));
        lemma_hex_injective(a, b);
    }
    if message_name(conversation_id, a) == message_name(conversation_id, b) {
        lemma_behind_prefix(
            conversation_prefix(conversation_id),
            encode_utf8(hex(a)),
            encode_utf8(hex(b)),
        );
        lemma_hex_injective(a, b);
    }
}

/// The messages of a conversation are those whose names start with its prefix, and no other
/// conversation's do.
pub proof fn law_conversations_are_separate(one: Seq<u8>, other: Seq<u8>, message_id: Seq<u8>)
    requires
        one.len() == other.len(),
    ensures
        conversation_prefix(one).is_prefix_of(message_name(other, message_id)) <==> one == other,
{
    let prefix = conversation_prefix(one);
    let name = message_name(other, message_id);
    lemma_hex_bytes(one);
    lemma_hex_bytes(other);
    let n = message_prefix().len() as int;
    let h = encode_utf8(hex(one)).len() as int;
    if prefix.is_prefix_of(name) {
        let start = name.subrange(0, prefix.len() as int);
        assert(prefix.subrange(n, n + h) =~= encode_utf8(hex(one)));
        assert(start.subrange(n, n + h) =~= encode_utf8(hex(other)));
        lemma_hex_injective(one, other);
    }
    if one == other {
        assert(name.subrange(0, prefix.len() as int) =~= prefix);
    }
}

// Messages.

proof fn lemma_readable_contains(db: DbView, names: Seq<Seq<u8>>, i: int, m: MessageView)
    requires
        0 <= i < names.len(),
        readable_message(db, names[i]) == Some(m),
    ensures
        readable_messages(db, names).contains(m),
    decreases names.len(),
{
    let list = readable_messages(db, names);
    if i == names.len() - 1 {
        assert(list[list.len() - 1] == m);
    } else {
        lemma_readable_contains(db, names.drop_last(), i, m);
        let rest = readable_messages(db, names.drop_last());
        let j = choose|j: int| 0 <= j < rest.len() && rest[j] == m;
        assert(list[j] == m);
    }
}

/// A conversation lists every message of it that can be read: what was saved, and everything
/// that was there before under another name.
pub proof fn law_saved_messages_are_listed(
    before: DbView,
    after: DbView,
    conversation_id: Seq<u8>,
    saved: MessageView,
    other_id: Seq<u8>,
    other: MessageView,
)
    requires
        stores_message(before, after, conversation_id, saved),
        before.records.dom().finite(),
    ensures
        conversation(after, conversation_id).contains(saved),
        other_id != saved.id && readable_message(before, message_name(conversation_id, other_id))
            == Some(other) ==> conversation(after, conversation_id).contains(other),
{
    law_conversations_are_separate(conversation_id, conversation_id, saved.id);
    law_conversations_are_separate(conversation_id, conversation_id, other_id);
    law_names_are_distinct(other_id, saved.id, conversation_id);
    let name = message_name(conversation_id, saved.id);
    lemma_named_message_is_listed(after, conversation_id, name, saved);
    let other_name = message_name(conversation_id, other_id);
    if other_id != saved.id && readable_message(before, other_name) == Some(other) {
        assert(readable_message(after, other_name) == Some(other));
        lemma_named_message_is_listed(after, conversation_id, other_name, other);
    }
}

proof fn lemma_named_message_is_listed(
    db: DbView,
    conversation_id: Seq<u8>,
    name: Seq<u8>,
    m: MessageView,
)
    requires
        db.records.dom().finite(),
        conversation_prefix(conversation_id).is_prefix_of(name),
        readable_message(db, name) == Some(m),
    ensures
        conversation(db, conversation_id).contains(m),
{
    broadcast use vstd::seq_lib::group_to_multiset_ensures;

    let prefix = conversation_prefix(conversation_id);
    let set = db.records.dom().filter(|n: Seq<u8>| prefix.is_prefix_of(n));
    lemma_in_order_of_finite(set);
    let names = listing(db.records, prefix);
    assert(set.contains(name));
    assert(names.contains(name));
    let i = choose|i: int| 0 <= i < names.len() && names[i] == name;
    lemma_readable_contains(db, names, i, m);
    let list = readable_messages(db, names);
    law_listing_is_in_order(list);
    assert(list.to_multiset().contains(m));
    assert(conversation(db, conversation_id).to_multiset().contains(m));
}

/// An acknowledgement is final: it does not apply a second time, and the message is not doubted
/// again. Doubting a message twice is the same as once.
pub proof fn law_acknowledgement_is_final(m: MessageView)
    ensures
        !awaits_ack(acknowledged(m)),
        !becomes_uncertain(acknowledged(m)),
        !becomes_uncertain(doubted(m)),
        acknowledged(acknowledged(m)) == acknowledged(m),
{
}

/// Whether every readable message of a conversation is stored under its own id, as
/// `Db::save_message` does it.
pub open spec fn filed_by_id(db: DbView, conversation_id: Seq<u8>) -> bool {
    forall|name: Seq<u8>|
        conversation_prefix(conversation_id).is_prefix_of(name) ==> (#[trigger] readable_message(
            db,
            name,
        ) matches Some(m) ==> name == message_name(conversation_id, m.id))
}

/// Saving a message, in this conversation or another, leaves the messages filed by their ids.
pub proof fn law_messages_stay_filed(
    before: DbView,
    after: DbView,
    conversation_id: Seq<u8>,
    other: Seq<u8>,
    m: MessageView,
)
    requires
        filed_by_id(before, conversation_id),
        stores_message(before, after, other, m),
        conversation_id.len() == other.len(),
    ensures
        filed_by_id(after, conversation_id),
{
    law_conversations_are_separate(conversation_id, other, m.id);
    let stored = message_name(other, m.id);
    assert forall|name: Seq<u8>|
        conversation_prefix(conversation_id).is_prefix_of(name) implies (
    #[trigger] readable_message(after, name) matches Some(found) ==> name == message_name(
        conversation_id,
        found.id,
    )) by {
        if name == stored {
            assert(readable_message(after, name) == Some(m));
        } else {
            assert(readable_message(after, name) == readable_message(before, name));
        }
    }
}

/// Whether one of the messages is stored under the name.
spec fn among(list: Seq<MessageView>, conversation_id: Seq<u8>, name: Seq<u8>, m: MessageView) -> bool {
    list.contains(m) && name == message_name(conversation_id, m.id)
}

proof fn lemma_stored_messages_read(
    before: DbView,
    after: DbView,
    conversation_id: Seq<u8>,
    list: Seq<MessageView>,
    name: Seq<u8>,
)
    requires
        stores_messages(before, after, conversation_id, list),
        before.records.dom().finite(),
    ensures
        after.records.dom().finite(),
        (exists|m: MessageView| among(list, conversation_id, name, m)) ==> exists|m: MessageView|
            among(list, conversation_id, name, m) && readable_message(after, name) == Some(m),
        !(exists|m: MessageView| among(list, conversation_id, name, m)) ==> readable_message(
            after,
            name,
        ) == readable_message(before, name),
    decreases list.len(),
{
    if list.len() > 0 {
        let between = choose|between: DbView|
            stores_messages(before, between, conversation_id, list.drop_last())
                && #[trigger] stores_message(between, after, conversation_id, list.last());
        let shorter = list.drop_last();
        let last = list.last();
        lemma_stored_messages_read(before, between, conversation_id, shorter, name);
        assert(list[list.len() - 1] == last);
        assert(list.contains(last));
        assert forall|m: MessageView| shorter.contains(m) implies list.contains(m) by {
            let i = choose|i: int| 0 <= i < shorter.len() && shorter[i] == m;
            assert(list[i] == m);
        }
        assert forall|m: MessageView| list.contains(m) && m != last implies shorter.contains(m) by {
            let i = choose|i: int| 0 <= i < list.len() && list[i] == m;
            assert(shorter[i] == m);
        }
        if name == message_name(conversation_id, last.id) {
            assert(readable_message(after, name) == Some(last));
            assert(among(list, conversation_id, name, last));
        } else {
            assert(readable_message(after, name) == readable_message(between, name));
            if exists|m: MessageView| among(list, conversation_id, name, m) {
                let m = choose|m: MessageView| among(list, conversation_id, name, m);
                assert(among(shorter, conversation_id, name, m));
                let found = choose|m: MessageView|
                    among(shorter, conversation_id, name, m) && readable_message(between, name)
                        == Some(m);
                assert(among(list, conversation_id, name, found));
            } else {
                assert forall|m: MessageView| !among(shorter, conversation_id, name, m) by {
                    assert(among(shorter, conversation_id, name, m) ==> among(
                        list,
                        conversation_id,
                        name,
                        m,
                    ));
                }
            }
        }
    }
}

proof fn lemma_listed_is_readable(db: DbView, names: Seq<Seq<u8>>, m: MessageView) -> (i: int)
    requires
        readable_messages(db, names).contains(m),
    ensures
        0 <= i < names.len(),
        readable_message(db, names[i]) == Some(m),
    decreases names.len(),
{
    let list = readable_messages(db, names);
    let j = choose|j: int| 0 <= j < list.len() && list[j] == m;
    if readable_message(db, names.last()) is Some && j == list.len() - 1 {
        names.len() - 1
    } else {
        let rest = readable_messages(db, names.drop_last());
        assert(rest[j] == m);
        lemma_listed_is_readable(db, names.drop_last(), m)
    }
}

/// A message of a conversation is stored under a name of it.
proof fn lemma_conversation_is_stored(db: DbView, conversation_id: Seq<u8>, m: MessageView) -> (name: Seq<
    u8,
>)
    requires
        db.records.dom().finite(),
        conversation(db, conversation_id).contains(m),
    ensures
        conversation_prefix(conversation_id).is_prefix_of(name),
        readable_message(db, name) == Some(m),
{
    broadcast use vstd::seq_lib::group_to_multiset_ensures;

    let prefix = conversation_prefix(conversation_id);
    let set = db.records.dom().filter(|n: Seq<u8>| prefix.is_prefix_of(n));
    lemma_in_order_of_finite(set);
    let names = listing(db.records, prefix);
    let list = readable_messages(db, names);
    law_listing_is_in_order(list);
    assert(conversation(db, conversation_id).to_multiset().contains(m));
    assert(list.to_multiset().contains(m));
    assert(list.contains(m));
    let i = lemma_listed_is_readable(db, names, m);
    assert(names.contains(names[i]));
    assert(set.contains(names[i]));
    names[i]
}

proof fn lemma_marked_contains(
    list: Seq<MessageView>,
    due: spec_fn(MessageView) -> bool,
    mark: spec_fn(MessageView) -> MessageView,
    m: MessageView,
)
    requires
        list.contains(m),
        due(m),
    ensures
        list.filter(due).map_values(mark).contains(mark(m)),
    decreases list.len(),
{
    reveal(Seq::filter);
    let shorter = list.drop_last();
    let all = list.filter(due).map_values(mark);
    let i = choose|i: int| 0 <= i < list.len() && list[i] == m;
    if i < shorter.len() {
        assert(shorter[i] == m);
        lemma_marked_contains(shorter, due, mark, m);
        let rest = shorter.filter(due).map_values(mark);
        let j = choose|j: int| 0 <= j < rest.len() && rest[j] == mark(m);
        assert(all[j] == mark(m));
    } else {
        assert(all[all.len() - 1] == mark(m));
    }
}

proof fn lemma_marked_from_list(
    list: Seq<MessageView>,
    due: spec_fn(MessageView) -> bool,
    mark: spec_fn(MessageView) -> MessageView,
    marked: MessageView,
) -> (m: MessageView)
    requires
        list.filter(due).map_values(mark).contains(marked),
    ensures
        list.contains(m),
        due(m),
        marked == mark(m),
    decreases list.len(),
{
    reveal(Seq::filter);
    let shorter = list.drop_last();
    let all = list.filter(due).map_values(mark);
    let j = choose|j: int| 0 <= j < all.len() && all[j] == marked;
    if list.len() == 0 {
        list[0]
    } else if due(list.last()) && j == all.len() - 1 {
        assert(list[list.len() - 1] == list.last());
        list.last()
    } else {
        let rest = shorter.filter(due).map_values(mark);
        assert(rest[j] == marked);
        let m = lemma_marked_from_list(shorter, due, mark, marked);
        let i = choose|i: int| 0 <= i < shorter.len() && shorter[i] == m;
        assert(list[i] == m);
        m
    }
}

/// Marking the messages of a conversation that are due changes exactly those, exactly as the
/// mark says: every other one reads as before.
pub proof fn law_marking_changes_what_is_due(
    before: DbView,
    after: DbView,
    conversation_id: Seq<u8>,
    due: spec_fn(MessageView) -> bool,
    mark: spec_fn(MessageView) -> MessageView,
    name: Seq<u8>,
)
    requires
        before.records.dom().finite(),
        filed_by_id(before, conversation_id),
        forall|m: MessageView| (#[trigger] mark(m)).id == m.id,
        stores_messages(
            before,
            after,
            conversation_id,
            conversation(before, conversation_id).filter(due).map_values(mark),
        ),
        conversation_prefix(conversation_id).is_prefix_of(name),
    ensures
        after.records.dom().finite(),
        readable_message(after, name) == match readable_message(before, name) {
            Some(m) => if due(m) {
                Some(mark(m))
            } else {
                Some(m)
            },
            None => None,
        },
{
    let list = conversation(before, conversation_id).filter(due).map_values(mark);
    lemma_stored_messages_read(before, after, conversation_id, list, name);
    assert forall|x: MessageView| #[trigger] among(list, conversation_id, name, x) implies (
    readable_message(before, name) matches Some(m) && due(m) && x == mark(m)) by {
        let m = lemma_marked_from_list(conversation(before, conversation_id), due, mark, x);
        let found = lemma_conversation_is_stored(before, conversation_id, m);
        assert(mark(m).id == m.id);
        assert(found == message_name(conversation_id, m.id));
    }
    match readable_message(before, name) {
        Some(m) => {
            if due(m) {
                lemma_named_message_is_listed(before, conversation_id, name, m);
                lemma_marked_contains(conversation(before, conversation_id), due, mark, m);
                assert(mark(m).id == m.id);
                assert(name == message_name(conversation_id, m.id));
                assert(among(list, conversation_id, name, mark(m)));
            }
        },
        None => {},
    }
}

/// After the messages that were due are marked, none is due, where the mark settles it: marking
/// again marks nothing.
pub proof fn law_marking_again_marks_nothing(
    before: DbView,
    after: DbView,
    conversation_id: Seq<u8>,
    due: spec_fn(MessageView) -> bool,
    mark: spec_fn(MessageView) -> MessageView,
)
    requires
        before.records.dom().finite(),
        filed_by_id(before, conversation_id),
        forall|m: MessageView| (#[trigger] mark(m)).id == m.id && !due(mark(m)),
        stores_messages(
            before,
            after,
            conversation_id,
            conversation(before, conversation_id).filter(due).map_values(mark),
        ),
    ensures
        conversation(after, conversation_id).filter(due).map_values(mark).len() == 0,
        filed_by_id(after, conversation_id),
{
    assert forall|name: Seq<u8>|
        conversation_prefix(conversation_id).is_prefix_of(name) implies (
    #[trigger] readable_message(after, name) matches Some(m) ==> !due(m) && name == message_name(
        conversation_id,
        m.id,
    )) by {
        law_marking_changes_what_is_due(before, after, conversation_id, due, mark, name);
        assert(readable_message(before, name) is Some ==> readable_message(before, name)
            == Some(readable_message(before, name)->0));
    }
    let again = conversation(after, conversation_id).filter(due).map_values(mark);
    if again.len() > 0 {
        law_marking_changes_what_is_due(
            before,
            after,
            conversation_id,
            due,
            mark,
            conversation_prefix(conversation_id),
        );
        assert(again.contains(again[0]));
        let m = lemma_marked_from_list(
            conversation(after, conversation_id),
            due,
            mark,
            again[0],
        );
        let name = lemma_conversation_is_stored(after, conversation_id, m);
    }
}

/// A second `mark_undelivered_uncertain` right after the first marks nothing, counts nothing
/// and changes nothing.
pub proof fn law_doubting_again_changes_nothing(
    before: DbView,
    after: DbView,
    again: DbView,
    conversation_id: Seq<u8>,
)
    requires
        before.records.dom().finite(),
        filed_by_id(before, conversation_id),
        stores_messages(before, after, conversation_id, newly_uncertain(before, conversation_id)),
        stores_messages(after, again, conversation_id, newly_uncertain(after, conversation_id)),
    ensures
        newly_uncertain(after, conversation_id).len() == 0,
        again == after,
{
    law_marking_again_marks_nothing(
        before,
        after,
        conversation_id,
        |m: MessageView| becomes_uncertain(m),
        |m: MessageView| doubted(m),
    );
}

/// A second `mark_messages_delivered_up_to` with the same acknowledgement marks nothing and
/// changes nothing.
pub proof fn law_acknowledging_again_changes_nothing(
    before: DbView,
    after: DbView,
    again: DbView,
    conversation_id: Seq<u8>,
    chain: Seq<u8>,
    n: u32,
)
    requires
        before.records.dom().finite(),
        filed_by_id(before, conversation_id),
        stores_messages(
            before,
            after,
            conversation_id,
            newly_delivered(before, conversation_id, chain, n),
        ),
        stores_messages(
            after,
            again,
            conversation_id,
            newly_delivered(after, conversation_id, chain, n),
        ),
    ensures
        newly_delivered(after, conversation_id, chain, n).len() == 0,
        again == after,
{
    law_marking_again_marks_nothing(
        before,
        after,
        conversation_id,
        |m: MessageView| covered_by(m, chain, n),
        |m: MessageView| acknowledged(m),
    );
}

/// Where an acknowledgement is for one message only, a second `mark_message_delivered` with it
/// finds nothing to mark.
pub proof fn law_a_repeated_acknowledgement_finds_nothing(
    before: DbView,
    after: DbView,
    conversation_id: Seq<u8>,
    chain: Seq<u8>,
    n: u32,
    i: int,
    x: MessageView,
)
    requires
        before.records.dom().finite(),
        filed_by_id(before, conversation_id),
        first_acked(conversation(before, conversation_id), chain, n, i),
        forall|j: int|
            0 <= j < conversation(before, conversation_id).len() && j != i ==> !acked_by(
                #[trigger] conversation(before, conversation_id)[j],
                chain,
                n,
            ),
        stores_message(
            before,
            after,
            conversation_id,
            acknowledged(conversation(before, conversation_id)[i]),
        ),
        conversation(after, conversation_id).contains(x),
    ensures
        !acked_by(x, chain, n),
{
    let list = conversation(before, conversation_id);
    let m = list[i];
    assert(list.contains(m));
    let marked_name = message_name(conversation_id, m.id);
    let name = lemma_conversation_is_stored(after, conversation_id, x);
    assert(readable_message(after, marked_name) == Some(acknowledged(m)));
    if name != marked_name && acked_by(x, chain, n) {
        assert(readable_message(before, name) == Some(x));
        lemma_named_message_is_listed(before, conversation_id, name, x);
        let j = choose|j: int| 0 <= j < list.len() && list[j] == x;
        assert(acked_by(list[j], chain, n));
        assert(j == i);
    }
}

// Wiping.

/// A name that a quick wipe takes out.
pub open spec fn is_content_name(name: Seq<u8>) -> bool {
    message_prefix().is_prefix_of(name) || ratchet_prefix().is_prefix_of(name)
}

proof fn lemma_wiped_names(records: Records, name: Seq<u8>)
    requires
        records.dom().finite(),
    ensures
        wiped_names(records).to_set().contains(name) <==> records.dom().contains(name)
            && is_content_name(name),
{
    let messages = records.dom().filter(|n: Seq<u8>| message_prefix().is_prefix_of(n));
    let sessions = records.dom().filter(|n: Seq<u8>| ratchet_prefix().is_prefix_of(n));
    lemma_in_order_of_finite(messages);
    lemma_in_order_of_finite(sessions);
    let a = listing(records, message_prefix());
    let b = listing(records, ratchet_prefix());
    let all = a + b;
    if all.contains(name) {
        let i = choose|i: int| 0 <= i < all.len() && all[i] == name;
        if i < a.len() {
            assert(a[i] == name);
            assert(a.contains(name));
        } else {
            assert(b[i - a.len()] == name);
            assert(b.contains(name));
        }
    }
    if messages.contains(name) {
        assert(a.contains(name));
        let i = choose|i: int| 0 <= i < a.len() && a[i] == name;
        assert(all[i] == name);
    }
    if sessions.contains(name) {
        assert(b.contains(name));
        let i = choose|i: int| 0 <= i < b.len() && b[i] == name;
        assert(all[a.len() + i] == name);
    }
}

proof fn lemma_reserved_is_no_content(name: Seq<u8>)
    requires
        reserved(name),
    ensures
        !is_content_name(name),
{
    lemma_reserved_names();
    lemma_content_prefixes();
    if is_content_name(name) {
        assert(name.subrange(0, 8)[0] == name[0]);
    }
}

/// A quick wipe leaves no message and no session, and everything else as it was: account,
/// profile and contacts read the same, and the passphrase still unlocks the store.
pub proof fn law_quick_wipe_takes_content_only(
    before: DbView,
    after: DbView,
    passphrase: Seq<char>,
    scope: Scope,
    name: Seq<u8>,
)
    requires
        quick_wiped(before, after),
        before.records.dom().finite(),
    ensures
        is_content_name(name) ==> !after.records.dom().contains(name),
        !is_content_name(name) && name != content_dek_name() && scope != Scope::Content
            ==> after.read(scope, name) == before.read(scope, name),
        locked_by(before, passphrase) ==> locked_by(after, passphrase),
{
    let wrapped = after.records[content_dek_name()];
    lemma_wiped_names(before.records, name);
    lemma_wiped_names(before.records, salt_name());
    lemma_wiped_names(before.records, kdf_check_name());
    lemma_wiped_names(before.records, identity_dek_name());
    lemma_wiped_names(before.records, contacts_dek_name());
    lemma_wiped_names(before.records, content_dek_name());
    lemma_reserved_is_no_content(salt_name());
    lemma_reserved_is_no_content(kdf_check_name());
    lemma_reserved_is_no_content(identity_dek_name());
    lemma_reserved_is_no_content(contacts_dek_name());
    lemma_reserved_is_no_content(content_dek_name());
    lemma_reserved_names();
    let names = wiped_names(before.records);
    assert(names.to_set().contains(name) <==> names.contains(name));
    assert(lookup(after.records, salt_name()) == lookup(before.records, salt_name()));
    assert(lookup(after.records, kdf_check_name()) == lookup(before.records, kdf_check_name()));
    assert(lookup(after.records, identity_dek_name()) == lookup(
        before.records,
        identity_dek_name(),
    ));
    assert(lookup(after.records, contacts_dek_name()) == lookup(
        before.records,
        contacts_dek_name(),
    ));
    assert(lookup(after.records, content_dek_name()) == Some(wrapped));
    assert(unwrapped_key(after.records, before.master_key, content_dek_name())
        == std::result::Result::<Seq<u8>, ErrorView>::Ok(after.content_key));
}

/// A quick wipe may be cut short at any moment: either nothing has happened yet, or the key that
/// the table holds for messages and sessions is already the one that the store goes on with.
pub proof fn law_quick_wipe_rotates_the_key_first(before: DbView, after: DbView, k: int)
    requires
        quick_wiped(before, after),
        before.records.dom().finite(),
        0 <= k <= after.changes.len() - before.changes.len(),
    ensures
        after.changes.len() == before.changes.len() + 2,
        after.changes.take(before.changes.len() as int) == before.changes,
        ({
            let table = replayed(
                before.records,
                after.changes.skip(before.changes.len() as int).take(k),
            );
            if k == 0 {
                table == before.records
            } else {
                unwrapped_key(table, before.master_key, content_dek_name()) == std::result::Result::<
                    Seq<u8>,
                    ErrorView,
                >::Ok(after.content_key)
            }
        }),
        replayed(before.records, after.changes.skip(before.changes.len() as int)) == after.records,
{
    let wrapped = after.records[content_dek_name()];
    let names = wiped_names(before.records);
    let put = ChangeView::Put { name: content_dek_name(), value: wrapped };
    let remove = ChangeView::Remove { names };
    let new = after.changes.skip(before.changes.len() as int);
    assert(after.changes =~= before.changes.push(put).push(remove));
    assert(new =~= seq![put, remove]);
    assert(after.changes.take(before.changes.len() as int) =~= before.changes);
    assert(new.take(0) =~= Seq::<ChangeView>::empty());
    assert(new.take(1) =~= seq![put]);
    assert(new.take(2) =~= new);
    assert(seq![put].drop_last() =~= Seq::<ChangeView>::empty());
    assert(new.drop_last() =~= seq![put]);
    assert(replayed(before.records, Seq::<ChangeView>::empty()) == before.records);
    let rotated = before.records.insert(content_dek_name(), wrapped);
    assert(replayed(before.records, seq![put]) == rotated);
    assert(replayed(before.records, new) == rotated.remove_keys(names.to_set()));
    lemma_wiped_names(before.records, content_dek_name());
    lemma_reserved_is_no_content(content_dek_name());
}

/// Where the key that a quick wipe goes on with is another than before, the table holds the old
/// one no more from the first change on: its record is another, and unwraps to another key.
pub proof fn law_quick_wipe_destroys_the_old_key(before: DbView, after: DbView, k: int)
    requires
        quick_wiped(before, after),
        before.records.dom().finite(),
        after.content_key != before.content_key,
        1 <= k <= 2,
    ensures
        ({
            let table = replayed(
                before.records,
                after.changes.skip(before.changes.len() as int).take(k),
            );
            &&& unwrapped_key(table, before.master_key, content_dek_name())
                != std::result::Result::<Seq<u8>, ErrorView>::Ok(before.content_key)
            &&& unwrapped_key(before.records, before.master_key, content_dek_name())
                == std::result::Result::<Seq<u8>, ErrorView>::Ok(before.content_key) ==> lookup(
                table,
                content_dek_name(),
            ) != lookup(before.records, content_dek_name())
        }),
{
    law_quick_wipe_rotates_the_key_first(before, after, k);
}

/// What a quick wipe does not replace stays byte for byte: every record but the wrapped content
/// key, the messages and the sessions, the other two wrapped keys among them.
pub proof fn law_quick_wipe_keeps_other_records(before: DbView, after: DbView, name: Seq<u8>)
    requires
        quick_wiped(before, after),
        before.records.dom().finite(),
    ensures
        !is_content_name(name) && name != content_dek_name() ==> lookup(after.records, name)
            == lookup(before.records, name),
        lookup(after.records, identity_dek_name()) == lookup(before.records, identity_dek_name()),
        lookup(after.records, contacts_dek_name()) == lookup(before.records, contacts_dek_name()),
{
    lemma_wiped_names(before.records, name);
    lemma_wiped_names(before.records, identity_dek_name());
    lemma_wiped_names(before.records, contacts_dek_name());
    lemma_reserved_is_no_content(identity_dek_name());
    lemma_reserved_is_no_content(contacts_dek_name());
    lemma_reserved_names();
}

/// At every stage of a quick wipe the store opens with its passphrase, and reads the account,
/// the profile and the contacts as before; from the first change on it works with the new
/// content key.
pub proof fn law_quick_wipe_can_be_cut_short(
    before: DbView,
    after: DbView,
    passphrase: Seq<char>,
    k: int,
    scope: Scope,
    name: Seq<u8>,
)
    requires
        quick_wiped(before, after),
        before.records.dom().finite(),
        locked_by(before, passphrase),
        0 <= k <= 2,
    ensures
        ({
            let table = replayed(
                before.records,
                after.changes.skip(before.changes.len() as int).take(k),
            );
            open_outcome(table, passphrase) matches Ok(db) && {
                &&& db.content_key == if k == 0 {
                    before.content_key
                } else {
                    after.content_key
                }
                &&& scope != Scope::Content && !is_content_name(name) && name
                    != content_dek_name() ==> db.read(scope, name) == before.read(scope, name)
            }
        }),
{
    law_quick_wipe_rotates_the_key_first(before, after, k);
    law_quick_wipe_takes_content_only(before, after, passphrase, scope, name);
    lemma_reserved_names();
    let new = after.changes.skip(before.changes.len() as int);
    let table = replayed(before.records, new.take(k));
    if k == 1 {
        let put = new[0];
        assert(new.take(1) =~= seq![put]);
        assert(seq![put].drop_last() =~= Seq::<ChangeView>::empty());
        assert(replayed(before.records, Seq::<ChangeView>::empty()) == before.records);
        assert(replayed(before.records, seq![put]) == changed(before.records, put));
    } else if k == 2 {
        assert(new.take(2) =~= new);
    }
}

/// What a full wipe leaves cannot be opened, whatever the passphrase.
pub proof fn law_full_wipe_leaves_nothing_to_open(passphrase: Seq<char>)
    ensures
        open_outcome(Map::<Seq<u8>, Seq<u8>>::empty(), passphrase) == std::result::Result::<
            DbView,
            ErrorView,
        >::Err(ErrorView::MalformedRecord("missing salt — not a dratchet-store database")),
{
}

proof fn lemma_without_each(db: DbView, names: Seq<Seq<u8>>, name: Seq<u8>)
    ensures
        lookup(db.without_each(names).records, name) == if names.contains(name) {
            None
        } else {
            lookup(db.records, name)
        },
        db.without_each(names).identity_key == db.identity_key,
        db.without_each(names).contacts_key == db.contacts_key,
        db.without_each(names).content_key == db.content_key,
    decreases names.len(),
{
    if names.len() > 0 {
        let shorter = names.drop_last();
        lemma_without_each(db, shorter, name);
        assert(seq![names.last()].contains(name) <==> name == names.last()) by {
            assert(seq![names.last()][0] == names.last());
        }
        if names.contains(name) {
            let i = choose|i: int| 0 <= i < names.len() && names[i] == name;
            if i < shorter.len() {
                assert(shorter[i] == name);
            }
        }
        if shorter.contains(name) {
            let i = choose|i: int| 0 <= i < shorter.len() && shorter[i] == name;
            assert(names[i] == name);
        }
        assert(names[names.len() - 1] == names.last());
    }
}

/// Wiping a conversation takes out its messages and, if asked, its session. Whatever else is
/// stored reads the same: other conversations, contacts and the account.
pub proof fn law_wiping_a_conversation_spares_the_rest(
    before: DbView,
    conversation_id: Seq<u8>,
    include_session: bool,
    scope: Scope,
    name: Seq<u8>,
)
    requires
        before.records.dom().finite(),
    ensures
        ({
            let after = wiped(before, conversation_id, include_session).0;
            &&& conversation_prefix(conversation_id).is_prefix_of(name)
                ==> !after.records.dom().contains(name)
            &&& include_session && wiped(before, conversation_id, include_session).1 is Ok
                ==> !after.records.dom().contains(ratchet_name(conversation_id))
            &&& !conversation_prefix(conversation_id).is_prefix_of(name) && !(include_session && name
                == ratchet_name(conversation_id)) ==> after.read(scope, name) == before.read(
                scope,
                name,
            )
        }),
{
    let prefix = conversation_prefix(conversation_id);
    let session = ratchet_name(conversation_id);
    let set = before.records.dom().filter(|n: Seq<u8>| prefix.is_prefix_of(n));
    lemma_in_order_of_finite(set);
    let names = listing(before.records, prefix);
    assert(names.contains(name) <==> set.contains(name));
    assert(names.contains(session) <==> set.contains(session));
    lemma_without_each(before, names, name);
    lemma_without_each(before, names, session);
    assert(seq![session].contains(name) <==> name == session) by {
        assert(seq![session][0] == session);
    }
    assert(seq![session].contains(session)) by {
        assert(seq![session][0] == session);
    }
}

// Contacts.

/// Whether every readable contact is stored under its own fingerprint.
pub open spec fn filed_by_fingerprint(db: DbView) -> bool {
    forall|name: Seq<u8>|
        contact_prefix().is_prefix_of(name) ==> (#[trigger] readable_contact(db, name) matches Some(
            c,
        ) ==> name == contact_name(c.fingerprint))
}

/// Whether no two contacts go by the same handle.
pub open spec fn handles_unique(db: DbView) -> bool {
    forall|one: Seq<u8>, other: Seq<u8>, username: Seq<char>, discriminator: u16|
        #![trigger contact_has(db, one, username, discriminator), contact_has(
            db,
            other,
            username,
            discriminator,
        )]
        contact_has(db, one, username, discriminator) && contact_has(
            db,
            other,
            username,
            discriminator,
        ) ==> one == other
}

/// Whether the contact under a name goes by the handle.
pub open spec fn contact_has(db: DbView, name: Seq<u8>, username: Seq<char>, discriminator: u16) -> bool {
    contact_prefix().is_prefix_of(name) && (readable_contact(db, name) matches Some(c) && goes_by(
        c,
        username,
        discriminator,
    ))
}

proof fn lemma_readable_contact_is_listed(db: DbView, names: Seq<Seq<u8>>, i: int, c: ContactView)
    requires
        0 <= i < names.len(),
        readable_contact(db, names[i]) == Some(c),
    ensures
        readable_contacts(db, names).contains(c),
    decreases names.len(),
{
    let list = readable_contacts(db, names);
    if i == names.len() - 1 {
        assert(list[list.len() - 1] == c);
    } else {
        lemma_readable_contact_is_listed(db, names.drop_last(), i, c);
        let rest = readable_contacts(db, names.drop_last());
        let j = choose|j: int| 0 <= j < rest.len() && rest[j] == c;
        assert(list[j] == c);
    }
}

/// No announcement makes two contacts go by the same handle.
pub proof fn law_handles_stay_unique(
    before: DbView,
    after: DbView,
    fingerprint: Seq<u8>,
    username: Seq<char>,
    discriminator: u16,
    result: std::result::Result<(ContactView, bool), ErrorView>,
)
    requires
        before.records.dom().finite(),
        filed_by_fingerprint(before),
        handles_unique(before),
        profile_outcome(before, after, fingerprint, username, discriminator, result),
    ensures
        handles_unique(after),
        filed_by_fingerprint(after),
{
    if after != before {
        let c = stored_contact(before, fingerprint)->Ok_0->0;
        let updated = super::profile::renamed(c, username, discriminator);
        let name = contact_name(c.fingerprint);
        assert(stores_contact(before, after, updated));
        lemma_stored_contact_reads(before, after, updated);
        assert forall|rival: Seq<u8>| rival != name implies !#[trigger] contact_has(
            before,
            rival,
            username,
            discriminator,
        ) by {
            lemma_no_rival(before, rival, c.fingerprint, username, discriminator);
        }
        lemma_unique_after(before, after, name, updated, username, discriminator);
    }
}

proof fn lemma_stored_contact_reads(before: DbView, after: DbView, c: ContactView)
    requires
        stores_contact(before, after, c),
    ensures
        readable_contact(after, contact_name(c.fingerprint)) == Some(c),
        forall|n: Seq<u8>|
            n != contact_name(c.fingerprint) ==> #[trigger] readable_contact(after, n)
                == readable_contact(before, n),
{
}

proof fn lemma_unique_after(
    before: DbView,
    after: DbView,
    name: Seq<u8>,
    updated: ContactView,
    username: Seq<char>,
    discriminator: u16,
)
    requires
        handles_unique(before),
        filed_by_fingerprint(before),
        name == contact_name(updated.fingerprint),
        goes_by(updated, username, discriminator),
        readable_contact(after, name) == Some(updated),
        forall|n: Seq<u8>|
            n != name ==> #[trigger] readable_contact(after, n) == readable_contact(before, n),
        forall|rival: Seq<u8>|
            rival != name ==> !#[trigger] contact_has(before, rival, username, discriminator),
    ensures
        handles_unique(after),
        filed_by_fingerprint(after),
{
    assert forall|one: Seq<u8>, other: Seq<u8>, u: Seq<char>, d: u16|
        #![trigger contact_has(after, one, u, d), contact_has(after, other, u, d)]
        contact_has(after, one, u, d) && contact_has(after, other, u, d) implies one == other by {
        if one != other {
            assert(one != name ==> contact_has(before, one, u, d));
            assert(other != name ==> contact_has(before, other, u, d));
            if one == name || other == name {
                assert(u == username && d == discriminator);
            }
        }
    }
}

proof fn lemma_no_rival(
    db: DbView,
    rival: Seq<u8>,
    fingerprint: Seq<u8>,
    username: Seq<char>,
    discriminator: u16,
)
    requires
        db.records.dom().finite(),
        filed_by_fingerprint(db),
        rival != contact_name(fingerprint),
        !super::profile::claimed_by_another(
            contact_list(db),
            fingerprint,
            username,
            discriminator,
        ),
    ensures
        !contact_has(db, rival, username, discriminator),
{
    if contact_has(db, rival, username, discriminator) {
        let prefix = contact_prefix();
        let set = db.records.dom().filter(|n: Seq<u8>| prefix.is_prefix_of(n));
        lemma_in_order_of_finite(set);
        let names = listing(db.records, prefix);
        assert(set.contains(rival));
        assert(names.contains(rival));
        let i = choose|i: int| 0 <= i < names.len() && names[i] == rival;
        let c = readable_contact(db, rival)->0;
        lemma_readable_contact_is_listed(db, names, i, c);
        let list = contact_list(db);
        let j = choose|j: int| 0 <= j < list.len() && list[j] == c;
        assert(list[j].fingerprint != fingerprint);
        assert(goes_by(list[j], username, discriminator));
    }
}

} // verus!
