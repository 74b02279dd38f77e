//! Message records, one for each message, by conversation. Nothing expires: a message goes only
//! when it is deleted or its conversation is wiped.

use vstd::prelude::*;
use vstd::utf8::encode_utf8;
use crate::bytes::{bytes_equal, copy_bytes};
use crate::hex::hex;
use crate::random::random_bytes;
use crate::text::{decimal, push_decimal};
use super::cbor::{
    as_bool, as_bytes, as_optional, as_uint, bytes_value, cbor_bytes, cbor_item, check_names,
    decode_item, distinct, encode_item, field, find_field, is_nothing, lemma_record_fields,
    lemma_record_fits, name_bytes, names_ok, optional_bytes, optional_bytes_value, optional_uint, pairs_view, part_fits,
    plain, record_of, take_bool, take_bytes, take_uint, text_key, Field, FieldView, Item, ItemView, Scalar,
    ScalarView, MAX_FIELD_NAME_LEN, MAX_PART_LEN,
};
use super::crypto::encryptable;
use super::db::{listing, message_prefix, names_view, push_hex_bytes, stores, Db, DbView, Scope};
use super::error::{Error, ErrorView, Result};

verus! {

#[derive(Clone)]
pub struct Message {
    /// Random, not a count.
    pub id: Vec<u8>,
    pub sender_is_local: bool,
    pub content: Vec<u8>,
    /// Seconds since the Unix epoch.
    pub timestamp: u64,
    /// Orders messages of the same second.
    pub sequence: u64,
    /// The position in the sending chain, of a message sent from here.
    pub send_n: Option<u32>,
    /// The sending chain, of a message sent from here. Together with `send_n` it names one
    /// message only.
    pub send_dh_pub: Option<Vec<u8>>,
    /// Whether the peer has acknowledged a message sent from here.
    pub delivered: bool,
    /// Whether the connection broke before a message sent from here was acknowledged.
    pub uncertain: bool,
}

pub struct MessageView {
    pub id: Seq<u8>,
    pub sender_is_local: bool,
    pub content: Seq<u8>,
    pub timestamp: u64,
    pub sequence: u64,
    pub send_n: Option<u32>,
    pub send_dh_pub: Option<Seq<u8>>,
    pub delivered: bool,
    pub uncertain: bool,
}

impl View for Message {
    type V = MessageView;

    open spec fn view(&self) -> MessageView {
        MessageView {
            id: self.id@,
            sender_is_local: self.sender_is_local,
            content: self.content@,
            timestamp: self.timestamp,
            sequence: self.sequence,
            send_n: self.send_n,
            send_dh_pub: optional_bytes(self.send_dh_pub),
            delivered: self.delivered,
            uncertain: self.uncertain,
        }
    }
}

pub open spec fn messages_view(messages: Seq<Message>) -> Seq<MessageView> {
    messages.map_values(|m: Message| m@)
}

// The record of a message.

/// The field names of a message record.
pub open spec fn message_field_names() -> Seq<Seq<char>> {
    seq![
        "id"@,
        "sender_is_local"@,
        "content"@,
        "timestamp"@,
        "sequence"@,
        "send_n"@,
        "send_dh_pub"@,
        "delivered"@,
        "uncertain"@,
    ]
}

/// The field values of a message record.
pub open spec fn message_values(m: MessageView) -> Seq<ScalarView> {
    seq![
        ScalarView::Bytes(m.id),
        ScalarView::Bool(m.sender_is_local),
        ScalarView::Bytes(m.content),
        ScalarView::Uint(m.timestamp),
        ScalarView::Uint(m.sequence),
        optional_uint(
            match m.send_n {
                Some(n) => Some(n as u64),
                None => None,
            },
        ),
        optional_bytes_value(m.send_dh_pub),
        ScalarView::Bool(m.delivered),
        ScalarView::Bool(m.uncertain),
    ]
}

pub open spec fn message_item(m: MessageView) -> ItemView {
    record_of(message_field_names(), message_values(m))
}

/// The message that a record holds. A record may be from before `send_n`, `send_dh_pub` or
/// `uncertain`: it reads as one without them, and as certain.
pub open spec fn message_of_fields(pairs: Seq<(ScalarView, ScalarView)>) -> Option<MessageView> {
    let send_n = field(pairs, "send_n"@);
    let send_dh_pub = field(pairs, "send_dh_pub"@);
    let uncertain = field(pairs, "uncertain"@);
    let sent_at = as_optional(send_n, true, as_uint(send_n, u32::MAX as u64));
    let chain = as_optional(send_dh_pub, true, as_bytes(send_dh_pub));
    let doubt = if uncertain is Absent {
        Some(false)
    } else {
        as_bool(uncertain)
    };
    if names_ok(pairs) && as_bytes(field(pairs, "id"@)) is Some && as_bool(
        field(pairs, "sender_is_local"@),
    ) is Some && as_bytes(field(pairs, "content"@)) is Some && as_uint(
        field(pairs, "timestamp"@),
        u64::MAX,
    ) is Some && as_uint(field(pairs, "sequence"@), u64::MAX) is Some && sent_at is Some
        && chain is Some && as_bool(field(pairs, "delivered"@)) is Some && doubt is Some {
        Some(
            MessageView {
                id: as_bytes(field(pairs, "id"@))->0,
                sender_is_local: as_bool(field(pairs, "sender_is_local"@))->0,
                content: as_bytes(field(pairs, "content"@))->0,
                timestamp: as_uint(field(pairs, "timestamp"@), u64::MAX)->0,
                sequence: as_uint(field(pairs, "sequence"@), u64::MAX)->0,
                send_n: match sent_at->0 {
                    Some(n) => Some(n as u32),
                    None => None,
                },
                send_dh_pub: chain->0,
                delivered: as_bool(field(pairs, "delivered"@))->0,
                uncertain: doubt->0,
            },
        )
    } else {
        None
    }
}

/// The message that an encoded record holds.
pub open spec fn message_of(bytes: Seq<u8>) -> Option<MessageView> {
    match cbor_item(bytes) {
        Some(ItemView::Fields(pairs)) => message_of_fields(pairs),
        _ => None,
    }
}

proof fn lemma_message_names()
    ensures
        distinct(message_field_names()),
        forall|i: int|
            0 <= i < message_field_names().len() ==> encode_utf8(
                #[trigger] message_field_names()[i],
            ).len() <= MAX_FIELD_NAME_LEN,
{
    reveal_strlit("id");
    reveal_strlit("sender_is_local");
    reveal_strlit("content");
    reveal_strlit("timestamp");
    reveal_strlit("sequence");
    reveal_strlit("send_n");
    reveal_strlit("send_dh_pub");
    reveal_strlit("delivered");
    reveal_strlit("uncertain");
    assert("timestamp"@[0] != "delivered"@[0]);
    assert("timestamp"@[0] != "uncertain"@[0]);
    assert("delivered"@[0] != "uncertain"@[0]);
    let names = message_field_names();
    assert forall|i: int| 0 <= i < names.len() implies encode_utf8(#[trigger] names[i]).len()
        <= MAX_FIELD_NAME_LEN by {
        vstd::utf8::is_ascii_chars_encode_utf8(names[i]);
    }
}

/// A message's record reads back as the message.
pub proof fn law_message_record_round_trips(m: MessageView)
    ensures
        message_item(m) matches ItemView::Fields(pairs) && message_of_fields(pairs) == Some(m),
        plain(message_item(m)),
{
    let names = message_field_names();
    let values = message_values(m);
    lemma_message_names();
    lemma_record_fields(names, values, 0);
    lemma_record_fields(names, values, 1);
    lemma_record_fields(names, values, 2);
    lemma_record_fields(names, values, 3);
    lemma_record_fields(names, values, 4);
    lemma_record_fields(names, values, 5);
    lemma_record_fields(names, values, 6);
    lemma_record_fields(names, values, 7);
    lemma_record_fields(names, values, 8);
    let pairs = message_item(m)->Fields_0;
    assert forall|i: int| 0 <= i < pairs.len() implies (name_bytes((#[trigger] pairs[i]).0) matches Some(
        n,
    ) && n.len() <= MAX_FIELD_NAME_LEN) by {
        assert(pairs[i].0 == ScalarView::Text(names[i]));
    }
}

/// A message's record has each field under its own name, and no other field.
pub proof fn law_a_message_record_has_each_field(m: MessageView)
    ensures
        message_item(m) matches ItemView::Fields(pairs) && {
            &&& pairs.len() == 9
            &&& field(pairs, "id"@) == FieldView::One(ScalarView::Bytes(m.id))
            &&& field(pairs, "sender_is_local"@) == FieldView::One(
                ScalarView::Bool(m.sender_is_local),
            )
            &&& field(pairs, "content"@) == FieldView::One(ScalarView::Bytes(m.content))
            &&& field(pairs, "timestamp"@) == FieldView::One(ScalarView::Uint(m.timestamp))
            &&& field(pairs, "sequence"@) == FieldView::One(ScalarView::Uint(m.sequence))
            &&& field(pairs, "send_n"@) == FieldView::One(
                match m.send_n {
                    Some(n) => ScalarView::Uint(n as u64),
                    None => ScalarView::Null,
                },
            )
            &&& field(pairs, "send_dh_pub"@) == FieldView::One(
                match m.send_dh_pub {
                    Some(chain) => ScalarView::Bytes(chain),
                    None => ScalarView::Null,
                },
            )
            &&& field(pairs, "delivered"@) == FieldView::One(ScalarView::Bool(m.delivered))
            &&& field(pairs, "uncertain"@) == FieldView::One(ScalarView::Bool(m.uncertain))
        },
{
    let names = message_field_names();
    let values = message_values(m);
    lemma_message_names();
    assert forall|i: int| 0 <= i < names.len() implies field(
        message_item(m)->Fields_0,
        #[trigger] names[i],
    ) == FieldView::One(values[i]) by {
        lemma_record_fields(names, values, i);
    }
    assert(names[0] == "id"@ && names[1] == "sender_is_local"@ && names[2] == "content"@ && names[3]
        == "timestamp"@ && names[4] == "sequence"@ && names[5] == "send_n"@ && names[6]
        == "send_dh_pub"@ && names[7] == "delivered"@ && names[8] == "uncertain"@);
}

/// What is read of a message's record comes from the fields of its names, and is read exactly
/// where they are of their kinds. Three of them may be missing.
pub proof fn law_a_message_is_read_by_field(pairs: Seq<(ScalarView, ScalarView)>)
    ensures
        message_of_fields(pairs) is Some <==> names_ok(pairs) && (field(pairs, "id"@) matches FieldView::One(
            ScalarView::Bytes(_),
        )) && (field(pairs, "sender_is_local"@) matches FieldView::One(ScalarView::Bool(_))) && (field(
            pairs,
            "content"@,
        ) matches FieldView::One(ScalarView::Bytes(_))) && (field(pairs, "timestamp"@) matches FieldView::One(
            ScalarView::Uint(_),
        )) && (field(pairs, "sequence"@) matches FieldView::One(ScalarView::Uint(_))) && (match field(
            pairs,
            "send_n"@,
        ) {
            FieldView::Absent => true,
            FieldView::One(ScalarView::Null) => true,
            FieldView::One(ScalarView::Uint(n)) => n <= u32::MAX,
            _ => false,
        }) && (match field(pairs, "send_dh_pub"@) {
            FieldView::Absent => true,
            FieldView::One(ScalarView::Null) => true,
            FieldView::One(ScalarView::Bytes(_)) => true,
            _ => false,
        }) && (field(pairs, "delivered"@) matches FieldView::One(ScalarView::Bool(_))) && (match field(
            pairs,
            "uncertain"@,
        ) {
            FieldView::Absent => true,
            FieldView::One(ScalarView::Bool(_)) => true,
            _ => false,
        }),
        message_of_fields(pairs) matches Some(m) ==> {
            &&& field(pairs, "id"@) == FieldView::One(ScalarView::Bytes(m.id))
            &&& field(pairs, "sender_is_local"@) == FieldView::One(
                ScalarView::Bool(m.sender_is_local),
            )
            &&& field(pairs, "content"@) == FieldView::One(ScalarView::Bytes(m.content))
            &&& field(pairs, "timestamp"@) == FieldView::One(ScalarView::Uint(m.timestamp))
            &&& field(pairs, "sequence"@) == FieldView::One(ScalarView::Uint(m.sequence))
            &&& match m.send_n {
                Some(n) => field(pairs, "send_n"@) == FieldView::One(ScalarView::Uint(n as u64)),
                None => !(field(pairs, "send_n"@) matches FieldView::One(ScalarView::Uint(_))),
            }
            &&& match m.send_dh_pub {
                Some(chain) => field(pairs, "send_dh_pub"@) == FieldView::One(
                    ScalarView::Bytes(chain),
                ),
                None => !(field(pairs, "send_dh_pub"@) matches FieldView::One(
                    ScalarView::Bytes(_),
                )),
            }
            &&& field(pairs, "delivered"@) == FieldView::One(ScalarView::Bool(m.delivered))
            &&& m.uncertain <==> field(pairs, "uncertain"@) == FieldView::One(
                ScalarView::Bool(true),
            )
        },
{
}

/// A message is read field by field, and messages in order.
pub proof fn law_messages_are_seen_by_field(messages: Seq<Message>, i: int)
    requires
        0 <= i < messages.len(),
    ensures
        messages_view(messages).len() == messages.len(),
        messages_view(messages)[i].id == messages[i].id@,
        messages_view(messages)[i].sender_is_local == messages[i].sender_is_local,
        messages_view(messages)[i].content == messages[i].content@,
        messages_view(messages)[i].timestamp == messages[i].timestamp,
        messages_view(messages)[i].sequence == messages[i].sequence,
        messages_view(messages)[i].send_n == messages[i].send_n,
        match messages[i].send_dh_pub {
            Some(chain) => messages_view(messages)[i].send_dh_pub == Some(chain@),
            None => messages_view(messages)[i].send_dh_pub is None,
        },
        messages_view(messages)[i].delivered == messages[i].delivered,
        messages_view(messages)[i].uncertain == messages[i].uncertain,
{
}

/// Whether no part of a message is so long that storing it could fail.
pub open spec fn message_fits(m: MessageView) -> bool {
    &&& m.id.len() <= MAX_PART_LEN
    &&& m.content.len() <= MAX_PART_LEN
    &&& m.send_dh_pub matches Some(chain) ==> chain.len() <= MAX_PART_LEN
}

proof fn lemma_message_fits(m: MessageView)
    requires
        message_fits(m),
    ensures
        super::cbor::item_size(message_item(m)) <= super::crypto::MAX_PLAINTEXT_LEN,
{
    lemma_message_names();
    let values = message_values(m);
    assert forall|i: int| 0 <= i < values.len() implies part_fits(#[trigger] values[i]) by {}
    lemma_record_fits(message_field_names(), values);
}

/// The encoded record of a message.
pub fn encode_message(message: &Message) -> (bytes: Vec<u8>)
    ensures
        bytes@ == cbor_bytes(message_item(message@)),
        message_of(bytes@) == Some(message@),
        message_fits(message@) ==> storable(message@),
{
    let mut pairs: Vec<(Scalar, Scalar)> = Vec::new();
    pairs.push((text_key("id"), bytes_value(&message.id)));
    pairs.push((text_key("sender_is_local"), Scalar::Bool(message.sender_is_local)));
    pairs.push((text_key("content"), bytes_value(&message.content)));
    pairs.push((text_key("timestamp"), Scalar::Uint(message.timestamp)));
    pairs.push((text_key("sequence"), Scalar::Uint(message.sequence)));
    let send_n: Scalar = match message.send_n {
        Some(n) => Scalar::Uint(n as u64),
        None => Scalar::Null,
    };
    pairs.push((text_key("send_n"), send_n));
    let send_dh_pub: Scalar = match &message.send_dh_pub {
        Some(chain) => bytes_value(chain),
        None => Scalar::Null,
    };
    pairs.push((text_key("send_dh_pub"), send_dh_pub));
    pairs.push((text_key("delivered"), Scalar::Bool(message.delivered)));
    pairs.push((text_key("uncertain"), Scalar::Bool(message.uncertain)));
    let item: Item = Item::Fields(pairs);
    proof {
        law_message_record_round_trips(message@);
        assert(pairs_view(pairs@) =~= message_item(message@)->Fields_0);
        if message_fits(message@) {
            lemma_message_fits(message@);
        }
    }
    encode_item(&item)
}

/// The message that an encoded record holds.
pub fn decode_message(bytes: &[u8]) -> (message: Result<Message>)
    ensures
        match message {
            Ok(m) => message_of(bytes@) == Some(m@),
            Err(e) => message_of(bytes@) is None && e@ == ErrorView::MalformedRecord(
                "stored message is not valid CBOR for this shape",
            ),
        },
{
    match decode_item(bytes) {
        Some(Item::Fields(pairs)) => match message_from(&pairs) {
            Some(message) => Ok(message),
            None => Err(
                Error::MalformedRecord("stored message is not valid CBOR for this shape"),
            ),
        },
        _ => Err(Error::MalformedRecord("stored message is not valid CBOR for this shape")),
    }
}

fn message_from(pairs: &Vec<(Scalar, Scalar)>) -> (message: Option<Message>)
    ensures
        message is Some <==> message_of_fields(pairs_view(pairs@)) is Some,
        message matches Some(m) ==> message_of_fields(pairs_view(pairs@)) == Some(m@),
{
    if !check_names(pairs) {
        return None;
    }
    let id: Vec<u8> = take_bytes(&find_field(pairs, "id"))?;
    let sender_is_local: bool = take_bool(&find_field(pairs, "sender_is_local"))?;
    let content: Vec<u8> = take_bytes(&find_field(pairs, "content"))?;
    let timestamp: u64 = take_uint(&find_field(pairs, "timestamp"), u64::MAX)?;
    let sequence: u64 = take_uint(&find_field(pairs, "sequence"), u64::MAX)?;
    let send_n_field: Field = find_field(pairs, "send_n");
    let send_n: Option<u32> = if is_nothing(&send_n_field, true) {
        None
    } else {
        Some(take_uint(&send_n_field, u32::MAX as u64)? as u32)
    };
    let chain_field: Field = find_field(pairs, "send_dh_pub");
    let send_dh_pub: Option<Vec<u8>> = if is_nothing(&chain_field, true) {
        None
    } else {
        Some(take_bytes(&chain_field)?)
    };
    let delivered: bool = take_bool(&find_field(pairs, "delivered"))?;
    let uncertain_field: Field = find_field(pairs, "uncertain");
    let uncertain: bool = match &uncertain_field {
        Field::Absent => false,
        found => take_bool(found)?,
    };
    Some(
        Message {
            id,
            sender_is_local,
            content,
            timestamp,
            sequence,
            send_n,
            send_dh_pub,
            delivered,
            uncertain,
        },
    )
}

// Names.

/// What the names of a conversation's messages start with.
pub open spec fn conversation_prefix(conversation_id: Seq<u8>) -> Seq<u8> {
    message_prefix() + encode_utf8(hex(conversation_id)) + encode_utf8(":"@)
}

/// The name of a message record.
pub open spec fn message_name(conversation_id: Seq<u8>, message_id: Seq<u8>) -> Seq<u8> {
    conversation_prefix(conversation_id) + encode_utf8(hex(message_id))
}

/// The name of a message record.
pub fn message_key(conversation_id: [u8; 16], message_id: &[u8]) -> (name: Vec<u8>)
    ensures
        name@ == message_name(conversation_id@, message_id@),
{
    let mut name: Vec<u8> = message_key_prefix(conversation_id);
    push_hex_bytes(&mut name, message_id);
    name
}

/// What the names of a conversation's messages start with.
pub fn message_key_prefix(conversation_id: [u8; 16]) -> (prefix: Vec<u8>)
    ensures
        prefix@ == conversation_prefix(conversation_id@),
{
    let mut prefix: Vec<u8> = copy_bytes("message:".as_bytes());
    push_hex_bytes(&mut prefix, conversation_id.as_slice());
    prefix.extend_from_slice(":".as_bytes());
    prefix
}

// Reading.

/// The message that is stored under a name, if it can be read.
pub open spec fn readable_message(db: DbView, name: Seq<u8>) -> Option<MessageView> {
    match db.read(Scope::Content, name) {
        Ok(Some(bytes)) => message_of(bytes),
        _ => None,
    }
}

/// The messages that are stored under the names, in their order; those that cannot be read are
/// passed over.
pub open spec fn readable_messages(db: DbView, names: Seq<Seq<u8>>) -> Seq<MessageView>
    decreases names.len(),
{
    if names.len() == 0 {
        Seq::empty()
    } else {
        match readable_message(db, names.last()) {
            Some(m) => readable_messages(db, names.drop_last()).push(m),
            None => readable_messages(db, names.drop_last()),
        }
    }
}

/// Whether `a` comes no later than `b`: by time, then by sequence number.
pub open spec fn no_later(a: MessageView, b: MessageView) -> bool {
    a.timestamp < b.timestamp || (a.timestamp == b.timestamp && a.sequence <= b.sequence)
}

/// The list with `m` put in behind the last message that comes no later.
pub open spec fn put_in_order(list: Seq<MessageView>, m: MessageView) -> Seq<MessageView>
    decreases list.len(),
{
    if list.len() == 0 || no_later(list.last(), m) {
        list.push(m)
    } else {
        put_in_order(list.drop_last(), m).push(list.last())
    }
}

/// The messages by time, then by sequence number; ties stay in their order.
pub open spec fn ordered(list: Seq<MessageView>) -> Seq<MessageView>
    decreases list.len(),
{
    if list.len() == 0 {
        list
    } else {
        put_in_order(ordered(list.drop_last()), list.last())
    }
}

/// The readable messages of a conversation, oldest first.
pub open spec fn conversation(db: DbView, conversation_id: Seq<u8>) -> Seq<MessageView> {
    ordered(readable_messages(db, listing(db.records, conversation_prefix(conversation_id))))
}

proof fn lemma_put_in_order_at(list: Seq<MessageView>, m: MessageView, p: int)
    requires
        0 <= p <= list.len(),
        p > 0 ==> no_later(list[p - 1], m),
        forall|j: int| p <= j < list.len() ==> !no_later(#[trigger] list[j], m),
    ensures
        put_in_order(list, m) == list.insert(p, m),
    decreases list.len(),
{
    if p == list.len() {
        assert(list.insert(p, m) =~= list.push(m));
    } else {
        assert(!no_later(list[list.len() - 1], m));
        lemma_put_in_order_at(list.drop_last(), m, p);
        assert(list.insert(p, m) =~= list.drop_last().insert(p, m).push(list.last()));
    }
}

/// Each message comes no later than those behind it.
pub open spec fn is_ordered(list: Seq<MessageView>) -> bool {
    forall|i: int, j: int| 0 <= i < j < list.len() ==> no_later(#[trigger] list[i], #[trigger] list[j])
}

proof fn lemma_put_in_order(list: Seq<MessageView>, m: MessageView)
    requires
        is_ordered(list),
    ensures
        is_ordered(put_in_order(list, m)),
        put_in_order(list, m).to_multiset() == list.to_multiset().insert(m),
        put_in_order(list, m).len() == list.len() + 1,
        forall|x: MessageView, k: int|
            (forall|j: int| 0 <= j < list.len() ==> no_later(#[trigger] list[j], x)) && no_later(m, x)
                && 0 <= k <= list.len() ==> #[trigger] no_later(put_in_order(list, m)[k], x),
    decreases list.len(),
{
    broadcast use vstd::seq_lib::group_to_multiset_ensures;

    if list.len() == 0 || no_later(list.last(), m) {
        let r = list.push(m);
        assert forall|i: int, j: int| 0 <= i < j < r.len() implies no_later(
            #[trigger] r[i],
            #[trigger] r[j],
        ) by {
            if j == list.len() {
                if i < list.len() - 1 {
                    assert(no_later(list[i], list[list.len() - 1]));
                }
            }
        }
        assert forall|x: MessageView, k: int|
            (forall|j: int| 0 <= j < list.len() ==> no_later(#[trigger] list[j], x)) && no_later(m, x)
                && 0 <= k <= list.len() implies #[trigger] no_later(put_in_order(list, m)[k], x) by {
            if k < list.len() {
                assert(no_later(list[k], x));
            }
        }
    } else {
        let shorter = list.drop_last();
        let last = list.last();
        assert(forall|i: int| 0 <= i < shorter.len() ==> shorter[i] == list[i]);
        lemma_put_in_order(shorter, m);
        let p = put_in_order(shorter, m);
        let r = p.push(last);
        assert(no_later(m, last));
        assert forall|j: int| 0 <= j < shorter.len() implies no_later(#[trigger] shorter[j], last) by {
            assert(no_later(list[j], list[list.len() - 1]));
        }
        assert forall|i: int, j: int| 0 <= i < j < r.len() implies no_later(
            #[trigger] r[i],
            #[trigger] r[j],
        ) by {
            if j == p.len() {
                assert(no_later(p[i], last));
            }
        }
        assert(list =~= shorter.push(last));
        assert(r.to_multiset() =~= list.to_multiset().insert(m));
        assert forall|x: MessageView, k: int|
            (forall|j: int| 0 <= j < list.len() ==> no_later(#[trigger] list[j], x)) && no_later(m, x)
                && 0 <= k <= list.len() implies #[trigger] no_later(put_in_order(list, m)[k], x) by {
            if k < shorter.len() + 1 {
                assert forall|j: int| 0 <= j < shorter.len() implies no_later(#[trigger] shorter[j], x) by {
                    assert(no_later(list[j], x));
                }
                assert(no_later(p[k], x));
            } else {
                assert(no_later(list[list.len() - 1], x));
            }
        }
    }
}

/// A conversation is listed oldest first, each message exactly as often as it is stored.
pub proof fn law_listing_is_in_order(list: Seq<MessageView>)
    ensures
        is_ordered(ordered(list)),
        ordered(list).to_multiset() == list.to_multiset(),
        ordered(list).len() == list.len(),
    decreases list.len(),
{
    broadcast use vstd::seq_lib::group_to_multiset_ensures;

    if list.len() > 0 {
        law_listing_is_in_order(list.drop_last());
        lemma_put_in_order(ordered(list.drop_last()), list.last());
        assert(list =~= list.drop_last().push(list.last()));
    }
}

/// Whether a message has this time and sequence number.
pub open spec fn at_moment(m: MessageView, timestamp: u64, sequence: u64) -> bool {
    m.timestamp == timestamp && m.sequence == sequence
}

proof fn lemma_put_in_order_keeps_ties(
    list: Seq<MessageView>,
    m: MessageView,
    timestamp: u64,
    sequence: u64,
)
    requires
        is_ordered(list),
    ensures
        ({
            let same = |x: MessageView| at_moment(x, timestamp, sequence);
            put_in_order(list, m).filter(same) == if same(m) {
                list.filter(same).push(m)
            } else {
                list.filter(same)
            }
        }),
    decreases list.len(),
{
    reveal(Seq::filter);
    let same = |x: MessageView| at_moment(x, timestamp, sequence);
    if list.len() == 0 || no_later(list.last(), m) {
        assert(list.push(m).drop_last() =~= list);
    } else {
        let shorter = list.drop_last();
        assert(forall|i: int| 0 <= i < shorter.len() ==> shorter[i] == list[i]);
        lemma_put_in_order_keeps_ties(shorter, m, timestamp, sequence);
        assert(put_in_order(shorter, m).push(list.last()).drop_last() =~= put_in_order(shorter, m));
    }
}

/// Messages of the same time and sequence number are listed in the order they are stored in.
pub proof fn law_ties_stay_in_order(list: Seq<MessageView>, timestamp: u64, sequence: u64)
    ensures
        ({
            let same = |x: MessageView| at_moment(x, timestamp, sequence);
            ordered(list).filter(same) == list.filter(same)
        }),
    decreases list.len(),
{
    reveal(Seq::filter);
    if list.len() > 0 {
        law_ties_stay_in_order(list.drop_last(), timestamp, sequence);
        law_listing_is_in_order(list.drop_last());
        lemma_put_in_order_keeps_ties(
            ordered(list.drop_last()),
            list.last(),
            timestamp,
            sequence,
        );
    }
}

fn comes_no_later(a: &Message, b: &Message) -> (is: bool)
    ensures
        is == no_later(a@, b@),
{
    a.timestamp < b.timestamp || (a.timestamp == b.timestamp && a.sequence <= b.sequence)
}

/// Puts messages in order.
pub fn sort_messages(messages: &mut Vec<Message>)
    ensures
        messages_view(final(messages)@) == ordered(messages_view(old(messages)@)),
{
    let ghost all = messages@;
    let ghost list = messages_view(all);
    let n: usize = messages.len();
    let mut i: usize = 0;
    assert(list.take(0) =~= Seq::<MessageView>::empty());
    assert(messages_view(messages@.take(0)) =~= ordered(list.take(0)));
    while i < n
        invariant
            i <= n,
            n == all.len(),
            messages@.len() == n,
            list == messages_view(all),
            messages_view(messages@.take(i as int)) == ordered(list.take(i as int)),
            messages@.skip(i as int) == all.skip(i as int),
        decreases n - i,
    {
        let ghost before = messages@;
        let ghost sorted = messages_view(before.take(i as int));
        let message: Message = messages.remove(i);
        let ghost view = message@;
        let ghost removed = messages@;
        proof {
            assert(before.skip(i as int)[0] == before[i as int]);
            assert(all.skip(i as int)[0] == all[i as int]);
            assert(view == list[i as int]);
            assert(removed.take(i as int) =~= before.take(i as int));
        }
        let mut p: usize = i;
        while p > 0 && !comes_no_later(&messages[p - 1], &message)
            invariant
                p <= i,
                i < n,
                messages@ == removed,
                removed.len() == n - 1,
                message@ == view,
                sorted == messages_view(removed.take(i as int)),
                forall|j: int| p <= j < i ==> !no_later(#[trigger] sorted[j], view),
            decreases p,
        {
            assert(sorted[p - 1] == removed[p - 1]@);
            p = p - 1;
        }
        proof {
            if p > 0 {
                assert(sorted[p - 1] == removed[p - 1]@);
            }
            lemma_put_in_order_at(sorted, view, p as int);
        }
        messages.insert(p, message);
        proof {
            let after = messages@;
            assert(messages_view(after.take(i + 1)) =~= sorted.insert(p as int, view));
            assert(list.take(i + 1).drop_last() =~= list.take(i as int));
            assert(list.take(i + 1).last() == view);
            assert(after.skip(i + 1) =~= before.skip(i as int).drop_first());
            assert(all.skip(i + 1) =~= all.skip(i as int).drop_first());
        }
        i = i + 1;
    }
    assert(list.take(n as int) =~= list);
    assert(messages@.take(n as int) =~= messages@);
}

// The sequence counter.

/// One more than a sequence number, or the same where there is no greater one.
pub open spec fn after_sequence(sequence: u64) -> u64 {
    if sequence == u64::MAX {
        sequence
    } else {
        (sequence + 1) as u64
    }
}

/// One more than the greatest sequence number of the messages; none give zero.
pub open spec fn sequence_after(list: Seq<MessageView>) -> u64
    decreases list.len(),
{
    if list.len() == 0 {
        0
    } else {
        let before = sequence_after(list.drop_last());
        let after = after_sequence(list.last().sequence);
        if after > before {
            after
        } else {
            before
        }
    }
}

/// The counter that a store goes on with when it is opened. A message that cannot be read does
/// not count, as it is not listed either.
pub open spec fn recovered_sequence(db: DbView) -> u64 {
    sequence_after(readable_messages(db, listing(db.records, message_prefix())))
}

/// A recovered counter is ahead of every readable message, unless one has the greatest number
/// there is; and no further ahead than it must be.
pub proof fn law_recovered_sequence_is_ahead(list: Seq<MessageView>, i: int)
    requires
        0 <= i < list.len(),
    ensures
        list[i].sequence < u64::MAX ==> list[i].sequence < sequence_after(list),
        exists|j: int|
            0 <= j < list.len() && sequence_after(list) == after_sequence(
                (#[trigger] list[j]).sequence,
            ),
    decreases list.len(),
{
    let shorter = list.drop_last();
    let n = list.len() - 1;
    if shorter.len() > 0 {
        law_recovered_sequence_is_ahead(shorter, if i < n { i } else { 0 });
        let j = choose|j: int|
            0 <= j < shorter.len() && sequence_after(shorter) == after_sequence(
                (#[trigger] shorter[j]).sequence,
            );
        assert(list[j] == shorter[j]);
    } else {
        assert(sequence_after(shorter) == 0);
    }
    assert(list[n] == list.last());
}

/// The counter that a store goes on with when it is opened: one more than the highest number
/// of any readable message, so that new messages sort behind old ones of the same second.
pub fn recover_message_sequence(db: &Db) -> (next: u64)
    ensures
        next == recovered_sequence(db@),
{
    let names: Vec<Vec<u8>> = db.keys_with_prefix("message:".as_bytes());
    let ghost list = names_view(names@);
    let mut next: u64 = 0;
    let mut i: usize = 0;
    assert(list.take(0) =~= Seq::<Seq<u8>>::empty());
    while i < names.len()
        invariant
            i <= names@.len(),
            list == names_view(names@),
            next == sequence_after(readable_messages(db@, list.take(i as int))),
        decreases names@.len() - i,
    {
        let ghost before = readable_messages(db@, list.take(i as int));
        proof {
            assert(list.take(i + 1).drop_last() =~= list.take(i as int));
            assert(list.take(i + 1).last() == names@[i as int]@);
        }
        if let Ok(Some(bytes)) = db.get_encrypted(Scope::Content, names[i].as_slice()) {
            if let Ok(message) = decode_message(bytes.as_slice()) {
                assert(before.push(message@).drop_last() =~= before);
                let following: u64 = if message.sequence == u64::MAX {
                    message.sequence
                } else {
                    message.sequence + 1
                };
                if following > next {
                    next = following;
                }
            }
        }
        i = i + 1;
    }
    assert(list.take(i as int) =~= list);
    next
}

// Writing.

/// Whether `after` is `before` with the message stored, so that it reads back as itself.
pub open spec fn stores_message(
    before: DbView,
    after: DbView,
    conversation_id: Seq<u8>,
    m: MessageView,
) -> bool {
    let bytes = cbor_bytes(message_item(m));
    &&& stores(before, after, Scope::Content, message_name(conversation_id, m.id), bytes)
    &&& message_of(bytes) == Some(m)
}

/// Whether a message is short enough to be stored.
pub open spec fn storable(m: MessageView) -> bool {
    encryptable(cbor_bytes(message_item(m)))
}

/// Whether `after` is `before` with the messages stored one after the other.
pub open spec fn stores_messages(
    before: DbView,
    after: DbView,
    conversation_id: Seq<u8>,
    list: Seq<MessageView>,
) -> bool
    decreases list.len(),
{
    if list.len() == 0 {
        after == before
    } else {
        exists|between: DbView|
            stores_messages(before, between, conversation_id, list.drop_last())
                && #[trigger] stores_message(between, after, conversation_id, list.last())
    }
}

proof fn lemma_stores_one_more(
    before: DbView,
    between: DbView,
    after: DbView,
    conversation_id: Seq<u8>,
    list: Seq<MessageView>,
    m: MessageView,
)
    requires
        stores_messages(before, between, conversation_id, list),
        stores_message(between, after, conversation_id, m),
    ensures
        stores_messages(before, after, conversation_id, list.push(m)),
{
    let longer = list.push(m);
    assert(longer.drop_last() =~= list);
    assert(longer.last() == m);
    assert(stores_messages(before, between, conversation_id, longer.drop_last()));
}

/// Whether no part of any of the messages is too long.
pub open spec fn all_fit(list: Seq<MessageView>) -> bool {
    forall|i: int| 0 <= i < list.len() ==> message_fits(#[trigger] list[i])
}

/// Whether storing the messages one after the other did what it should: all are stored, or
/// those in front of one that is too long.
pub open spec fn store_outcome(
    before: DbView,
    after: DbView,
    conversation_id: Seq<u8>,
    list: Seq<MessageView>,
    result: std::result::Result<(), ErrorView>,
) -> bool {
    match result {
        Ok(_) => stores_messages(before, after, conversation_id, list),
        Err(e) => e is EncryptionFailed && exists|k: int|
            0 <= k < list.len() && !storable(#[trigger] list[k]) && stores_messages(
                before,
                after,
                conversation_id,
                list.take(k),
            ),
    }
}

/// Reading the message's name back gives the message.
pub proof fn law_saved_messages_read_back(
    before: DbView,
    after: DbView,
    conversation_id: Seq<u8>,
    m: MessageView,
)
    requires
        stores_message(before, after, conversation_id, m),
    ensures
        readable_message(after, message_name(conversation_id, m.id)) == Some(m),
{
}

/// The message as it is once the peer has acknowledged it.
pub open spec fn acknowledged(m: MessageView) -> MessageView {
    MessageView { delivered: true, uncertain: false, ..m }
}

/// Whether a message was sent from here and waits for an acknowledgement.
pub open spec fn awaits_ack(m: MessageView) -> bool {
    m.sender_is_local && !m.delivered
}

/// Whether an acknowledgement of the `n`th message of a chain is for this message.
pub open spec fn acked_by(m: MessageView, chain: Seq<u8>, n: u32) -> bool {
    awaits_ack(m) && m.send_n == Some(n) && m.send_dh_pub == Some(chain)
}

/// Whether an acknowledgement of a chain's messages up to the `n`th covers this message.
pub open spec fn covered_by(m: MessageView, chain: Seq<u8>, n: u32) -> bool {
    awaits_ack(m) && m.send_dh_pub == Some(chain) && (m.send_n matches Some(at) && at <= n)
}

/// Whether `i` is the place of the first message that the acknowledgement is for.
pub open spec fn first_acked(list: Seq<MessageView>, chain: Seq<u8>, n: u32, i: int) -> bool {
    0 <= i < list.len() && acked_by(list[i], chain, n) && forall|j: int|
        0 <= j < i ==> !acked_by(#[trigger] list[j], chain, n)
}

/// Marking messages makes none of them longer.
proof fn lemma_marked_fit(
    list: Seq<MessageView>,
    due: spec_fn(MessageView) -> bool,
    mark: spec_fn(MessageView) -> MessageView,
)
    requires
        all_fit(list),
        forall|m: MessageView| message_fits(m) ==> message_fits(#[trigger] mark(m)),
    ensures
        all_fit(list.filter(due).map_values(mark)),
    decreases list.len(),
{
    reveal(Seq::filter);
    if list.len() > 0 {
        let shorter = list.drop_last();
        assert forall|i: int| 0 <= i < shorter.len() implies message_fits(#[trigger] shorter[i]) by {
            assert(shorter[i] == list[i]);
        }
        lemma_marked_fit(shorter, due, mark);
        let rest = shorter.filter(due).map_values(mark);
        let all = list.filter(due).map_values(mark);
        assert(list.last() == list[list.len() - 1]);
        assert forall|i: int| 0 <= i < all.len() implies message_fits(#[trigger] all[i]) by {
            if i < rest.len() {
                assert(all[i] == rest[i]);
            }
        }
    }
}

fn same_chain(chain: &Option<Vec<u8>>, dh_pub: &[u8]) -> (same: bool)
    ensures
        same == (optional_bytes(*chain) == Some(dh_pub@)),
{
    match chain {
        Some(c) => bytes_equal(c.as_slice(), dh_pub),
        None => false,
    }
}

fn is_acked_by(m: &Message, dh_pub: &[u8], n: u32) -> (is: bool)
    ensures
        is == acked_by(m@, dh_pub@, n),
{
    let same_n: bool = match m.send_n {
        Some(at) => at == n,
        None => false,
    };
    m.sender_is_local && !m.delivered && same_n && same_chain(&m.send_dh_pub, dh_pub)
}

fn is_covered_by(m: &Message, dh_pub: &[u8], n: u32) -> (is: bool)
    ensures
        is == covered_by(m@, dh_pub@, n),
{
    let reached: bool = match m.send_n {
        Some(at) => at <= n,
        None => false,
    };
    m.sender_is_local && !m.delivered && same_chain(&m.send_dh_pub, dh_pub) && reached
}

/// Keeps the messages that the acknowledgement covers, marked as delivered.
fn keep_covered(messages: &mut Vec<Message>, dh_pub: &[u8], n: u32)
    ensures
        messages_view(final(messages)@) == messages_view(old(messages)@).filter(
            |m: MessageView| covered_by(m, dh_pub@, n),
        ).map_values(|m: MessageView| acknowledged(m)),
{
    let ghost all = messages@;
    let ghost list = messages_view(all);
    let ghost wanted = |m: MessageView| covered_by(m, dh_pub@, n);
    let ghost mark = |m: MessageView| acknowledged(m);
    let mut kept: usize = 0;
    let ghost mut seen: int = 0;
    proof {
        reveal(Seq::filter);
        assert(list.take(0) =~= Seq::<MessageView>::empty());
        assert(messages_view(messages@.take(0)) =~= list.take(0).filter(wanted).map_values(mark));
    }
    while kept < messages.len()
        invariant
            wanted == (|m: MessageView| covered_by(m, dh_pub@, n)),
            mark == (|m: MessageView| acknowledged(m)),
            list == messages_view(all),
            0 <= kept <= seen <= all.len(),
            messages@.len() == kept + (all.len() - seen),
            messages_view(messages@.take(kept as int)) == list.take(seen).filter(wanted).map_values(
                mark,
            ),
            messages@.skip(kept as int) == all.skip(seen),
        decreases messages@.len() - kept,
    {
        let ghost before = messages@;
        let ghost chosen = list.take(seen).filter(wanted);
        proof {
            reveal(Seq::filter);
            assert(list.take(seen + 1).drop_last() =~= list.take(seen));
            assert(before.skip(kept as int)[0] == before[kept as int]);
            assert(all.skip(seen)[0] == all[seen]);
            assert(list.take(seen + 1).last() == before[kept as int]@);
        }
        let mut message: Message = messages.remove(kept);
        let ghost rest = messages@;
        assert(rest.take(kept as int) =~= before.take(kept as int));
        assert(rest.skip(kept as int) =~= before.skip(kept as int).drop_first());
        if is_covered_by(&message, dh_pub, n) {
            message.delivered = true;
            message.uncertain = false;
            let ghost marked = message@;
            assert(marked == acknowledged(before[kept as int]@));
            messages.insert(kept, message);
            kept = kept + 1;
            assert(messages_view(messages@.take(kept as int)) =~= messages_view(
                before.take(kept - 1),
            ).push(marked));
            assert(chosen.push(before[kept - 1]@).map_values(mark) =~= chosen.map_values(mark).push(
                marked,
            ));
            assert(messages@.skip(kept as int) =~= rest.skip(kept - 1));
        }
        proof {
            seen = seen + 1;
            assert(all.skip(seen) =~= all.skip(seen - 1).drop_first());
        }
    }
    proof {
        assert(list.take(seen) =~= list);
        assert(messages@.take(kept as int) =~= messages@);
    }
}

/// Whether a message has yet to be marked uncertain.
pub open spec fn becomes_uncertain(m: MessageView) -> bool {
    awaits_ack(m) && !m.uncertain
}

/// The message once it is marked uncertain.
pub open spec fn doubted(m: MessageView) -> MessageView {
    MessageView { uncertain: true, ..m }
}

/// The messages that are marked when an acknowledgement covers a chain up to the `n`th message,
/// as they are afterwards.
pub open spec fn newly_delivered(db: DbView, conversation_id: Seq<u8>, chain: Seq<u8>, n: u32) -> Seq<
    MessageView,
> {
    conversation(db, conversation_id).filter(
        |m: MessageView| covered_by(m, chain, n),
    ).map_values(|m: MessageView| acknowledged(m))
}

/// The messages that become uncertain when the connection breaks, as they are afterwards.
pub open spec fn newly_uncertain(db: DbView, conversation_id: Seq<u8>) -> Seq<MessageView> {
    conversation(db, conversation_id).filter(|m: MessageView| becomes_uncertain(m)).map_values(
        |m: MessageView| doubted(m),
    )
}

/// Keeps the messages that become uncertain, marked so.
fn keep_doubted(messages: &mut Vec<Message>)
    ensures
        messages_view(final(messages)@) == messages_view(old(messages)@).filter(
            |m: MessageView| becomes_uncertain(m),
        ).map_values(|m: MessageView| doubted(m)),
{
    let ghost all = messages@;
    let ghost list = messages_view(all);
    let ghost wanted = |m: MessageView| becomes_uncertain(m);
    let ghost mark = |m: MessageView| doubted(m);
    let mut kept: usize = 0;
    let ghost mut seen: int = 0;
    proof {
        reveal(Seq::filter);
        assert(list.take(0) =~= Seq::<MessageView>::empty());
        assert(messages_view(messages@.take(0)) =~= list.take(0).filter(wanted).map_values(mark));
    }
    while kept < messages.len()
        invariant
            wanted == (|m: MessageView| becomes_uncertain(m)),
            mark == (|m: MessageView| doubted(m)),
            list == messages_view(all),
            0 <= kept <= seen <= all.len(),
            messages@.len() == kept + (all.len() - seen),
            messages_view(messages@.take(kept as int)) == list.take(seen).filter(wanted).map_values(
                mark,
            ),
            messages@.skip(kept as int) == all.skip(seen),
        decreases messages@.len() - kept,
    {
        let ghost before = messages@;
        let ghost chosen = list.take(seen).filter(wanted);
        proof {
            reveal(Seq::filter);
            assert(list.take(seen + 1).drop_last() =~= list.take(seen));
            assert(before.skip(kept as int)[0] == before[kept as int]);
            assert(all.skip(seen)[0] == all[seen]);
            assert(list.take(seen + 1).last() == before[kept as int]@);
        }
        let mut message: Message = messages.remove(kept);
        let ghost rest = messages@;
        assert(rest.take(kept as int) =~= before.take(kept as int));
        assert(rest.skip(kept as int) =~= before.skip(kept as int).drop_first());
        if message.sender_is_local && !message.delivered && !message.uncertain {
            message.uncertain = true;
            let ghost marked = message@;
            assert(marked == doubted(before[kept as int]@));
            messages.insert(kept, message);
            kept = kept + 1;
            assert(messages_view(messages@.take(kept as int)) =~= messages_view(
                before.take(kept - 1),
            ).push(marked));
            assert(chosen.push(before[kept - 1]@).map_values(mark) =~= chosen.map_values(mark).push(
                marked,
            ));
            assert(messages@.skip(kept as int) =~= rest.skip(kept - 1));
        }
        proof {
            seen = seen + 1;
            assert(all.skip(seen) =~= all.skip(seen - 1).drop_first());
        }
    }
    proof {
        assert(list.take(seen) =~= list);
        assert(messages@.take(kept as int) =~= messages@);
    }
}

impl Db {
    /// Stores a message under its conversation and id.
    pub fn save_message(&mut self, conversation_id: [u8; 16], message: &Message) -> (done: Result<()>)
        ensures
            match done {
                Ok(_) => storable(message@) && stores_message(
                    old(self)@,
                    final(self)@,
                    conversation_id@,
                    message@,
                ),
                Err(e) => !storable(message@) && e is EncryptionFailed && final(self)@ == old(
                    self,
                )@,
            },
            message_fits(message@) ==> done is Ok,
    {
        let bytes: Vec<u8> = encode_message(message);
        let name: Vec<u8> = message_key(conversation_id, message.id.as_slice());
        self.put_encrypted(Scope::Content, name.as_slice(), bytes.as_slice())
    }

    fn save_messages(&mut self, conversation_id: [u8; 16], messages: &Vec<Message>) -> (done: Result<()>)
        ensures
            store_outcome(
                old(self)@,
                final(self)@,
                conversation_id@,
                messages_view(messages@),
                match done {
                    Ok(u) => Ok(u),
                    Err(e) => Err(e@),
                },
            ),
            all_fit(messages_view(messages@)) ==> done is Ok,
    {
        let ghost list = messages_view(messages@);
        let mut i: usize = 0;
        assert(list.take(0) =~= Seq::<MessageView>::empty());
        while i < messages.len()
            invariant
                i <= messages@.len(),
                list == messages_view(messages@),
                stores_messages(old(self)@, self@, conversation_id@, list.take(i as int)),
            decreases messages@.len() - i,
        {
            let ghost between = self@;
            assert(list[i as int] == messages@[i as int]@);
            match self.save_message(conversation_id, &messages[i]) {
                Ok(_) => {},
                Err(e) => {
                    return Err(e);
                },
            }
            proof {
                lemma_stores_one_more(
                    old(self)@,
                    between,
                    self@,
                    conversation_id@,
                    list.take(i as int),
                    list[i as int],
                );
                assert(list.take(i + 1) =~= list.take(i as int).push(list[i as int]));
            }
            i = i + 1;
        }
        assert(list.take(i as int) =~= list);
        Ok(())
    }

    /// Builds a message with a random id, the time `now` in seconds since the Unix epoch and
    /// the next sequence number, and stores it.
    pub fn save_message_now(
        &mut self,
        conversation_id: [u8; 16],
        content: Vec<u8>,
        sender_is_local: bool,
        send_n: Option<u32>,
        send_dh_pub: Option<Vec<u8>>,
        now: u64,
    ) -> (saved: Result<Message>)
        ensures
            ({
                let counted = DbView {
                    message_sequence: final(self)@.message_sequence,
                    ..old(self)@
                };
                &&& final(self)@.message_sequence == if old(self)@.message_sequence == u64::MAX {
                    0
                } else {
                    (old(self)@.message_sequence + 1) as u64
                }
                &&& match saved {
                    Ok(m) => {
                        &&& m@.id.len() == 16
                        &&& m@ == (MessageView {
                            id: m@.id,
                            sender_is_local,
                            content: content@,
                            timestamp: now,
                            sequence: old(self)@.message_sequence,
                            send_n,
                            send_dh_pub: optional_bytes(send_dh_pub),
                            delivered: false,
                            uncertain: false,
                        })
                        &&& storable(m@)
                        &&& stores_message(counted, final(self)@, conversation_id@, m@)
                    },
                    Err(e) => e is EncryptionFailed && final(self)@ == counted && exists|id: Seq<u8>|
                        id.len() == 16 && !#[trigger] storable(
                            MessageView {
                                id,
                                sender_is_local,
                                content: content@,
                                timestamp: now,
                                sequence: old(self)@.message_sequence,
                                send_n,
                                send_dh_pub: optional_bytes(send_dh_pub),
                                delivered: false,
                                uncertain: false,
                            },
                        ),
                }
            }),
            content@.len() <= MAX_PART_LEN && (optional_bytes(send_dh_pub) matches Some(chain)
                ==> chain.len() <= MAX_PART_LEN) ==> saved is Ok,
    {
        let message: Message = Message {
            id: random_bytes(16),
            sender_is_local,
            content,
            timestamp: now,
            sequence: self.next_message_sequence(),
            send_n,
            send_dh_pub,
            delivered: false,
            uncertain: false,
        };
        match self.save_message(conversation_id, &message) {
            Ok(_) => Ok(message),
            Err(e) => {
                assert(message@.id.len() == 16 && !storable(message@));
                Err(e)
            },
        }
    }

    /// Takes a message out.
    pub fn delete_message(&mut self, conversation_id: [u8; 16], message_id: &[u8]) -> (done: Result<()>)
        ensures
            done is Ok,
            final(self)@ == old(self)@.without_records(
                seq![message_name(conversation_id@, message_id@)],
            ),
    {
        let name: Vec<u8> = message_key(conversation_id, message_id);
        self.delete(name.as_slice());
        Ok(())
    }

    /// How many message records of a conversation `list_messages` passes over, for the log.
    pub fn unreadable_messages(&self, conversation_id: [u8; 16]) -> (n: usize)
        ensures
            n == listing(self@.records, conversation_prefix(conversation_id@)).len() - conversation(
                self@,
                conversation_id@,
            ).len(),
    {
        let names: Vec<Vec<u8>> = self.keys_with_prefix(
            message_key_prefix(conversation_id).as_slice(),
        );
        let ghost list = names_view(names@);
        let mut n: usize = 0;
        let mut i: usize = 0;
        assert(list.take(0) =~= Seq::<Seq<u8>>::empty());
        while i < names.len()
            invariant
                i <= names@.len(),
                n <= i,
                list == names_view(names@),
                n == i - readable_messages(self@, list.take(i as int)).len(),
            decreases names@.len() - i,
        {
            proof {
                assert(list.take(i + 1).drop_last() =~= list.take(i as int));
                assert(list.take(i + 1).last() == names@[i as int]@);
            }
            let readable: bool = match self.get_encrypted(Scope::Content, names[i].as_slice()) {
                Ok(Some(bytes)) => decode_message(bytes.as_slice()).is_ok(),
                _ => false,
            };
            if !readable {
                n = n + 1;
            }
            i = i + 1;
        }
        proof {
            assert(list.take(i as int) =~= list);
            law_listing_is_in_order(readable_messages(self@, list));
        }
        n
    }

    /// The messages of a conversation, oldest first. A record that cannot be read is passed
    /// over, so that it costs none of the others.
    pub fn list_messages(&self, conversation_id: [u8; 16]) -> (messages: Result<Vec<Message>>)
        ensures
            messages matches Ok(list) && messages_view(list@) == conversation(
                self@,
                conversation_id@,
            ),
    {
        let names: Vec<Vec<u8>> = self.keys_with_prefix(
            message_key_prefix(conversation_id).as_slice(),
        );
        let ghost list = names_view(names@);
        let mut messages: Vec<Message> = Vec::new();
        let mut i: usize = 0;
        assert(list.take(0) =~= Seq::<Seq<u8>>::empty());
        assert(messages_view(messages@) =~= readable_messages(self@, list.take(0)));
        while i < names.len()
            invariant
                i <= names@.len(),
                list == names_view(names@),
                messages_view(messages@) == readable_messages(self@, list.take(i as int)),
            decreases names@.len() - i,
        {
            let ghost before = messages_view(messages@);
            proof {
                assert(list.take(i + 1).drop_last() =~= list.take(i as int));
                assert(list.take(i + 1).last() == names@[i as int]@);
            }
            if let Ok(Some(bytes)) = self.get_encrypted(Scope::Content, names[i].as_slice()) {
                if let Ok(message) = decode_message(bytes.as_slice()) {
                    let ghost view = message@;
                    messages.push(message);
                    assert(messages_view(messages@) =~= before.push(view));
                }
            }
            i = i + 1;
        }
        assert(list.take(i as int) =~= list);
        sort_messages(&mut messages);
        Ok(messages)
    }

    /// Marks the message that an acknowledgement names, by its chain and its place there, as
    /// delivered. Nothing changes where there is no such message that waits for one.
    pub fn mark_message_delivered(
        &mut self,
        conversation_id: [u8; 16],
        dh_pub: &[u8],
        acked_n: u32,
    ) -> (marked: Result<Option<Message>>)
        ensures
            ({
                let list = conversation(old(self)@, conversation_id@);
                match marked {
                    Ok(None) => final(self)@ == old(self)@ && forall|i: int|
                        0 <= i < list.len() ==> !acked_by(#[trigger] list[i], dh_pub@, acked_n),
                    Ok(Some(m)) => stores_message(
                        old(self)@,
                        final(self)@,
                        conversation_id@,
                        m@,
                    ) && exists|i: int| #[trigger]
                        first_acked(list, dh_pub@, acked_n, i) && m@ == acknowledged(list[i]),
                    Err(e) => e is EncryptionFailed && final(self)@ == old(self)@ && exists|i: int| #[trigger]
                        first_acked(list, dh_pub@, acked_n, i) && !storable(acknowledged(list[i])),
                }
            }),
            all_fit(conversation(old(self)@, conversation_id@)) ==> marked is Ok,
    {
        let ghost list = conversation(self@, conversation_id@);
        let mut messages: Vec<Message> = self.list_messages(conversation_id)?;
        let mut i: usize = 0;
        while i < messages.len()
            invariant
                i <= messages@.len(),
                list == messages_view(messages@),
                list == conversation(old(self)@, conversation_id@),
                self@ == old(self)@,
                forall|j: int| 0 <= j < i ==> !acked_by(#[trigger] list[j], dh_pub@, acked_n),
            decreases messages@.len() - i,
        {
            assert(list[i as int] == messages@[i as int]@);
            if is_acked_by(&messages[i], dh_pub, acked_n) {
                assert(first_acked(list, dh_pub@, acked_n, i as int));
                let mut message: Message = messages.remove(i);
                message.delivered = true;
                message.uncertain = false;
                assert(message@ == acknowledged(list[i as int]));
                return match self.save_message(conversation_id, &message) {
                    Ok(_) => Ok(Some(message)),
                    Err(e) => Err(e),
                };
            }
            i = i + 1;
        }
        Ok(None)
    }

    /// Marks every message of a chain up to the `highest_n`th as delivered, and hands out
    /// those that were not before, oldest first.
    pub fn mark_messages_delivered_up_to(
        &mut self,
        conversation_id: [u8; 16],
        dh_pub: &[u8],
        highest_n: u32,
    ) -> (marked: Result<Vec<Message>>)
        ensures
            ({
                let due = newly_delivered(old(self)@, conversation_id@, dh_pub@, highest_n);
                &&& store_outcome(
                    old(self)@,
                    final(self)@,
                    conversation_id@,
                    due,
                    match marked {
                        Ok(_) => Ok(()),
                        Err(e) => Err(e@),
                    },
                )
                &&& marked matches Ok(list) ==> messages_view(list@) == due
            }),
            all_fit(conversation(old(self)@, conversation_id@)) ==> marked is Ok,
    {
        let mut messages: Vec<Message> = self.list_messages(conversation_id)?;
        let ghost listed = messages_view(messages@);
        keep_covered(&mut messages, dh_pub, highest_n);
        proof {
            if all_fit(listed) {
                lemma_marked_fit(
                    listed,
                    |m: MessageView| covered_by(m, dh_pub@, highest_n),
                    |m: MessageView| acknowledged(m),
                );
            }
        }
        match self.save_messages(conversation_id, &messages) {
            Ok(_) => Ok(messages),
            Err(e) => Err(e),
        }
    }

    /// Marks every message that waits for an acknowledgement as uncertain, and says how many
    /// were not before.
    pub fn mark_undelivered_uncertain(&mut self, conversation_id: [u8; 16]) -> (marked: Result<usize>)
        ensures
            ({
                let due = newly_uncertain(old(self)@, conversation_id@);
                &&& store_outcome(
                    old(self)@,
                    final(self)@,
                    conversation_id@,
                    due,
                    match marked {
                        Ok(_) => Ok(()),
                        Err(e) => Err(e@),
                    },
                )
                &&& marked matches Ok(n) ==> n == due.len()
            }),
            all_fit(conversation(old(self)@, conversation_id@)) ==> marked is Ok,
    {
        let mut messages: Vec<Message> = self.list_messages(conversation_id)?;
        let ghost listed = messages_view(messages@);
        keep_doubted(&mut messages);
        proof {
            if all_fit(listed) {
                lemma_marked_fit(
                    listed,
                    |m: MessageView| becomes_uncertain(m),
                    |m: MessageView| doubted(m),
                );
            }
        }
        match self.save_messages(conversation_id, &messages) {
            Ok(_) => Ok(messages.len()),
            Err(e) => Err(e),
        }
    }
}

// Text for logs.

pub open spec fn bool_text(b: bool) -> Seq<char> {
    if b {
        "true"@
    } else {
        "false"@
    }
}

/// What a log may say of a message with a content of `content_len` bytes. It does not depend on
/// the content.
pub open spec fn log_text(m: MessageView, content_len: nat) -> Seq<char> {
    "Message { id: \""@ + hex(m.id) + "\", sender_is_local: "@ + bool_text(m.sender_is_local)
        + ", content: \"<"@ + decimal(content_len) + " bytes redacted>\", timestamp: "@ + decimal(
        m.timestamp as nat,
    ) + ", sequence: "@ + decimal(m.sequence as nat) + ", send_n: "@ + (match m.send_n {
        Some(n) => "Some("@ + decimal(n as nat) + ")"@,
        None => "None"@,
    }) + ", send_dh_pub: "@ + (match m.send_dh_pub {
        Some(chain) => "Some(\""@ + hex(chain) + "\")"@,
        None => "None"@,
    }) + ", delivered: "@ + bool_text(m.delivered) + ", uncertain: "@ + bool_text(m.uncertain)
        + " }"@
}

fn push_bool(text: &mut String, b: bool)
    ensures
        final(text)@ == old(text)@ + bool_text(b),
{
    if b {
        text.append("true");
    } else {
        text.append("false");
    }
}

impl Message {
    /// What a log may say of the message: everything but the content, of which only the length.
    pub fn debug_text(&self) -> (text: String)
        ensures
            text@ == log_text(self@, self@.content.len()),
    {
        let mut text: String = "Message { id: \"".to_owned();
        crate::hex::push_hex(&mut text, self.id.as_slice());
        text.append("\", sender_is_local: ");
        push_bool(&mut text, self.sender_is_local);
        text.append(", content: \"<");
        push_decimal(&mut text, self.content.len() as u64);
        text.append(" bytes redacted>\", timestamp: ");
        push_decimal(&mut text, self.timestamp);
        text.append(", sequence: ");
        push_decimal(&mut text, self.sequence);
        text.append(", send_n: ");
        let ghost so_far = text@;
        match self.send_n {
            Some(n) => {
                text.append("Some(");
                push_decimal(&mut text, n as u64);
                text.append(")");
                assert(text@ =~= so_far + ("Some("@ + decimal(n as nat) + ")"@));
            },
            None => text.append("None"),
        }
        text.append(", send_dh_pub: ");
        let ghost so_far = text@;
        match &self.send_dh_pub {
            Some(chain) => {
                text.append("Some(\"");
                crate::hex::push_hex(&mut text, chain.as_slice());
                text.append("\")");
                assert(text@ =~= so_far + ("Some(\""@ + hex(chain@) + "\")"@));
            },
            None => text.append("None"),
        }
        text.append(", delivered: ");
        push_bool(&mut text, self.delivered);
        text.append(", uncertain: ");
        push_bool(&mut text, self.uncertain);
        text.append(" }");
        text
    }
}

/// Two messages that differ in content alone, and not in its length, are logged the same.
pub proof fn law_logs_never_show_content(a: MessageView, b: MessageView)
    requires
        a.content.len() == b.content.len(),
        a == (MessageView { content: a.content, ..b }),
    ensures
        log_text(a, a.content.len()) == log_text(b, b.content.len()),
{
}

} // verus!
