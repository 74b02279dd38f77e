//! Contact records, one for each peer, by fingerprint.

use vstd::prelude::*;
use vstd::utf8::encode_utf8;
use crate::bytes::copy_bytes;
use crate::hex::hex;
use super::cbor::{
    as_bool, as_bytes, as_optional, as_text, as_uint, bytes_value, cbor_bytes, cbor_item,
    check_names, decode_item, distinct, encode_item, field, find_field, is_nothing,
    lemma_record_fields, lemma_record_fits, name_bytes, names_ok, optional_bytes, optional_bytes_value, optional_uint,
    pairs_view, part_fits, plain, record_of, take_bool, take_bytes, take_text, take_uint, text_key, Field,
    FieldView, Item, ItemView, Scalar, ScalarView, MAX_FIELD_NAME_LEN,
    MAX_PART_LEN,
};
use super::crypto::encryptable;
use super::db::{listing, names_view, push_hex_bytes, stores, Db, DbView, Scope};
use super::error::{Error, ErrorView, Result};

verus! {

/// How far a contact has come through verification.
#[derive(Debug, Clone, Copy, PartialEq, Eq, Structural)]
pub enum VerificationState {
    /// A session exists, but nobody has compared fingerprints yet.
    Pending,
    /// The fingerprint is confirmed.
    Verified,
    /// The fingerprint did not match, or has changed since.
    Mismatch,
}

#[derive(Debug, Clone)]
pub struct Contact {
    pub fingerprint: Vec<u8>,
    pub username: Option<String>,
    pub discriminator: Option<u16>,
    pub verification_state: VerificationState,
    /// The mailbox that the conversation is addressed to.
    pub mailbox_id: Vec<u8>,
    pub created_at: u64,
    /// This side's own routing id for the conversation.
    pub local_routing_id: Vec<u8>,
    /// The peer's routing id, once it has announced one.
    pub peer_routing_id: Option<Vec<u8>>,
    /// This side asks for confirmation before it complies with a wipe request.
    pub wipe_ask_before_delete: bool,
    /// The peer's announced value of the same preference.
    pub peer_wipe_ask_before_delete: Option<bool>,
    /// This side also destroys the session when it complies with a wipe request.
    pub wipe_include_session: bool,
    /// The peer's announced value of the same preference.
    pub peer_wipe_include_session: Option<bool>,
    /// The peer has requested a wipe that waits for confirmation here.
    pub wipe_request_pending: bool,
    /// The time and the sequence number that this side had reached when it last announced its
    /// wipe policy to the peer.
    pub wipe_boundary_timestamp: Option<u64>,
    pub wipe_boundary_sequence: Option<u64>,
    /// The time and the sequence number that this side had reached when the peer's last
    /// announcement of its wipe policy arrived.
    pub peer_wipe_boundary_timestamp: Option<u64>,
    pub peer_wipe_boundary_sequence: Option<u64>,
}

pub struct ContactView {
    pub fingerprint: Seq<u8>,
    pub username: Option<Seq<char>>,
    pub discriminator: Option<u16>,
    pub verification_state: VerificationState,
    pub mailbox_id: Seq<u8>,
    pub created_at: u64,
    pub local_routing_id: Seq<u8>,
    pub peer_routing_id: Option<Seq<u8>>,
    pub wipe_ask_before_delete: bool,
    pub peer_wipe_ask_before_delete: Option<bool>,
    pub wipe_include_session: bool,
    pub peer_wipe_include_session: Option<bool>,
    pub wipe_request_pending: bool,
    pub wipe_boundary_timestamp: Option<u64>,
    pub wipe_boundary_sequence: Option<u64>,
    pub peer_wipe_boundary_timestamp: Option<u64>,
    pub peer_wipe_boundary_sequence: Option<u64>,
}

/// The text of an optional string.
pub open spec fn optional_text(text: Option<String>) -> Option<Seq<char>> {
    match text {
        Some(t) => Some(t@),
        None => None,
    }
}

impl View for Contact {
    type V = ContactView;

    open spec fn view(&self) -> ContactView {
        ContactView {
            fingerprint: self.fingerprint@,
            username: optional_text(self.username),
            discriminator: self.discriminator,
            verification_state: self.verification_state,
            mailbox_id: self.mailbox_id@,
            created_at: self.created_at,
            local_routing_id: self.local_routing_id@,
            peer_routing_id: optional_bytes(self.peer_routing_id),
            wipe_ask_before_delete: self.wipe_ask_before_delete,
            peer_wipe_ask_before_delete: self.peer_wipe_ask_before_delete,
            wipe_include_session: self.wipe_include_session,
            peer_wipe_include_session: self.peer_wipe_include_session,
            wipe_request_pending: self.wipe_request_pending,
            wipe_boundary_timestamp: self.wipe_boundary_timestamp,
            wipe_boundary_sequence: self.wipe_boundary_sequence,
            peer_wipe_boundary_timestamp: self.peer_wipe_boundary_timestamp,
            peer_wipe_boundary_sequence: self.peer_wipe_boundary_sequence,
        }
    }
}

pub open spec fn contacts_view(contacts: Seq<Contact>) -> Seq<ContactView> {
    contacts.map_values(|c: Contact| c@)
}

// The record of a contact.

/// The field names of a contact record.
pub open spec fn contact_field_names() -> Seq<Seq<char>> {
    seq![
        "fingerprint"@,
        "username"@,
        "discriminator"@,
        "verification_state"@,
        "mailbox_id"@,
        "created_at"@,
        "local_routing_id"@,
        "peer_routing_id"@,
        "wipe_ask_before_delete"@,
        "peer_wipe_ask_before_delete"@,
        "wipe_include_session"@,
        "peer_wipe_include_session"@,
        "wipe_request_pending"@,
        "wipe_boundary_timestamp"@,
        "wipe_boundary_sequence"@,
        "peer_wipe_boundary_timestamp"@,
        "peer_wipe_boundary_sequence"@,
    ]
}

/// A verification state in a record.
pub open spec fn state_text(state: VerificationState) -> Seq<char> {
    match state {
        VerificationState::Pending => "Pending"@,
        VerificationState::Verified => "Verified"@,
        VerificationState::Mismatch => "Mismatch"@,
    }
}

pub open spec fn optional_bool(b: Option<bool>) -> ScalarView {
    match b {
        Some(b) => ScalarView::Bool(b),
        None => ScalarView::Null,
    }
}

pub open spec fn optional_text_value(text: Option<Seq<char>>) -> ScalarView {
    match text {
        Some(t) => ScalarView::Text(t),
        None => ScalarView::Null,
    }
}

/// The field values of a contact record.
pub open spec fn contact_values(c: ContactView) -> Seq<ScalarView> {
    seq![
        ScalarView::Bytes(c.fingerprint),
        optional_text_value(c.username),
        optional_uint(
            match c.discriminator {
                Some(d) => Some(d as u64),
                None => None,
            },
        ),
        ScalarView::Text(state_text(c.verification_state)),
        ScalarView::Bytes(c.mailbox_id),
        ScalarView::Uint(c.created_at),
        ScalarView::Bytes(c.local_routing_id),
        optional_bytes_value(c.peer_routing_id),
        ScalarView::Bool(c.wipe_ask_before_delete),
        optional_bool(c.peer_wipe_ask_before_delete),
        ScalarView::Bool(c.wipe_include_session),
        optional_bool(c.peer_wipe_include_session),
        ScalarView::Bool(c.wipe_request_pending),
        optional_uint(c.wipe_boundary_timestamp),
        optional_uint(c.wipe_boundary_sequence),
        optional_uint(c.peer_wipe_boundary_timestamp),
        optional_uint(c.peer_wipe_boundary_sequence),
    ]
}

pub open spec fn contact_item(c: ContactView) -> ItemView {
    record_of(contact_field_names(), contact_values(c))
}

/// The verification state that a text stands for.
pub open spec fn state_of(text: Option<Seq<char>>) -> Option<VerificationState> {
    match text {
        Some(t) => if t == "Pending"@ {
            Some(VerificationState::Pending)
        } else if t == "Verified"@ {
            Some(VerificationState::Verified)
        } else if t == "Mismatch"@ {
            Some(VerificationState::Mismatch)
        } else {
            None
        },
        None => None,
    }
}

/// An optional number that may be missing from the record.
pub open spec fn loose_uint(f: FieldView, max: u64) -> Option<Option<u64>> {
    as_optional(f, true, as_uint(f, max))
}

/// An optional truth value that may be missing from the record.
pub open spec fn loose_bool(f: FieldView) -> Option<Option<bool>> {
    as_optional(f, true, as_bool(f))
}

/// An optional text that may be missing from the record.
pub open spec fn loose_text(f: FieldView) -> Option<Option<Seq<char>>> {
    as_optional(f, true, as_text(f))
}

/// The contact that a record holds.
pub open spec fn contact_of_fields(pairs: Seq<(ScalarView, ScalarView)>) -> Option<ContactView> {
    let peer_id = field(pairs, "peer_routing_id"@);
    let fingerprint = as_bytes(field(pairs, "fingerprint"@));
    let username = loose_text(field(pairs, "username"@));
    let discriminator = loose_uint(field(pairs, "discriminator"@), u16::MAX as u64);
    let state = state_of(as_text(field(pairs, "verification_state"@)));
    let mailbox_id = as_bytes(field(pairs, "mailbox_id"@));
    let created_at = as_uint(field(pairs, "created_at"@), u64::MAX);
    let local_id = as_bytes(field(pairs, "local_routing_id"@));
    let peer_id = as_optional(peer_id, false, as_bytes(peer_id));
    let ask = as_bool(field(pairs, "wipe_ask_before_delete"@));
    let peer_ask = loose_bool(field(pairs, "peer_wipe_ask_before_delete"@));
    let session = as_bool(field(pairs, "wipe_include_session"@));
    let peer_session = loose_bool(field(pairs, "peer_wipe_include_session"@));
    let pending = as_bool(field(pairs, "wipe_request_pending"@));
    let time = loose_uint(field(pairs, "wipe_boundary_timestamp"@), u64::MAX);
    let sequence = loose_uint(field(pairs, "wipe_boundary_sequence"@), u64::MAX);
    let peer_time = loose_uint(field(pairs, "peer_wipe_boundary_timestamp"@), u64::MAX);
    let peer_sequence = loose_uint(field(pairs, "peer_wipe_boundary_sequence"@), u64::MAX);
    if names_ok(pairs) && fingerprint is Some && username is Some && discriminator is Some
        && state is Some && mailbox_id is Some && created_at is Some && local_id is Some
        && peer_id is Some && ask is Some && peer_ask is Some && session is Some
        && peer_session is Some && pending is Some && time is Some && sequence is Some
        && peer_time is Some && peer_sequence is Some {
        Some(
            ContactView {
                fingerprint: fingerprint->0,
                username: username->0,
                discriminator: match discriminator->0 {
                    Some(d) => Some(d as u16),
                    None => None,
                },
                verification_state: state->0,
                mailbox_id: mailbox_id->0,
                created_at: created_at->0,
                local_routing_id: local_id->0,
                peer_routing_id: peer_id->0,
                wipe_ask_before_delete: ask->0,
                peer_wipe_ask_before_delete: peer_ask->0,
                wipe_include_session: session->0,
                peer_wipe_include_session: peer_session->0,
                wipe_request_pending: pending->0,
                wipe_boundary_timestamp: time->0,
                wipe_boundary_sequence: sequence->0,
                peer_wipe_boundary_timestamp: peer_time->0,
                peer_wipe_boundary_sequence: peer_sequence->0,
            },
        )
    } else {
        None
    }
}

/// The contact that an encoded record holds.
pub open spec fn contact_of(bytes: Seq<u8>) -> Option<ContactView> {
    match cbor_item(bytes) {
        Some(ItemView::Fields(pairs)) => contact_of_fields(pairs),
        _ => None,
    }
}

proof fn lemma_contact_names()
    ensures
        distinct(contact_field_names()),
        forall|i: int|
            0 <= i < contact_field_names().len() ==> encode_utf8(
                #[trigger] contact_field_names()[i],
            ).len() <= MAX_FIELD_NAME_LEN,
{
    reveal_strlit("fingerprint");
    reveal_strlit("username");
    reveal_strlit("discriminator");
    reveal_strlit("verification_state");
    reveal_strlit("mailbox_id");
    reveal_strlit("created_at");
    reveal_strlit("local_routing_id");
    reveal_strlit("peer_routing_id");
    reveal_strlit("wipe_ask_before_delete");
    reveal_strlit("peer_wipe_ask_before_delete");
    reveal_strlit("wipe_include_session");
    reveal_strlit("peer_wipe_include_session");
    reveal_strlit("wipe_request_pending");
    reveal_strlit("wipe_boundary_timestamp");
    reveal_strlit("wipe_boundary_sequence");
    reveal_strlit("peer_wipe_boundary_timestamp");
    reveal_strlit("peer_wipe_boundary_sequence");
    assert("mailbox_id"@[0] != "created_at"@[0]);
    assert("wipe_ask_before_delete"@[5] != "wipe_boundary_sequence"@[5]);
    assert("peer_wipe_ask_before_delete"@[10] != "peer_wipe_boundary_sequence"@[10]);
    assert("wipe_include_session"@[5] != "wipe_request_pending"@[5]);
    let names = contact_field_names();
    assert forall|i: int| 0 <= i < names.len() implies encode_utf8(#[trigger] names[i]).len()
        <= MAX_FIELD_NAME_LEN by {
        vstd::utf8::is_ascii_chars_encode_utf8(names[i]);
    }
}

proof fn lemma_state_text(state: VerificationState)
    ensures
        state_of(Some(state_text(state))) == Some(state),
{
    reveal_strlit("Pending");
    reveal_strlit("Verified");
    reveal_strlit("Mismatch");
    assert("Verified"@[0] != "Mismatch"@[0]);
    assert("Pending"@[0] != "Mismatch"@[0]);
}

proof fn lemma_contact_fields(c: ContactView)
    ensures
        ({
            let pairs = contact_item(c)->Fields_0;
            &&& field(pairs, "fingerprint"@) == FieldView::One(ScalarView::Bytes(c.fingerprint))
            &&& field(pairs, "username"@) == FieldView::One(optional_text_value(c.username))
            &&& field(pairs, "discriminator"@) == FieldView::One(optional_uint(
                match c.discriminator {
                    Some(d) => Some(d as u64),
                    None => None,
                },
            ))
            &&& field(pairs, "verification_state"@) == FieldView::One(
                ScalarView::Text(state_text(c.verification_state)),
            )
            &&& field(pairs, "mailbox_id"@) == FieldView::One(ScalarView::Bytes(c.mailbox_id))
            &&& field(pairs, "created_at"@) == FieldView::One(ScalarView::Uint(c.created_at))
            &&& field(pairs, "local_routing_id"@) == FieldView::One(
                ScalarView::Bytes(c.local_routing_id),
            )
            &&& field(pairs, "peer_routing_id"@) == FieldView::One(
                optional_bytes_value(c.peer_routing_id),
            )
            &&& field(pairs, "wipe_ask_before_delete"@) == FieldView::One(
                ScalarView::Bool(c.wipe_ask_before_delete),
            )
            &&& field(pairs, "peer_wipe_ask_before_delete"@) == FieldView::One(
                optional_bool(c.peer_wipe_ask_before_delete),
            )
            &&& field(pairs, "wipe_include_session"@) == FieldView::One(
                ScalarView::Bool(c.wipe_include_session),
            )
            &&& field(pairs, "peer_wipe_include_session"@) == FieldView::One(
                optional_bool(c.peer_wipe_include_session),
            )
            &&& field(pairs, "wipe_request_pending"@) == FieldView::One(
                ScalarView::Bool(c.wipe_request_pending),
            )
            &&& field(pairs, "wipe_boundary_timestamp"@) == FieldView::One(
                optional_uint(c.wipe_boundary_timestamp),
            )
            &&& field(pairs, "wipe_boundary_sequence"@) == FieldView::One(
                optional_uint(c.wipe_boundary_sequence),
            )
            &&& field(pairs, "peer_wipe_boundary_timestamp"@) == FieldView::One(
                optional_uint(c.peer_wipe_boundary_timestamp),
            )
            &&& field(pairs, "peer_wipe_boundary_sequence"@) == FieldView::One(
                optional_uint(c.peer_wipe_boundary_sequence),
            )
        }),
{
    let names = contact_field_names();
    let values = contact_values(c);
    let pairs = contact_item(c)->Fields_0;
    lemma_contact_names();
    assert(field(pairs, "fingerprint"@) == FieldView::One(ScalarView::Bytes(c.fingerprint))) by {
        lemma_record_fields(names, values, 0);
    }
    assert(field(pairs, "username"@) == FieldView::One(optional_text_value(c.username))) by {
        lemma_record_fields(names, values, 1);
    }
    assert(field(pairs, "discriminator"@) == FieldView::One(optional_uint(
            match c.discriminator {
                Some(d) => Some(d as u64),
                None => None,
            },
        ))) by {
        lemma_record_fields(names, values, 2);
    }
    assert(field(pairs, "verification_state"@) == FieldView::One(
        ScalarView::Text(state_text(c.verification_state)),
    )) by {
        lemma_record_fields(names, values, 3);
    }
    assert(field(pairs, "mailbox_id"@) == FieldView::One(ScalarView::Bytes(c.mailbox_id))) by {
        lemma_record_fields(names, values, 4);
    }
    assert(field(pairs, "created_at"@) == FieldView::One(ScalarView::Uint(c.created_at))) by {
        lemma_record_fields(names, values, 5);
    }
    assert(field(pairs, "local_routing_id"@) == FieldView::One(
        ScalarView::Bytes(c.local_routing_id),
    )) by {
        lemma_record_fields(names, values, 6);
    }
    assert(field(pairs, "peer_routing_id"@) == FieldView::One(
        optional_bytes_value(c.peer_routing_id),
    )) by {
        lemma_record_fields(names, values, 7);
    }
    assert(field(pairs, "wipe_ask_before_delete"@) == FieldView::One(
        ScalarView::Bool(c.wipe_ask_before_delete),
    )) by {
        lemma_record_fields(names, values, 8);
    }
    assert(field(pairs, "peer_wipe_ask_before_delete"@) == FieldView::One(
        optional_bool(c.peer_wipe_ask_before_delete),
    )) by {
        lemma_record_fields(names, values, 9);
    }
    assert(field(pairs, "wipe_include_session"@) == FieldView::One(
        ScalarView::Bool(c.wipe_include_session),
    )) by {
        lemma_record_fields(names, values, 10);
    }
    assert(field(pairs, "peer_wipe_include_session"@) == FieldView::One(
        optional_bool(c.peer_wipe_include_session),
    )) by {
        lemma_record_fields(names, values, 11);
    }
    assert(field(pairs, "wipe_request_pending"@) == FieldView::One(
        ScalarView::Bool(c.wipe_request_pending),
    )) by {
        lemma_record_fields(names, values, 12);
    }
    assert(field(pairs, "wipe_boundary_timestamp"@) == FieldView::One(
        optional_uint(c.wipe_boundary_timestamp),
    )) by {
        lemma_record_fields(names, values, 13);
    }
    assert(field(pairs, "wipe_boundary_sequence"@) == FieldView::One(
        optional_uint(c.wipe_boundary_sequence),
    )) by {
        lemma_record_fields(names, values, 14);
    }
    assert(field(pairs, "peer_wipe_boundary_timestamp"@) == FieldView::One(
        optional_uint(c.peer_wipe_boundary_timestamp),
    )) by {
        lemma_record_fields(names, values, 15);
    }
    assert(field(pairs, "peer_wipe_boundary_sequence"@) == FieldView::One(
        optional_uint(c.peer_wipe_boundary_sequence),
    )) by {
        lemma_record_fields(names, values, 16);
    }
}

proof fn lemma_contact_shape(c: ContactView)
    ensures
        names_ok(contact_item(c)->Fields_0),
        plain(contact_item(c)),
{
    let names = contact_field_names();
    let pairs = contact_item(c)->Fields_0;
    lemma_contact_names();
    assert forall|i: int| 0 <= i < pairs.len() implies (name_bytes((#[trigger] pairs[i]).0) matches Some(
        n,
    ) && n.len() <= MAX_FIELD_NAME_LEN) by {
        assert(pairs[i].0 == ScalarView::Text(names[i]));
    }
}

/// A contact's record reads back as the contact.
pub proof fn law_contact_record_round_trips(c: ContactView)
    ensures
        contact_item(c) matches ItemView::Fields(pairs) && contact_of_fields(pairs) == Some(c),
        plain(contact_item(c)),
{
    lemma_contact_fields(c);
    lemma_contact_shape(c);
    lemma_state_text(c.verification_state);
}

/// A contact's record has each field under its own name, and no other field.
pub proof fn law_a_contact_record_has_each_field(c: ContactView)
    ensures
        contact_item(c) matches ItemView::Fields(pairs) && {
            &&& pairs.len() == 17
            &&& field(pairs, "fingerprint"@) == FieldView::One(ScalarView::Bytes(c.fingerprint))
            &&& field(pairs, "username"@) == FieldView::One(
                match c.username {
                    Some(x) => ScalarView::Text(x),
                    None => ScalarView::Null,
                },
            )
            &&& field(pairs, "discriminator"@) == FieldView::One(
                match c.discriminator {
                    Some(x) => ScalarView::Uint(x as u64),
                    None => ScalarView::Null,
                },
            )
            &&& field(pairs, "verification_state"@) == FieldView::One(
                ScalarView::Text(
                    match c.verification_state {
                        VerificationState::Pending => "Pending"@,
                        VerificationState::Verified => "Verified"@,
                        VerificationState::Mismatch => "Mismatch"@,
                    },
                ),
            )
            &&& field(pairs, "mailbox_id"@) == FieldView::One(ScalarView::Bytes(c.mailbox_id))
            &&& field(pairs, "created_at"@) == FieldView::One(ScalarView::Uint(c.created_at))
            &&& field(pairs, "local_routing_id"@) == FieldView::One(ScalarView::Bytes(c.local_routing_id))
            &&& field(pairs, "peer_routing_id"@) == FieldView::One(
                match c.peer_routing_id {
                    Some(x) => ScalarView::Bytes(x),
                    None => ScalarView::Null,
                },
            )
            &&& field(pairs, "wipe_ask_before_delete"@) == FieldView::One(ScalarView::Bool(c.wipe_ask_before_delete))
            &&& field(pairs, "peer_wipe_ask_before_delete"@) == FieldView::One(
                match c.peer_wipe_ask_before_delete {
                    Some(x) => ScalarView::Bool(x),
                    None => ScalarView::Null,
                },
            )
            &&& field(pairs, "wipe_include_session"@) == FieldView::One(ScalarView::Bool(c.wipe_include_session))
            &&& field(pairs, "peer_wipe_include_session"@) == FieldView::One(
                match c.peer_wipe_include_session {
                    Some(x) => ScalarView::Bool(x),
                    None => ScalarView::Null,
                },
            )
            &&& field(pairs, "wipe_request_pending"@) == FieldView::One(ScalarView::Bool(c.wipe_request_pending))
            &&& field(pairs, "wipe_boundary_timestamp"@) == FieldView::One(
                match c.wipe_boundary_timestamp {
                    Some(x) => ScalarView::Uint(x),
                    None => ScalarView::Null,
                },
            )
            &&& field(pairs, "wipe_boundary_sequence"@) == FieldView::One(
                match c.wipe_boundary_sequence {
                    Some(x) => ScalarView::Uint(x),
                    None => ScalarView::Null,
                },
            )
            &&& field(pairs, "peer_wipe_boundary_timestamp"@) == FieldView::One(
                match c.peer_wipe_boundary_timestamp {
                    Some(x) => ScalarView::Uint(x),
                    None => ScalarView::Null,
                },
            )
            &&& field(pairs, "peer_wipe_boundary_sequence"@) == FieldView::One(
                match c.peer_wipe_boundary_sequence {
                    Some(x) => ScalarView::Uint(x),
                    None => ScalarView::Null,
                },
            )
        },
{
    let names = contact_field_names();
    let values = contact_values(c);
    lemma_contact_names();
    assert forall|i: int| 0 <= i < names.len() implies field(
        contact_item(c)->Fields_0,
        #[trigger] names[i],
    ) == FieldView::One(values[i]) by {
        lemma_record_fields(names, values, i);
    }
    assert(names[0] == "fingerprint"@ && names[1] == "username"@ && names[2] == "discriminator"@ && names[3] == "verification_state"@ && names[4] == "mailbox_id"@ && names[5] == "created_at"@ && names[6] == "local_routing_id"@ && names[7] == "peer_routing_id"@ && names[8] == "wipe_ask_before_delete"@ && names[9] == "peer_wipe_ask_before_delete"@ && names[10] == "wipe_include_session"@ && names[11] == "peer_wipe_include_session"@ && names[12] == "wipe_request_pending"@ && names[13] == "wipe_boundary_timestamp"@ && names[14] == "wipe_boundary_sequence"@ && names[15] == "peer_wipe_boundary_timestamp"@ && names[16] == "peer_wipe_boundary_sequence"@);
}

/// What is read of a contact's record comes from the fields of its names, and is read exactly
/// where they are of their kinds. The optional ones may be missing, but for the peer's routing
/// id.
pub proof fn law_a_contact_is_read_by_field(pairs: Seq<(ScalarView, ScalarView)>)
    ensures
        contact_of_fields(pairs) is Some <==> names_ok(pairs) && (field(pairs, "fingerprint"@) matches FieldView::One(ScalarView::Bytes(_))) && (match field(pairs, "username"@) {
            FieldView::Absent => true,
            FieldView::One(ScalarView::Null) => true,
            FieldView::One(ScalarView::Text(_)) => true,
            _ => false,
        }) && (match field(pairs, "discriminator"@) {
            FieldView::Absent => true,
            FieldView::One(ScalarView::Null) => true,
            FieldView::One(ScalarView::Uint(n)) => n <= u16::MAX,
            _ => false,
        }) && (field(pairs, "verification_state"@) matches FieldView::One(ScalarView::Text(t)) && (t == "Pending"@ || t == "Verified"@ || t == "Mismatch"@)) && (field(pairs, "mailbox_id"@) matches FieldView::One(ScalarView::Bytes(_))) && (field(pairs, "created_at"@) matches FieldView::One(ScalarView::Uint(_))) && (field(pairs, "local_routing_id"@) matches FieldView::One(ScalarView::Bytes(_))) && (match field(pairs, "peer_routing_id"@) {
            FieldView::Absent => false,
            FieldView::One(ScalarView::Null) => true,
            FieldView::One(ScalarView::Bytes(_)) => true,
            _ => false,
        }) && (field(pairs, "wipe_ask_before_delete"@) matches FieldView::One(ScalarView::Bool(_))) && (match field(pairs, "peer_wipe_ask_before_delete"@) {
            FieldView::Absent => true,
            FieldView::One(ScalarView::Null) => true,
            FieldView::One(ScalarView::Bool(_)) => true,
            _ => false,
        }) && (field(pairs, "wipe_include_session"@) matches FieldView::One(ScalarView::Bool(_))) && (match field(pairs, "peer_wipe_include_session"@) {
            FieldView::Absent => true,
            FieldView::One(ScalarView::Null) => true,
            FieldView::One(ScalarView::Bool(_)) => true,
            _ => false,
        }) && (field(pairs, "wipe_request_pending"@) matches FieldView::One(ScalarView::Bool(_))) && (match field(pairs, "wipe_boundary_timestamp"@) {
            FieldView::Absent => true,
            FieldView::One(ScalarView::Null) => true,
            FieldView::One(ScalarView::Uint(_)) => true,
            _ => false,
        }) && (match field(pairs, "wipe_boundary_sequence"@) {
            FieldView::Absent => true,
            FieldView::One(ScalarView::Null) => true,
            FieldView::One(ScalarView::Uint(_)) => true,
            _ => false,
        }) && (match field(pairs, "peer_wipe_boundary_timestamp"@) {
            FieldView::Absent => true,
            FieldView::One(ScalarView::Null) => true,
            FieldView::One(ScalarView::Uint(_)) => true,
            _ => false,
        }) && (match field(pairs, "peer_wipe_boundary_sequence"@) {
            FieldView::Absent => true,
            FieldView::One(ScalarView::Null) => true,
            FieldView::One(ScalarView::Uint(_)) => true,
            _ => false,
        }),
        contact_of_fields(pairs) matches Some(c) ==> {
            &&& field(pairs, "fingerprint"@) == FieldView::One(ScalarView::Bytes(c.fingerprint))
            &&& match c.username {
                Some(x) => field(pairs, "username"@) == FieldView::One(ScalarView::Text(x)),
                None => !(field(pairs, "username"@) matches FieldView::One(ScalarView::Text(_))),
            }
            &&& match c.discriminator {
                Some(x) => field(pairs, "discriminator"@) == FieldView::One(ScalarView::Uint(x as u64)),
                None => !(field(pairs, "discriminator"@) matches FieldView::One(ScalarView::Uint(_))),
            }
            &&& field(pairs, "verification_state"@) == FieldView::One(
                ScalarView::Text(
                    match c.verification_state {
                        VerificationState::Pending => "Pending"@,
                        VerificationState::Verified => "Verified"@,
                        VerificationState::Mismatch => "Mismatch"@,
                    },
                ),
            )
            &&& field(pairs, "mailbox_id"@) == FieldView::One(ScalarView::Bytes(c.mailbox_id))
            &&& field(pairs, "created_at"@) == FieldView::One(ScalarView::Uint(c.created_at))
            &&& field(pairs, "local_routing_id"@) == FieldView::One(ScalarView::Bytes(c.local_routing_id))
            &&& match c.peer_routing_id {
                Some(x) => field(pairs, "peer_routing_id"@) == FieldView::One(ScalarView::Bytes(x)),
                None => !(field(pairs, "peer_routing_id"@) matches FieldView::One(ScalarView::Bytes(_))),
            }
            &&& field(pairs, "wipe_ask_before_delete"@) == FieldView::One(ScalarView::Bool(c.wipe_ask_before_delete))
            &&& match c.peer_wipe_ask_before_delete {
                Some(x) => field(pairs, "peer_wipe_ask_before_delete"@) == FieldView::One(ScalarView::Bool(x)),
                None => !(field(pairs, "peer_wipe_ask_before_delete"@) matches FieldView::One(ScalarView::Bool(_))),
            }
            &&& field(pairs, "wipe_include_session"@) == FieldView::One(ScalarView::Bool(c.wipe_include_session))
            &&& match c.peer_wipe_include_session {
                Some(x) => field(pairs, "peer_wipe_include_session"@) == FieldView::One(ScalarView::Bool(x)),
                None => !(field(pairs, "peer_wipe_include_session"@) matches FieldView::One(ScalarView::Bool(_))),
            }
            &&& field(pairs, "wipe_request_pending"@) == FieldView::One(ScalarView::Bool(c.wipe_request_pending))
            &&& match c.wipe_boundary_timestamp {
                Some(x) => field(pairs, "wipe_boundary_timestamp"@) == FieldView::One(ScalarView::Uint(x)),
                None => !(field(pairs, "wipe_boundary_timestamp"@) matches FieldView::One(ScalarView::Uint(_))),
            }
            &&& match c.wipe_boundary_sequence {
                Some(x) => field(pairs, "wipe_boundary_sequence"@) == FieldView::One(ScalarView::Uint(x)),
                None => !(field(pairs, "wipe_boundary_sequence"@) matches FieldView::One(ScalarView::Uint(_))),
            }
            &&& match c.peer_wipe_boundary_timestamp {
                Some(x) => field(pairs, "peer_wipe_boundary_timestamp"@) == FieldView::One(ScalarView::Uint(x)),
                None => !(field(pairs, "peer_wipe_boundary_timestamp"@) matches FieldView::One(ScalarView::Uint(_))),
            }
            &&& match c.peer_wipe_boundary_sequence {
                Some(x) => field(pairs, "peer_wipe_boundary_sequence"@) == FieldView::One(ScalarView::Uint(x)),
                None => !(field(pairs, "peer_wipe_boundary_sequence"@) matches FieldView::One(ScalarView::Uint(_))),
            }
        },
{
}

/// A contact is read field by field, and contacts in order.
pub proof fn law_contacts_are_seen_by_field(contacts: Seq<Contact>, i: int)
    requires
        0 <= i < contacts.len(),
    ensures
        contacts_view(contacts).len() == contacts.len(),
        contacts_view(contacts)[i].fingerprint == contacts[i].fingerprint@,
        match contacts[i].username {
            Some(x) => contacts_view(contacts)[i].username == Some(x@),
            None => contacts_view(contacts)[i].username is None,
        },
        contacts_view(contacts)[i].discriminator == contacts[i].discriminator,
        contacts_view(contacts)[i].verification_state == contacts[i].verification_state,
        contacts_view(contacts)[i].mailbox_id == contacts[i].mailbox_id@,
        contacts_view(contacts)[i].created_at == contacts[i].created_at,
        contacts_view(contacts)[i].local_routing_id == contacts[i].local_routing_id@,
        match contacts[i].peer_routing_id {
            Some(x) => contacts_view(contacts)[i].peer_routing_id == Some(x@),
            None => contacts_view(contacts)[i].peer_routing_id is None,
        },
        contacts_view(contacts)[i].wipe_ask_before_delete == contacts[i].wipe_ask_before_delete,
        contacts_view(contacts)[i].peer_wipe_ask_before_delete == contacts[i].peer_wipe_ask_before_delete,
        contacts_view(contacts)[i].wipe_include_session == contacts[i].wipe_include_session,
        contacts_view(contacts)[i].peer_wipe_include_session == contacts[i].peer_wipe_include_session,
        contacts_view(contacts)[i].wipe_request_pending == contacts[i].wipe_request_pending,
        contacts_view(contacts)[i].wipe_boundary_timestamp == contacts[i].wipe_boundary_timestamp,
        contacts_view(contacts)[i].wipe_boundary_sequence == contacts[i].wipe_boundary_sequence,
        contacts_view(contacts)[i].peer_wipe_boundary_timestamp == contacts[i].peer_wipe_boundary_timestamp,
        contacts_view(contacts)[i].peer_wipe_boundary_sequence == contacts[i].peer_wipe_boundary_sequence,
{
}

fn optional_uint_scalar(n: Option<u64>) -> (value: Scalar)
    ensures
        value@ == optional_uint(n),
{
    match n {
        Some(n) => Scalar::Uint(n),
        None => Scalar::Null,
    }
}

fn optional_bool_scalar(b: Option<bool>) -> (value: Scalar)
    ensures
        value@ == optional_bool(b),
{
    match b {
        Some(b) => Scalar::Bool(b),
        None => Scalar::Null,
    }
}

fn state_name(state: VerificationState) -> (name: String)
    ensures
        name@ == state_text(state),
{
    match state {
        VerificationState::Pending => "Pending".to_owned(),
        VerificationState::Verified => "Verified".to_owned(),
        VerificationState::Mismatch => "Mismatch".to_owned(),
    }
}

/// Whether no part of a contact is so long that storing it could fail.
pub open spec fn contact_fits(c: ContactView) -> bool {
    &&& c.fingerprint.len() <= MAX_PART_LEN
    &&& c.username matches Some(name) ==> encode_utf8(name).len() <= MAX_PART_LEN
    &&& c.mailbox_id.len() <= MAX_PART_LEN
    &&& c.local_routing_id.len() <= MAX_PART_LEN
    &&& c.peer_routing_id matches Some(id) ==> id.len() <= MAX_PART_LEN
}

proof fn lemma_contact_fits(c: ContactView)
    requires
        contact_fits(c),
    ensures
        super::cbor::item_size(contact_item(c)) <= super::crypto::MAX_PLAINTEXT_LEN,
{
    lemma_contact_names();
    let values = contact_values(c);
    assert(encode_utf8(state_text(c.verification_state)).len() <= 8) by {
        reveal_strlit("Pending");
        reveal_strlit("Verified");
        reveal_strlit("Mismatch");
        vstd::utf8::is_ascii_chars_encode_utf8(state_text(c.verification_state));
    }
    assert forall|i: int| 0 <= i < values.len() implies part_fits(#[trigger] values[i]) by {}
    lemma_record_fits(contact_field_names(), values);
}

/// The encoded record of a contact.
pub fn encode_contact(contact: &Contact) -> (bytes: Vec<u8>)
    ensures
        bytes@ == cbor_bytes(contact_item(contact@)),
        contact_of(bytes@) == Some(contact@),
        contact_fits(contact@) ==> contact_storable(contact@),
{
    let mut pairs: Vec<(Scalar, Scalar)> = Vec::new();
    pairs.push((text_key("fingerprint"), bytes_value(&contact.fingerprint)));
    let username: Scalar = match &contact.username {
        Some(name) => Scalar::Text(name.clone()),
        None => Scalar::Null,
    };
    pairs.push((text_key("username"), username));
    let discriminator: Scalar = match contact.discriminator {
        Some(d) => Scalar::Uint(d as u64),
        None => Scalar::Null,
    };
    pairs.push((text_key("discriminator"), discriminator));
    let state: Scalar = Scalar::Text(state_name(contact.verification_state));
    pairs.push((text_key("verification_state"), state));
    pairs.push((text_key("mailbox_id"), bytes_value(&contact.mailbox_id)));
    pairs.push((text_key("created_at"), Scalar::Uint(contact.created_at)));
    pairs.push((text_key("local_routing_id"), bytes_value(&contact.local_routing_id)));
    let peer_id: Scalar = match &contact.peer_routing_id {
        Some(id) => bytes_value(id),
        None => Scalar::Null,
    };
    pairs.push((text_key("peer_routing_id"), peer_id));
    pairs.push(
        (text_key("wipe_ask_before_delete"), Scalar::Bool(contact.wipe_ask_before_delete)),
    );
    pairs.push(
        (
            text_key("peer_wipe_ask_before_delete"),
            optional_bool_scalar(contact.peer_wipe_ask_before_delete),
        ),
    );
    pairs.push((text_key("wipe_include_session"), Scalar::Bool(contact.wipe_include_session)));
    pairs.push(
        (
            text_key("peer_wipe_include_session"),
            optional_bool_scalar(contact.peer_wipe_include_session),
        ),
    );
    pairs.push((text_key("wipe_request_pending"), Scalar::Bool(contact.wipe_request_pending)));
    pairs.push(
        (
            text_key("wipe_boundary_timestamp"),
            optional_uint_scalar(contact.wipe_boundary_timestamp),
        ),
    );
    pairs.push(
        (text_key("wipe_boundary_sequence"), optional_uint_scalar(contact.wipe_boundary_sequence)),
    );
    pairs.push(
        (
            text_key("peer_wipe_boundary_timestamp"),
            optional_uint_scalar(contact.peer_wipe_boundary_timestamp),
        ),
    );
    pairs.push(
        (
            text_key("peer_wipe_boundary_sequence"),
            optional_uint_scalar(contact.peer_wipe_boundary_sequence),
        ),
    );
    let item: Item = Item::Fields(pairs);
    proof {
        law_contact_record_round_trips(contact@);
        assert(pairs_view(pairs@) =~= contact_item(contact@)->Fields_0);
        if contact_fits(contact@) {
            lemma_contact_fits(contact@);
        }
    }
    encode_item(&item)
}

fn take_loose_uint(pairs: &Vec<(Scalar, Scalar)>, name: &str, max: u64) -> (value: Option<Option<u64>>)
    ensures
        value == loose_uint(field(pairs_view(pairs@), name@), max),
        value matches Some(Some(n)) ==> n <= max,
{
    let found: Field = find_field(pairs, name);
    if is_nothing(&found, true) {
        Some(None)
    } else {
        match take_uint(&found, max) {
            Some(n) => Some(Some(n)),
            None => None,
        }
    }
}

fn take_loose_bool(pairs: &Vec<(Scalar, Scalar)>, name: &str) -> (value: Option<Option<bool>>)
    ensures
        value == loose_bool(field(pairs_view(pairs@), name@)),
{
    let found: Field = find_field(pairs, name);
    if is_nothing(&found, true) {
        Some(None)
    } else {
        match take_bool(&found) {
            Some(b) => Some(Some(b)),
            None => None,
        }
    }
}

fn parse_state(text: &String) -> (state: Option<VerificationState>)
    ensures
        state == state_of(Some(text@)),
{
    let pending: String = "Pending".to_owned();
    let verified: String = "Verified".to_owned();
    let mismatch: String = "Mismatch".to_owned();
    if *text == pending {
        Some(VerificationState::Pending)
    } else if *text == verified {
        Some(VerificationState::Verified)
    } else if *text == mismatch {
        Some(VerificationState::Mismatch)
    } else {
        None
    }
}

fn contact_from(pairs: &Vec<(Scalar, Scalar)>) -> (contact: Option<Contact>)
    ensures
        contact is Some <==> contact_of_fields(pairs_view(pairs@)) is Some,
        contact matches Some(c) ==> contact_of_fields(pairs_view(pairs@)) == Some(c@),
{
    if !check_names(pairs) {
        return None;
    }
    let fingerprint: Vec<u8> = take_bytes(&find_field(pairs, "fingerprint"))?;
    let username_field: Field = find_field(pairs, "username");
    let username: Option<String> = if is_nothing(&username_field, true) {
        None
    } else {
        Some(take_text(&username_field)?)
    };
    let discriminator: Option<u16> = match take_loose_uint(pairs, "discriminator", u16::MAX as u64)? {
        Some(d) => Some(d as u16),
        None => None,
    };
    let state_field: String = take_text(&find_field(pairs, "verification_state"))?;
    let verification_state: VerificationState = parse_state(&state_field)?;
    let mailbox_id: Vec<u8> = take_bytes(&find_field(pairs, "mailbox_id"))?;
    let created_at: u64 = take_uint(&find_field(pairs, "created_at"), u64::MAX)?;
    let local_routing_id: Vec<u8> = take_bytes(&find_field(pairs, "local_routing_id"))?;
    let peer_field: Field = find_field(pairs, "peer_routing_id");
    let peer_routing_id: Option<Vec<u8>> = if is_nothing(&peer_field, false) {
        None
    } else {
        Some(take_bytes(&peer_field)?)
    };
    let wipe_ask_before_delete: bool = take_bool(&find_field(pairs, "wipe_ask_before_delete"))?;
    let peer_wipe_ask_before_delete: Option<bool> = take_loose_bool(
        pairs,
        "peer_wipe_ask_before_delete",
    )?;
    let wipe_include_session: bool = take_bool(&find_field(pairs, "wipe_include_session"))?;
    let peer_wipe_include_session: Option<bool> = take_loose_bool(
        pairs,
        "peer_wipe_include_session",
    )?;
    let wipe_request_pending: bool = take_bool(&find_field(pairs, "wipe_request_pending"))?;
    let wipe_boundary_timestamp: Option<u64> = take_loose_uint(
        pairs,
        "wipe_boundary_timestamp",
        u64::MAX,
    )?;
    let wipe_boundary_sequence: Option<u64> = take_loose_uint(
        pairs,
        "wipe_boundary_sequence",
        u64::MAX,
    )?;
    let peer_wipe_boundary_timestamp: Option<u64> = take_loose_uint(
        pairs,
        "peer_wipe_boundary_timestamp",
        u64::MAX,
    )?;
    let peer_wipe_boundary_sequence: Option<u64> = take_loose_uint(
        pairs,
        "peer_wipe_boundary_sequence",
        u64::MAX,
    )?;
    Some(
        Contact {
            fingerprint,
            username,
            discriminator,
            verification_state,
            mailbox_id,
            created_at,
            local_routing_id,
            peer_routing_id,
            wipe_ask_before_delete,
            peer_wipe_ask_before_delete,
            wipe_include_session,
            peer_wipe_include_session,
            wipe_request_pending,
            wipe_boundary_timestamp,
            wipe_boundary_sequence,
            peer_wipe_boundary_timestamp,
            peer_wipe_boundary_sequence,
        },
    )
}

/// The contact that an encoded record holds.
pub fn decode_contact(bytes: &[u8]) -> (contact: Result<Contact>)
    ensures
        match contact {
            Ok(c) => contact_of(bytes@) == Some(c@),
            Err(e) => contact_of(bytes@) is None && e@ == malformed_contact(),
        },
{
    match decode_item(bytes) {
        Some(Item::Fields(pairs)) => match contact_from(&pairs) {
            Some(contact) => Ok(contact),
            None => Err(
                Error::MalformedRecord("stored contact is not valid CBOR for this shape"),
            ),
        },
        _ => Err(Error::MalformedRecord("stored contact is not valid CBOR for this shape")),
    }
}

// Storing and reading.

pub open spec fn malformed_contact() -> ErrorView {
    ErrorView::MalformedRecord("stored contact is not valid CBOR for this shape")
}

pub open spec fn contact_prefix() -> Seq<u8> {
    encode_utf8("contact:"@)
}

/// The name of a contact record.
pub open spec fn contact_name(fingerprint: Seq<u8>) -> Seq<u8> {
    contact_prefix() + encode_utf8(hex(fingerprint))
}

/// The name of a contact record.
pub fn contact_key(fingerprint: &[u8]) -> (name: Vec<u8>)
    ensures
        name@ == contact_name(fingerprint@),
{
    let mut name: Vec<u8> = copy_bytes("contact:".as_bytes());
    push_hex_bytes(&mut name, fingerprint);
    name
}

/// Whether `after` is `before` with the contact stored, so that it reads back as itself.
pub open spec fn stores_contact(before: DbView, after: DbView, c: ContactView) -> bool {
    let bytes = cbor_bytes(contact_item(c));
    &&& stores(before, after, Scope::Contacts, contact_name(c.fingerprint), bytes)
    &&& contact_of(bytes) == Some(c)
}

/// Whether a contact is short enough to be stored.
pub open spec fn contact_storable(c: ContactView) -> bool {
    encryptable(cbor_bytes(contact_item(c)))
}

/// What is found of a contact.
pub type ContactRead = std::result::Result<Option<ContactView>, ErrorView>;

/// What is found of a contact.
pub open spec fn stored_contact(db: DbView, fingerprint: Seq<u8>) -> ContactRead {
    match db.read(Scope::Contacts, contact_name(fingerprint)) {
        Err(e) => Err(e),
        Ok(None) => Ok(None),
        Ok(Some(bytes)) => match contact_of(bytes) {
            Some(c) => Ok(Some(c)),
            None => Err(malformed_contact()),
        },
    }
}

/// The contact that is stored under a name, if it can be read.
pub open spec fn readable_contact(db: DbView, name: Seq<u8>) -> Option<ContactView> {
    match db.read(Scope::Contacts, name) {
        Ok(Some(bytes)) => contact_of(bytes),
        _ => None,
    }
}

/// The contacts that are stored under the names, in their order; those that cannot be read are
/// passed over.
pub open spec fn readable_contacts(db: DbView, names: Seq<Seq<u8>>) -> Seq<ContactView>
    decreases names.len(),
{
    if names.len() == 0 {
        Seq::empty()
    } else {
        match readable_contact(db, names.last()) {
            Some(c) => readable_contacts(db, names.drop_last()).push(c),
            None => readable_contacts(db, names.drop_last()),
        }
    }
}

/// The readable contacts, by fingerprint.
pub open spec fn contact_list(db: DbView) -> Seq<ContactView> {
    readable_contacts(db, listing(db.records, contact_prefix()))
}

/// A saved contact is found again.
pub proof fn law_saved_contacts_read_back(before: DbView, after: DbView, c: ContactView)
    requires
        stores_contact(before, after, c),
    ensures
        stored_contact(after, c.fingerprint) == ContactRead::Ok(Some(c)),
{
}

impl Db {
    /// Stores a contact under its fingerprint.
    pub fn save_contact(&mut self, contact: &Contact) -> (done: Result<()>)
        ensures
            match done {
                Ok(_) => contact_storable(contact@) && stores_contact(
                    old(self)@,
                    final(self)@,
                    contact@,
                ),
                Err(e) => !contact_storable(contact@) && e is EncryptionFailed && final(self)@
                    == old(self)@,
            },
            contact_fits(contact@) ==> done is Ok,
    {
        let bytes: Vec<u8> = encode_contact(contact);
        let name: Vec<u8> = contact_key(contact.fingerprint.as_slice());
        self.put_encrypted(Scope::Contacts, name.as_slice(), bytes.as_slice())
    }

    /// The contact with a fingerprint.
    pub fn load_contact(&self, fingerprint: &[u8]) -> (contact: Result<Option<Contact>>)
        ensures
            match contact {
                Ok(Some(c)) => stored_contact(self@, fingerprint@) == ContactRead::Ok(Some(c@)),
                Ok(None) => stored_contact(self@, fingerprint@) == ContactRead::Ok(None),
                Err(e) => stored_contact(self@, fingerprint@) == ContactRead::Err(e@),
            },
    {
        let name: Vec<u8> = contact_key(fingerprint);
        match self.get_encrypted(Scope::Contacts, name.as_slice()) {
            Err(e) => Err(e),
            Ok(None) => Ok(None),
            Ok(Some(bytes)) => match decode_contact(bytes.as_slice()) {
                Ok(contact) => Ok(Some(contact)),
                Err(e) => Err(e),
            },
        }
    }

    /// Takes a contact out.
    pub fn delete_contact(&mut self, fingerprint: &[u8]) -> (done: Result<()>)
        ensures
            done is Ok,
            final(self)@ == old(self)@.without_records(seq![contact_name(fingerprint@)]),
    {
        let name: Vec<u8> = contact_key(fingerprint);
        self.delete(name.as_slice());
        Ok(())
    }

    /// How many contact records `list_contacts` passes over, for the log.
    pub fn unreadable_contacts(&self) -> (n: usize)
        ensures
            n == listing(self@.records, contact_prefix()).len() - contact_list(self@).len(),
    {
        let names: Vec<Vec<u8>> = self.keys_with_prefix("contact:".as_bytes());
        let ghost list = names_view(names@);
        let mut n: usize = 0;
        let mut i: usize = 0;
        assert(list.take(0) =~= Seq::<Seq<u8>>::empty());
        while i < names.len()
            invariant
                i <= names@.len(),
                n <= i,
                list == names_view(names@),
                n == i - readable_contacts(self@, list.take(i as int)).len(),
            decreases names@.len() - i,
        {
            proof {
                assert(list.take(i + 1).drop_last() =~= list.take(i as int));
                assert(list.take(i + 1).last() == names@[i as int]@);
            }
            let readable: bool = match self.get_encrypted(Scope::Contacts, names[i].as_slice()) {
                Ok(Some(bytes)) => decode_contact(bytes.as_slice()).is_ok(),
                _ => false,
            };
            if !readable {
                n = n + 1;
            }
            i = i + 1;
        }
        assert(list.take(i as int) =~= list);
        n
    }

    /// The contacts, by fingerprint. A record that cannot be read is passed over, so that it
    /// costs none of the others.
    pub fn list_contacts(&self) -> (contacts: Result<Vec<Contact>>)
        ensures
            contacts matches Ok(list) && contacts_view(list@) == contact_list(self@),
    {
        let names: Vec<Vec<u8>> = self.keys_with_prefix("contact:".as_bytes());
        let ghost list = names_view(names@);
        let mut contacts: Vec<Contact> = Vec::new();
        let mut i: usize = 0;
        assert(list.take(0) =~= Seq::<Seq<u8>>::empty());
        assert(contacts_view(contacts@) =~= readable_contacts(self@, list.take(0)));
        while i < names.len()
            invariant
                i <= names@.len(),
                list == names_view(names@),
                contacts_view(contacts@) == readable_contacts(self@, list.take(i as int)),
            decreases names@.len() - i,
        {
            let ghost before = contacts_view(contacts@);
            proof {
                assert(list.take(i + 1).drop_last() =~= list.take(i as int));
                assert(list.take(i + 1).last() == names@[i as int]@);
            }
            if let Ok(Some(bytes)) = self.get_encrypted(Scope::Contacts, names[i].as_slice()) {
                if let Ok(contact) = decode_contact(bytes.as_slice()) {
                    let ghost view = contact@;
                    contacts.push(contact);
                    assert(contacts_view(contacts@) =~= before.push(view));
                }
            }
            i = i + 1;
        }
        assert(list.take(i as int) =~= list);
        Ok(contacts)
    }
}

} // verus!
