//! This user's own handle, and the handles that contacts announce for themselves.

use vstd::prelude::*;
use vstd::utf8::encode_utf8;
use crate::bytes::bytes_equal;
use crate::username::{has_only_allowed_characters, username_allowed};
use super::cbor::{
    as_text, as_uint, cbor_bytes, cbor_item, check_names, decode_item, distinct, encode_item, field,
    find_field, lemma_record_fields, lemma_record_fits, name_bytes, names_ok, pairs_view, part_fits, plain, record_of, take_text,
    take_uint, text_key, FieldView, Item, ItemView, Scalar, ScalarView, MAX_FIELD_NAME_LEN, MAX_PART_LEN,
};
use super::contacts::{
    contact_fits, contact_list, contact_storable, contacts_view, stored_contact, stores_contact, Contact,
    ContactView,
};
use super::crypto::encryptable;
use super::db::{stores, Db, DbView, Scope};
use super::error::{Error, ErrorView, Result};

verus! {

#[derive(Debug, Clone)]
pub struct OwnProfile {
    pub username: String,
    pub discriminator: u16,
    pub signed_prekey_id: u32,
}

pub struct ProfileView {
    pub username: Seq<char>,
    pub discriminator: u16,
    pub signed_prekey_id: u32,
}

impl View for OwnProfile {
    type V = ProfileView;

    open spec fn view(&self) -> ProfileView {
        ProfileView {
            username: self.username@,
            discriminator: self.discriminator,
            signed_prekey_id: self.signed_prekey_id,
        }
    }
}

/// The field names of a profile record.
pub open spec fn profile_field_names() -> Seq<Seq<char>> {
    seq!["username"@, "discriminator"@, "signed_prekey_id"@]
}

/// The field values of a profile record.
pub open spec fn profile_values(p: ProfileView) -> Seq<ScalarView> {
    seq![
        ScalarView::Text(p.username),
        ScalarView::Uint(p.discriminator as u64),
        ScalarView::Uint(p.signed_prekey_id as u64),
    ]
}

pub open spec fn profile_item(p: ProfileView) -> ItemView {
    record_of(profile_field_names(), profile_values(p))
}

/// The profile that a record holds.
pub open spec fn profile_of_fields(pairs: Seq<(ScalarView, ScalarView)>) -> Option<ProfileView> {
    let username = as_text(field(pairs, "username"@));
    let discriminator = as_uint(field(pairs, "discriminator"@), u16::MAX as u64);
    let signed_prekey_id = as_uint(field(pairs, "signed_prekey_id"@), u32::MAX as u64);
    if names_ok(pairs) && username is Some && discriminator is Some && signed_prekey_id is Some {
        Some(
            ProfileView {
                username: username->0,
                discriminator: discriminator->0 as u16,
                signed_prekey_id: signed_prekey_id->0 as u32,
            },
        )
    } else {
        None
    }
}

/// The profile that an encoded record holds.
pub open spec fn profile_of(bytes: Seq<u8>) -> Option<ProfileView> {
    match cbor_item(bytes) {
        Some(ItemView::Fields(pairs)) => profile_of_fields(pairs),
        _ => None,
    }
}

/// A profile's record reads back as the profile.
pub proof fn law_profile_record_round_trips(p: ProfileView)
    ensures
        profile_item(p) matches ItemView::Fields(pairs) && profile_of_fields(pairs) == Some(p),
        plain(profile_item(p)),
{
    reveal_strlit("username");
    reveal_strlit("discriminator");
    reveal_strlit("signed_prekey_id");
    let names = profile_field_names();
    let values = profile_values(p);
    assert(distinct(names));
    lemma_record_fields(names, values, 0);
    lemma_record_fields(names, values, 1);
    lemma_record_fields(names, values, 2);
    let pairs = profile_item(p)->Fields_0;
    assert forall|i: int| 0 <= i < pairs.len() implies (name_bytes((#[trigger] pairs[i]).0) matches Some(
        n,
    ) && n.len() <= MAX_FIELD_NAME_LEN) by {
        assert(pairs[i].0 == ScalarView::Text(names[i]));
        vstd::utf8::is_ascii_chars_encode_utf8(names[i]);
    }
}

/// A profile's record has each field under its own name; what is read of one comes from the
/// fields of those names.
pub proof fn law_a_profile_record_has_each_field(
    p: ProfileView,
    pairs: Seq<(ScalarView, ScalarView)>,
    own: OwnProfile,
)
    ensures
        profile_item(p) matches ItemView::Fields(written) && {
            &&& written.len() == 3
            &&& field(written, "username"@) == FieldView::One(ScalarView::Text(p.username))
            &&& field(written, "discriminator"@) == FieldView::One(
                ScalarView::Uint(p.discriminator as u64),
            )
            &&& field(written, "signed_prekey_id"@) == FieldView::One(
                ScalarView::Uint(p.signed_prekey_id as u64),
            )
        },
        profile_of_fields(pairs) is Some <==> names_ok(pairs) && (field(pairs, "username"@) matches FieldView::One(
            ScalarView::Text(_),
        )) && (field(pairs, "discriminator"@) matches FieldView::One(ScalarView::Uint(n)) && n
            <= u16::MAX) && (field(pairs, "signed_prekey_id"@) matches FieldView::One(
            ScalarView::Uint(n),
        ) && n <= u32::MAX),
        profile_of_fields(pairs) matches Some(read) ==> {
            &&& field(pairs, "username"@) == FieldView::One(ScalarView::Text(read.username))
            &&& field(pairs, "discriminator"@) == FieldView::One(
                ScalarView::Uint(read.discriminator as u64),
            )
            &&& field(pairs, "signed_prekey_id"@) == FieldView::One(
                ScalarView::Uint(read.signed_prekey_id as u64),
            )
        },
        own@.username == own.username@,
        own@.discriminator == own.discriminator,
        own@.signed_prekey_id == own.signed_prekey_id,
{
    reveal_strlit("username");
    reveal_strlit("discriminator");
    reveal_strlit("signed_prekey_id");
    let names = profile_field_names();
    let values = profile_values(p);
    assert(distinct(names));
    lemma_record_fields(names, values, 0);
    lemma_record_fields(names, values, 1);
    lemma_record_fields(names, values, 2);
}

proof fn lemma_profile_fits(p: ProfileView)
    requires
        encode_utf8(p.username).len() <= MAX_PART_LEN,
    ensures
        super::cbor::item_size(profile_item(p)) <= super::crypto::MAX_PLAINTEXT_LEN,
{
    reveal_strlit("username");
    reveal_strlit("discriminator");
    reveal_strlit("signed_prekey_id");
    let names = profile_field_names();
    let values = profile_values(p);
    assert forall|i: int| 0 <= i < names.len() implies encode_utf8(#[trigger] names[i]).len()
        <= MAX_FIELD_NAME_LEN by {
        vstd::utf8::is_ascii_chars_encode_utf8(names[i]);
    }
    assert forall|i: int| 0 <= i < values.len() implies part_fits(#[trigger] values[i]) by {}
    lemma_record_fits(names, values);
}

fn profile_from(pairs: &Vec<(Scalar, Scalar)>) -> (profile: Option<OwnProfile>)
    ensures
        profile is Some <==> profile_of_fields(pairs_view(pairs@)) is Some,
        profile matches Some(p) ==> profile_of_fields(pairs_view(pairs@)) == Some(p@),
{
    if !check_names(pairs) {
        return None;
    }
    let username: String = take_text(&find_field(pairs, "username"))?;
    let discriminator: u64 = take_uint(&find_field(pairs, "discriminator"), u16::MAX as u64)?;
    let prekey: u64 = take_uint(&find_field(pairs, "signed_prekey_id"), u32::MAX as u64)?;
    Some(
        OwnProfile {
            username,
            discriminator: discriminator as u16,
            signed_prekey_id: prekey as u32,
        },
    )
}

pub open spec fn own_profile_name() -> Seq<u8> {
    encode_utf8("own_profile"@)
}

/// Whether `after` is `before` with the profile stored, so that it reads back as itself.
pub open spec fn stores_profile(before: DbView, after: DbView, p: ProfileView) -> bool {
    let bytes = cbor_bytes(profile_item(p));
    &&& stores(before, after, Scope::Identity, own_profile_name(), bytes)
    &&& profile_of(bytes) == Some(p)
}

/// What is found of the user's own profile.
pub type ProfileRead = std::result::Result<Option<ProfileView>, ErrorView>;

/// What is found of the user's own profile.
pub open spec fn stored_profile(db: DbView) -> ProfileRead {
    match db.read(Scope::Identity, own_profile_name()) {
        Err(e) => Err(e),
        Ok(None) => Ok(None),
        Ok(Some(bytes)) => match profile_of(bytes) {
            Some(p) => Ok(Some(p)),
            None => Err(
                ErrorView::MalformedRecord(
                    "stored own profile is not valid CBOR for this shape",
                ),
            ),
        },
    }
}

/// A saved profile is found again.
pub proof fn law_saved_profile_reads_back(before: DbView, after: DbView, p: ProfileView)
    requires
        stores_profile(before, after, p),
    ensures
        stored_profile(after) == ProfileRead::Ok(Some(p)),
{
}

// What a contact announces.

/// Whether the contact goes by the handle.
pub open spec fn goes_by(contact: ContactView, username: Seq<char>, discriminator: u16) -> bool {
    contact.username == Some(username) && contact.discriminator == Some(discriminator)
}

/// Whether another of the contacts goes by the handle.
pub open spec fn claimed_by_another(
    contacts: Seq<ContactView>,
    fingerprint: Seq<u8>,
    username: Seq<char>,
    discriminator: u16,
) -> bool {
    exists|i: int|
        0 <= i < contacts.len() && (#[trigger] contacts[i]).fingerprint != fingerprint && goes_by(
            contacts[i],
            username,
            discriminator,
        )
}

/// The contact under its new handle.
pub open spec fn renamed(contact: ContactView, username: Seq<char>, discriminator: u16) -> ContactView {
    ContactView { username: Some(username), discriminator: Some(discriminator), ..contact }
}

/// Whether recording an announced handle did what it should. A handle with characters that
/// handles do not have, or that another contact goes by, is declined: nothing changes. What is
/// worth a notice is a change of a handle that was known before.
pub open spec fn profile_outcome(
    before: DbView,
    after: DbView,
    fingerprint: Seq<u8>,
    username: Seq<char>,
    discriminator: u16,
    result: std::result::Result<(ContactView, bool), ErrorView>,
) -> bool {
    match stored_contact(before, fingerprint) {
        Err(e) => after == before && result == std::result::Result::<
            (ContactView, bool),
            ErrorView,
        >::Err(e),
        Ok(None) => after == before && result == std::result::Result::<
            (ContactView, bool),
            ErrorView,
        >::Err(ErrorView::MalformedRecord("record_peer_profile: no such contact")),
        Ok(Some(c)) => if !username_allowed(username) || claimed_by_another(
            contact_list(before),
            c.fingerprint,
            username,
            discriminator,
        ) || goes_by(c, username, discriminator) {
            after == before && result == std::result::Result::<(ContactView, bool), ErrorView>::Ok(
                (c, false),
            )
        } else {
            let updated = renamed(c, username, discriminator);
            if contact_storable(updated) {
                stores_contact(before, after, updated) && result == std::result::Result::<
                    (ContactView, bool),
                    ErrorView,
                >::Ok((updated, c.username is Some))
            } else {
                after == before && result == std::result::Result::<
                    (ContactView, bool),
                    ErrorView,
                >::Err(ErrorView::EncryptionFailed)
            }
        },
    }
}

fn same_handle(contact: &Contact, username: &str, discriminator: u16) -> (same: bool)
    ensures
        same == goes_by(contact@, username@, discriminator),
{
    let same_name: bool = match &contact.username {
        Some(name) => {
            let same: bool = bytes_equal(name.as_str().as_bytes(), username.as_bytes());
            proof {
                vstd::utf8::encode_utf8_decode_utf8(name@);
                vstd::utf8::encode_utf8_decode_utf8(username@);
            }
            same
        },
        None => false,
    };
    let same_number: bool = match contact.discriminator {
        Some(d) => d == discriminator,
        None => false,
    };
    same_name && same_number
}

fn is_claimed_by_another(
    contacts: &Vec<Contact>,
    fingerprint: &[u8],
    username: &str,
    discriminator: u16,
) -> (claimed: bool)
    ensures
        claimed == claimed_by_another(
            contacts_view(contacts@),
            fingerprint@,
            username@,
            discriminator,
        ),
{
    let ghost list = contacts_view(contacts@);
    let mut i: usize = 0;
    while i < contacts.len()
        invariant
            i <= contacts@.len(),
            list == contacts_view(contacts@),
            forall|j: int|
                0 <= j < i ==> !((#[trigger] list[j]).fingerprint != fingerprint@ && goes_by(
                    list[j],
                    username@,
                    discriminator,
                )),
        decreases contacts@.len() - i,
    {
        assert(list[i as int] == contacts@[i as int]@);
        if !bytes_equal(contacts[i].fingerprint.as_slice(), fingerprint) && same_handle(
            &contacts[i],
            username,
            discriminator,
        ) {
            return true;
        }
        i = i + 1;
    }
    false
}

impl Db {
    /// Stores the user's own profile.
    pub fn save_own_profile(&mut self, profile: &OwnProfile) -> (done: Result<()>)
        ensures
            match done {
                Ok(_) => encryptable(cbor_bytes(profile_item(profile@))) && stores_profile(
                    old(self)@,
                    final(self)@,
                    profile@,
                ),
                Err(e) => !encryptable(cbor_bytes(profile_item(profile@))) && e is EncryptionFailed
                    && final(self)@ == old(self)@,
            },
            encode_utf8(profile@.username).len() <= MAX_PART_LEN ==> done is Ok,
    {
        let mut pairs: Vec<(Scalar, Scalar)> = Vec::new();
        pairs.push((text_key("username"), Scalar::Text(profile.username.clone())));
        pairs.push((text_key("discriminator"), Scalar::Uint(profile.discriminator as u64)));
        pairs.push((text_key("signed_prekey_id"), Scalar::Uint(profile.signed_prekey_id as u64)));
        let item: Item = Item::Fields(pairs);
        proof {
            law_profile_record_round_trips(profile@);
            assert(pairs_view(pairs@) =~= profile_item(profile@)->Fields_0);
            if encode_utf8(profile@.username).len() <= MAX_PART_LEN {
                lemma_profile_fits(profile@);
            }
        }
        let bytes: Vec<u8> = encode_item(&item);
        self.put_encrypted(Scope::Identity, "own_profile".as_bytes(), bytes.as_slice())
    }

    /// The user's own profile.
    pub fn load_own_profile(&self) -> (profile: Result<Option<OwnProfile>>)
        ensures
            match profile {
                Ok(Some(p)) => stored_profile(self@) == ProfileRead::Ok(Some(p@)),
                Ok(None) => stored_profile(self@) == ProfileRead::Ok(None),
                Err(e) => stored_profile(self@) == ProfileRead::Err(e@),
            },
    {
        match self.get_encrypted(Scope::Identity, "own_profile".as_bytes()) {
            Err(e) => Err(e),
            Ok(None) => Ok(None),
            Ok(Some(bytes)) => {
                let profile: Option<OwnProfile> = match decode_item(bytes.as_slice()) {
                    Some(Item::Fields(pairs)) => profile_from(&pairs),
                    _ => None,
                };
                match profile {
                    Some(profile) => Ok(Some(profile)),
                    None => Err(
                        Error::MalformedRecord(
                            "stored own profile is not valid CBOR for this shape",
                        ),
                    ),
                }
            },
        }
    }

    /// Records the handle that a contact has announced for itself. Returns the contact, and
    /// whether a handle that was known before has changed.
    pub fn record_peer_profile(&mut self, fingerprint: &[u8], username: String, discriminator: u16) -> (recorded:
        Result<(Contact, bool)>)
        ensures
            profile_outcome(
                old(self)@,
                final(self)@,
                fingerprint@,
                username@,
                discriminator,
                match recorded {
                    Ok(r) => Ok((r.0@, r.1)),
                    Err(e) => Err(e@),
                },
            ),
            stored_contact(old(self)@, fingerprint@) matches Ok(Some(c)) && contact_fits(
                renamed(c, username@, discriminator),
            ) ==> recorded is Ok,
    {
        let mut contact: Contact = match self.load_contact(fingerprint) {
            Ok(Some(contact)) => contact,
            Ok(None) => {
                return Err(Error::MalformedRecord("record_peer_profile: no such contact"));
            },
            Err(e) => {
                return Err(e);
            },
        };
        if !has_only_allowed_characters(username.as_str()) {
            return Ok((contact, false));
        }
        let contacts: Vec<Contact> = self.list_contacts()?;
        if is_claimed_by_another(
            &contacts,
            contact.fingerprint.as_slice(),
            username.as_str(),
            discriminator,
        ) {
            return Ok((contact, false));
        }
        if same_handle(&contact, username.as_str(), discriminator) {
            return Ok((contact, false));
        }
        let previously_known: bool = contact.username.is_some();
        contact.username = Some(username);
        contact.discriminator = Some(discriminator);
        match self.save_contact(&contact) {
            Ok(_) => Ok((contact, previously_known)),
            Err(e) => Err(e),
        }
    }
}

} // verus!
