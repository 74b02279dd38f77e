//! What the window is given to show.

use vstd::prelude::*;
use vstd::string::StrSliceExecFns;
use vstd::utf8::{encode_utf8, is_ascii_chars, valid_utf8};
use crate::hex::{encode, hex};
use crate::store::contacts::{Contact, ContactView, VerificationState};
use crate::store::messages::Message;
use crate::store::profile::OwnProfile;
use crate::text::{decimal_4, push_decimal_4};

verus! {

pub struct ContactDto {
    pub fingerprint: String,
    pub handle: String,
    pub initials: String,
    pub verified: bool,
    pub pending: bool,
    pub wipe_ask_before_delete: bool,
    pub wipe_include_session: bool,
    pub wipe_request_pending: bool,
}

pub struct MessageDto {
    pub id: String,
    pub sender_is_local: bool,
    pub content: String,
    pub timestamp: u64,
    pub delivered: bool,
}

pub struct OwnProfileDto {
    pub handle: String,
    pub username: String,
    pub discriminator: u16,
}

/// The server has given the user's handle away; the user goes by another one now.
pub struct OwnDiscriminatorChangeNoticeDto {
    pub old_handle: String,
    pub new_handle: String,
}

/// A contact goes by another handle now.
pub struct PeerProfileChangeNoticeDto {
    pub fingerprint: String,
    pub old_handle: String,
    pub new_handle: String,
}

/// `str::to_uppercase` of a text.
pub uninterp spec fn uppercase(text: Seq<char>) -> Seq<char>;

/// The upper case of an ASCII character.
pub open spec fn ascii_upper(c: char) -> char {
    if 'a' <= c && c <= 'z' {
        (c as u8 - 32) as char
    } else {
        c
    }
}

/// `str::to_uppercase`. Claimed of it: its result is a function of the text, called `uppercase`;
/// in ASCII text, letters go to their upper case and everything else stays.
#[verifier::external_body]
fn to_upper(text: &str) -> (upper: String)
    ensures
        upper@ == uppercase(text@),
        is_ascii_chars(text@) ==> upper@ == text@.map_values(|c: char| ascii_upper(c)),
{
    text.to_uppercase()
}

/// `String::from_utf8_lossy` of a byte string.
pub uninterp spec fn lossy_text(bytes: Seq<u8>) -> Seq<char>;

/// `String::from_utf8_lossy`. Claimed of it: its result is a function of the bytes, called
/// `lossy_text`; valid UTF-8 is taken as it is.
#[verifier::external_body]
fn from_utf8_lossy(bytes: &[u8]) -> (text: String)
    ensures
        text@ == lossy_text(bytes@),
        valid_utf8(bytes@) ==> encode_utf8(text@) == bytes@,
{
    String::from_utf8_lossy(bytes).into_owned()
}

/// A handle as it is shown: the username, a number sign, and at least four digits.
pub open spec fn handle_text(username: Seq<char>, discriminator: u16) -> Seq<char> {
    username + "#"@ + decimal_4(discriminator as nat)
}

/// A handle as it is shown.
pub fn handle_of(username: &str, discriminator: u16) -> (handle: String)
    ensures
        handle@ == handle_text(username@, discriminator),
{
    let mut handle: String = username.to_owned();
    handle.append("#");
    push_decimal_4(&mut handle, discriminator);
    handle
}

/// What is shown of the user's own profile.
pub fn to_own_profile_dto(profile: &OwnProfile) -> (dto: OwnProfileDto)
    ensures
        dto.handle@ == handle_text(profile@.username, profile@.discriminator),
        dto.username@ == profile@.username,
        dto.discriminator == profile@.discriminator,
{
    OwnProfileDto {
        handle: handle_of(profile.username.as_str(), profile.discriminator),
        username: profile.username.clone(),
        discriminator: profile.discriminator,
    }
}

/// Whether there is something to call a contact by: a handle, or enough of a fingerprint.
pub open spec fn nameable(contact: ContactView) -> bool {
    (contact.username is Some && contact.discriminator is Some) || contact.fingerprint.len() >= 4
}

/// What a contact is called: by its handle where it is known, otherwise by the first four bytes
/// of its fingerprint.
pub open spec fn contact_handle(contact: ContactView) -> Seq<char> {
    match (contact.username, contact.discriminator) {
        (Some(username), Some(discriminator)) => handle_text(username, discriminator),
        _ => hex(contact.fingerprint.take(4)),
    }
}

/// The first two characters of a text, or all of a shorter one.
pub open spec fn first_two(text: Seq<char>) -> Seq<char> {
    if text.len() < 2 {
        text
    } else {
        text.take(2)
    }
}

fn initials_of(handle: &str) -> (initials: String)
    ensures
        initials@ == uppercase(first_two(handle@)),
        is_ascii_chars(first_two(handle@)) ==> initials@ == first_two(handle@).map_values(
            |c: char| ascii_upper(c),
        ),
{
    let n: usize = handle.unicode_len();
    if n < 2 {
        to_upper(handle)
    } else {
        let start: &str = handle.substring_char(0, 2);
        assert(start@ =~= handle@.take(2));
        to_upper(start)
    }
}

/// What is shown of a contact.
pub fn to_contact_dto(contact: &Contact) -> (dto: ContactDto)
    requires
        nameable(contact@),
    ensures
        dto.fingerprint@ == hex(contact@.fingerprint),
        dto.handle@ == contact_handle(contact@),
        dto.initials@ == uppercase(first_two(contact_handle(contact@))),
        is_ascii_chars(first_two(contact_handle(contact@))) ==> dto.initials@ == first_two(
            contact_handle(contact@),
        ).map_values(|c: char| ascii_upper(c)),
        dto.verified == (contact@.verification_state is Verified),
        dto.pending == (contact@.verification_state is Pending),
        dto.wipe_ask_before_delete == contact@.wipe_ask_before_delete,
        dto.wipe_include_session == contact@.wipe_include_session,
        dto.wipe_request_pending == contact@.wipe_request_pending,
{
    let handle: String = match (&contact.username, contact.discriminator) {
        (Some(username), Some(discriminator)) => handle_of(username.as_str(), discriminator),
        _ => {
            let start: &[u8] = vstd::slice::slice_subrange(contact.fingerprint.as_slice(), 0, 4);
            assert(start@ =~= contact@.fingerprint.take(4));
            encode(start)
        },
    };
    let initials: String = initials_of(handle.as_str());
    ContactDto {
        fingerprint: encode(contact.fingerprint.as_slice()),
        handle,
        initials,
        verified: contact.verification_state == VerificationState::Verified,
        pending: contact.verification_state == VerificationState::Pending,
        wipe_ask_before_delete: contact.wipe_ask_before_delete,
        wipe_include_session: contact.wipe_include_session,
        wipe_request_pending: contact.wipe_request_pending,
    }
}

/// What is shown of a message.
pub fn to_message_dto(message: &Message) -> (dto: MessageDto)
    ensures
        dto.id@ == hex(message@.id),
        dto.sender_is_local == message@.sender_is_local,
        dto.content@ == lossy_text(message@.content),
        valid_utf8(message@.content) ==> encode_utf8(dto.content@) == message@.content,
        dto.timestamp == message@.timestamp,
        dto.delivered == message@.delivered,
{
    MessageDto {
        id: encode(message.id.as_slice()),
        sender_is_local: message.sender_is_local,
        content: from_utf8_lossy(message.content.as_slice()),
        timestamp: message.timestamp,
        delivered: message.delivered,
    }
}

/// The notice of a contact's new handle.
pub fn to_peer_notice(fingerprint: &[u8], old_handle: String, new_handle: String) -> (dto:
    PeerProfileChangeNoticeDto)
    ensures
        dto.fingerprint@ == hex(fingerprint@),
        dto.old_handle@ == old_handle@,
        dto.new_handle@ == new_handle@,
{
    PeerProfileChangeNoticeDto { fingerprint: encode(fingerprint), old_handle, new_handle }
}

/// What the server knew of this device's registration when it was asked.
pub enum ProfileReconciliation {
    Unchanged,
    Unregistered,
    /// The handle was given away, and a new one claimed.
    DiscriminatorChanged { old: OwnProfile, new: OwnProfile },
}

/// What follows from a reconciliation: a notice for the user, and the contacts, by their places
/// in the list, that are to hear of the new handle.
pub struct ReconciliationPlan {
    pub notice: Option<OwnDiscriminatorChangeNoticeDto>,
    pub announce_to: Vec<usize>,
}

/// The places of the verified contacts, in order.
pub open spec fn verified_places(contacts: Seq<Contact>) -> Seq<usize>
    decreases contacts.len(),
{
    if contacts.len() == 0 {
        Seq::empty()
    } else {
        let before = verified_places(contacts.drop_last());
        if contacts.last()@.verification_state is Verified {
            before.push((contacts.len() - 1) as usize)
        } else {
            before
        }
    }
}

/// What follows from a reconciliation: a changed handle is shown to the user and announced to
/// every verified contact, and to nobody else.
pub fn plan_reconciliation(outcome: &ProfileReconciliation, contacts: &Vec<Contact>) -> (plan:
    ReconciliationPlan)
    ensures
        match outcome {
            ProfileReconciliation::DiscriminatorChanged { old, new } => {
                &&& plan.notice matches Some(notice) && notice.old_handle@ == handle_text(
                    old@.username,
                    old@.discriminator,
                ) && notice.new_handle@ == handle_text(new@.username, new@.discriminator)
                &&& plan.announce_to@ == verified_places(contacts@)
            },
            _ => plan.notice is None && plan.announce_to@.len() == 0,
        },
{
    match outcome {
        ProfileReconciliation::DiscriminatorChanged { old, new } => {
            let mut announce_to: Vec<usize> = Vec::new();
            let mut i: usize = 0;
            assert(contacts@.take(0) =~= Seq::<Contact>::empty());
            while i < contacts.len()
                invariant
                    i <= contacts@.len(),
                    announce_to@ == verified_places(contacts@.take(i as int)),
                decreases contacts@.len() - i,
            {
                proof {
                    assert(contacts@.take(i + 1).drop_last() =~= contacts@.take(i as int));
                }
                if contacts[i].verification_state == VerificationState::Verified {
                    announce_to.push(i);
                }
                i = i + 1;
            }
            assert(contacts@.take(i as int) =~= contacts@);
            ReconciliationPlan {
                notice: Some(
                    OwnDiscriminatorChangeNoticeDto {
                        old_handle: handle_of(old.username.as_str(), old.discriminator),
                        new_handle: handle_of(new.username.as_str(), new.discriminator),
                    },
                ),
                announce_to,
            }
        },
        _ => ReconciliationPlan { notice: None, announce_to: Vec::new() },
    }
}

/// The places of the verified contacts are exactly the places of verified contacts.
pub proof fn law_announcements_go_to_verified_contacts(contacts: Seq<Contact>, i: usize)
    requires
        contacts.len() <= usize::MAX,
    ensures
        verified_places(contacts).contains(i) <==> i < contacts.len()
            && contacts[i as int]@.verification_state is Verified,
    decreases contacts.len(),
{
    if contacts.len() > 0 {
        let shorter = contacts.drop_last();
        law_announcements_go_to_verified_contacts(shorter, i);
        let before = verified_places(shorter);
        let all = verified_places(contacts);
        if before.contains(i) {
            let j = choose|j: int| 0 <= j < before.len() && before[j] == i;
            assert(all[j] == i);
        }
        if all.contains(i) {
            let j = choose|j: int| 0 <= j < all.len() && all[j] == i;
            if j < before.len() {
                assert(before[j] == i);
            }
        }
        if contacts.last()@.verification_state is Verified {
            assert(all[before.len() as int] == (contacts.len() - 1) as usize);
        }
    }
}

/// A handle is the username, a number sign and the discriminator; a contact without one goes by
/// the first four bytes of its fingerprint. Initials are taken from the first two characters.
pub proof fn law_what_a_contact_is_called(contact: ContactView, username: Seq<char>, discriminator: u16)
    ensures
        ({
            let handle = handle_text(username, discriminator);
            &&& handle.len() == username.len() + 1 + decimal_4(discriminator as nat).len()
            &&& handle.take(username.len() as int) == username
            &&& handle[username.len() as int] == '#'
            &&& handle.skip(username.len() as int + 1) == decimal_4(discriminator as nat)
        }),
        contact.username == Some(username) && contact.discriminator == Some(discriminator)
            ==> contact_handle(contact) == handle_text(username, discriminator),
        contact.username is None || contact.discriminator is None ==> contact_handle(contact)
            == hex(contact.fingerprint.take(4)),
        nameable(contact) <==> (contact.username is Some && contact.discriminator is Some)
            || contact.fingerprint.len() >= 4,
        first_two(username).len() == if username.len() < 2 {
            username.len()
        } else {
            2
        },
        first_two(username).is_prefix_of(username),
{
    reveal_strlit("#");
    let handle = handle_text(username, discriminator);
    assert(handle.take(username.len() as int) =~= username);
    assert(handle.skip(username.len() as int + 1) =~= decimal_4(discriminator as nat));
    if username.len() >= 2 {
        assert(username.take(2) =~= username.subrange(0, 2));
    } else {
        assert(username =~= username.subrange(0, username.len() as int));
    }
}

/// One more contact is announced to exactly where it is verified, after the others.
pub proof fn law_contacts_are_announced_to_in_order(contacts: Seq<Contact>, last: Contact)
    requires
        contacts.len() < usize::MAX,
    ensures
        verified_places(Seq::empty()).len() == 0,
        verified_places(contacts.push(last)) == if last.verification_state is Verified {
            verified_places(contacts).push(contacts.len() as usize)
        } else {
            verified_places(contacts)
        },
{
    assert(contacts.push(last).drop_last() =~= contacts);
}

/// What is shown of a message, a contact and the user's own profile is what they hold, field by
/// field.
pub proof fn law_what_is_shown_is_what_is_held(
    message: Message,
    m: MessageDto,
    contact: Contact,
    c: ContactDto,
    profile: OwnProfile,
    p: OwnProfileDto,
)
    requires
        call_ensures(to_message_dto, (&message,), m),
        call_ensures(to_contact_dto, (&contact,), c),
        call_ensures(to_own_profile_dto, (&profile,), p),
    ensures
        m.id@ == hex(message.id@),
        m.sender_is_local == message.sender_is_local,
        valid_utf8(message.content@) ==> encode_utf8(m.content@) == message.content@,
        m.timestamp == message.timestamp,
        m.delivered == message.delivered,
        c.fingerprint@ == hex(contact.fingerprint@),
        c.verified <==> contact.verification_state is Verified,
        c.pending <==> contact.verification_state is Pending,
        c.wipe_ask_before_delete == contact.wipe_ask_before_delete,
        c.wipe_include_session == contact.wipe_include_session,
        c.wipe_request_pending == contact.wipe_request_pending,
        contact.username is Some && contact.discriminator is Some ==> c.handle@ == (
        contact.username->0)@ + "#"@ + decimal_4(contact.discriminator->0 as nat),
        contact.username is None || contact.discriminator is None ==> c.handle@ == hex(
            contact.fingerprint@.take(4),
        ),
        c.handle@.len() >= 2 && is_ascii_chars(c.handle@.take(2)) ==> c.initials@.len() == 2
            && c.initials@[0] == ascii_upper(c.handle@[0]) && c.initials@[1] == ascii_upper(
            c.handle@[1],
        ),
        p.handle@ == profile.username@ + "#"@ + decimal_4(profile.discriminator as nat),
        p.username@ == profile.username@,
        p.discriminator == profile.discriminator,
{
}

/// A changed handle is told with the old and the new one in their places; nothing else leads to a
/// notice or an announcement.
pub proof fn law_notices_name_old_and_new(
    fingerprint: &[u8],
    old_handle: String,
    new_handle: String,
    notice: PeerProfileChangeNoticeDto,
    outcome: ProfileReconciliation,
    contacts: Vec<Contact>,
    plan: ReconciliationPlan,
)
    requires
        call_ensures(to_peer_notice, (fingerprint, old_handle, new_handle), notice),
        call_ensures(plan_reconciliation, (&outcome, &contacts), plan),
    ensures
        notice.fingerprint@ == hex(fingerprint@),
        notice.old_handle@ == old_handle@,
        notice.new_handle@ == new_handle@,
        match outcome {
            ProfileReconciliation::DiscriminatorChanged { old, new } => {
                &&& plan.notice is Some
                &&& (plan.notice->0).old_handle@ == old.username@ + "#"@ + decimal_4(
                    old.discriminator as nat,
                )
                &&& (plan.notice->0).new_handle@ == new.username@ + "#"@ + decimal_4(
                    new.discriminator as nat,
                )
                &&& plan.announce_to@ == verified_places(contacts@)
            },
            _ => plan.notice is None && plan.announce_to@.len() == 0,
        },
{
}

} // verus!
