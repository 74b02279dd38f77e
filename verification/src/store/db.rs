//! The encrypted record store.
//!
//! Every record is a nonce followed by its ciphertext, bound to the record's own name. Which
//! key encrypts it depends on its [`Scope`]. A master key, derived from the passphrase, only
//! wraps the three scope keys, which are records themselves; so the key of messages and
//! sessions can be destroyed without touching the others.
//!
//! A [`Db`] works on an image of the record table and lists the changes it makes, each of them
//! one transaction, for its owner to carry out in order.

use vstd::prelude::*;
use vstd::utf8::{encode_utf8, valid_utf8};
use crate::bytes::{array_32, bytes_equal, bytes_lt, copy_bytes};
use crate::hex::hex;
use crate::map::{in_order, keys_sorted, lemma_in_order, lookup, ByteMap};
use crate::random::{random_12, random_32};
use super::crypto::{
    decrypt, decrypted, derive_key, encrypt, encrypt_with, encryptable, generate_salt, hashable, holds, master_key,
    sealed, zeroize_key, DEK_LEN,
};
use super::error::{Error, ErrorView, Result};
use super::messages::{recover_message_sequence, recovered_sequence};

verus! {

/// The failure of reading bytes as UTF-8.
#[verifier::external_type_specification]
#[verifier::external_body]
pub struct ExUtf8Error(std::str::Utf8Error);

/// `std::str::from_utf8`. Claimed of it: it succeeds on valid UTF-8 and on nothing else.
pub assume_specification[ std::str::from_utf8 ](v: &[u8]) -> (text: std::result::Result<
    &str,
    std::str::Utf8Error,
>)
    ensures
        text is Ok <==> valid_utf8(v@),
        text matches Ok(t) ==> encode_utf8(t@) == v@,
;

/// Which key protects a record. Messages and sessions share one, so that both can be destroyed
/// at once; the account and the contacts each have their own and survive that.
#[derive(Clone, Copy, PartialEq, Eq, Structural)]
pub enum Scope {
    Identity,
    Contacts,
    Content,
}

/// A change of the record table; each is one transaction.
pub enum Change {
    Put { name: Vec<u8>, value: Vec<u8> },
    Remove { names: Vec<Vec<u8>> },
}

pub enum ChangeView {
    Put { name: Seq<u8>, value: Seq<u8> },
    Remove { names: Seq<Seq<u8>> },
}

/// The names of a list.
pub open spec fn names_view(names: Seq<Vec<u8>>) -> Seq<Seq<u8>> {
    names.map_values(|n: Vec<u8>| n@)
}

impl View for Change {
    type V = ChangeView;

    open spec fn view(&self) -> ChangeView {
        match self {
            Change::Put { name, value } => ChangeView::Put { name: name@, value: value@ },
            Change::Remove { names } => ChangeView::Remove { names: names_view(names@) },
        }
    }
}

pub open spec fn changes_view(changes: Seq<Change>) -> Seq<ChangeView> {
    changes.map_values(|c: Change| c@)
}

/// The encrypted records, by name.
pub type Records = Map<Seq<u8>, Seq<u8>>;

/// The table after a change.
pub open spec fn changed(records: Records, change: ChangeView) -> Records {
    match change {
        ChangeView::Put { name, value } => records.insert(name, value),
        ChangeView::Remove { names } => records.remove_keys(names.to_set()),
    }
}

/// The table after a list of changes.
pub open spec fn replayed(records: Records, changes: Seq<ChangeView>) -> Records
    decreases changes.len(),
{
    if changes.len() == 0 {
        records
    } else {
        changed(replayed(records, changes.drop_last()), changes.last())
    }
}

/// An open store.
pub struct Db {
    records: ByteMap<Vec<u8>>,
    changes: Vec<Change>,
    master_key: [u8; 32],
    identity_key: [u8; 32],
    contacts_key: [u8; 32],
    content_key: [u8; 32],
    message_sequence: u64,
}

#[verifier::ext_equal]
pub struct DbView {
    pub records: Records,
    /// Changes that are not carried out yet.
    pub changes: Seq<ChangeView>,
    pub master_key: Seq<u8>,
    pub identity_key: Seq<u8>,
    pub contacts_key: Seq<u8>,
    pub content_key: Seq<u8>,
    /// The sequence number of the next message.
    pub message_sequence: u64,
}

pub open spec fn records_view(records: Map<Seq<u8>, Vec<u8>>) -> Records {
    records.map_values(|v: Vec<u8>| v@)
}

impl View for Db {
    type V = DbView;

    closed spec fn view(&self) -> DbView {
        DbView {
            records: records_view(self.records@),
            changes: changes_view(self.changes@),
            master_key: self.master_key@,
            identity_key: self.identity_key@,
            contacts_key: self.contacts_key@,
            content_key: self.content_key@,
            message_sequence: self.message_sequence,
        }
    }
}

/// What is found under a name: nothing, a plaintext, or why it cannot be read.
pub type Read = std::result::Result<Option<Seq<u8>>, ErrorView>;

impl DbView {
    pub open spec fn key(self, scope: Scope) -> Seq<u8> {
        match scope {
            Scope::Identity => self.identity_key,
            Scope::Contacts => self.contacts_key,
            Scope::Content => self.content_key,
        }
    }

    /// What is found under a name.
    pub open spec fn read(self, scope: Scope, name: Seq<u8>) -> Read {
        match lookup(self.records, name) {
            None => Ok(None),
            Some(stored) => match decrypted(self.key(scope), name, stored) {
                Ok(plaintext) => Ok(Some(plaintext)),
                Err(e) => Err(e),
            },
        }
    }

    /// The store with an encrypted record put in.
    pub open spec fn with_record(self, name: Seq<u8>, value: Seq<u8>) -> DbView {
        DbView {
            records: self.records.insert(name, value),
            changes: self.changes.push(ChangeView::Put { name, value }),
            ..self
        }
    }

    /// The store with some records taken out at once.
    pub open spec fn without_records(self, names: Seq<Seq<u8>>) -> DbView {
        DbView {
            records: self.records.remove_keys(names.to_set()),
            changes: self.changes.push(ChangeView::Remove { names }),
            ..self
        }
    }

    /// The store with some records taken out one after the other.
    pub open spec fn without_each(self, names: Seq<Seq<u8>>) -> DbView
        decreases names.len(),
    {
        if names.len() == 0 {
            self
        } else {
            self.without_each(names.drop_last()).without_records(seq![names.last()])
        }
    }
}

/// Whether `after` is `before` with `plaintext` stored under `name`.
pub open spec fn stores(
    before: DbView,
    after: DbView,
    scope: Scope,
    name: Seq<u8>,
    plaintext: Seq<u8>,
) -> bool {
    &&& after == before.with_record(name, after.records[name])
    &&& holds(after.records[name], before.key(scope), name, plaintext)
}

/// Whether a store operation did what it should: the plaintext is stored, or it is too long and
/// nothing has changed.
pub open spec fn put_outcome(
    before: DbView,
    after: DbView,
    scope: Scope,
    name: Seq<u8>,
    plaintext: Seq<u8>,
    result: Result<()>,
) -> bool {
    match result {
        Ok(_) => encryptable(plaintext) && stores(before, after, scope, name, plaintext),
        Err(e) => !encryptable(plaintext) && e is EncryptionFailed && after == before,
    }
}

/// Whether a read gave what it should.
pub open spec fn read_result(result: Result<Option<Vec<u8>>>, stated: Read) -> bool {
    match result {
        Ok(Some(bytes)) => stated == Read::Ok(Some(bytes@)),
        Ok(None) => stated == Read::Ok(None),
        Err(e) => stated == Read::Err(e@),
    }
}

/// The names that start with `prefix`, in dictionary order.
pub open spec fn listing(records: Records, prefix: Seq<u8>) -> Seq<Seq<u8>> {
    in_order(records.dom().filter(|n: Seq<u8>| prefix.is_prefix_of(n)))
}

// Record names.

pub open spec fn salt_name() -> Seq<u8> {
    encode_utf8("__salt__"@)
}

pub open spec fn kdf_check_name() -> Seq<u8> {
    encode_utf8("__kdf_check__"@)
}

pub open spec fn identity_dek_name() -> Seq<u8> {
    encode_utf8("__identity_dek__"@)
}

pub open spec fn contacts_dek_name() -> Seq<u8> {
    encode_utf8("__contacts_dek__"@)
}

pub open spec fn content_dek_name() -> Seq<u8> {
    encode_utf8("__content_dek__"@)
}

pub open spec fn account_name() -> Seq<u8> {
    encode_utf8("account"@)
}

pub open spec fn message_prefix() -> Seq<u8> {
    encode_utf8("message:"@)
}

pub open spec fn ratchet_prefix() -> Seq<u8> {
    encode_utf8("ratchet:"@)
}

pub open spec fn kdf_check_plaintext() -> Seq<u8> {
    encode_utf8("dratchet-store-v1"@)
}

/// The name of a conversation's session record.
pub open spec fn ratchet_name(conversation_id: Seq<u8>) -> Seq<u8> {
    ratchet_prefix() + encode_utf8(hex(conversation_id))
}

/// The bytes of `bytes` in hexadecimal, put behind `name`.
pub fn push_hex_bytes(name: &mut Vec<u8>, bytes: &[u8])
    ensures
        final(name)@ == old(name)@ + encode_utf8(hex(bytes@)),
{
    let text: String = crate::hex::encode(bytes);
    name.extend_from_slice(text.as_str().as_bytes());
}

// Creating and opening.

/// The keys of a store.
pub struct KeysView {
    pub master: Seq<u8>,
    pub identity: Seq<u8>,
    pub contacts: Seq<u8>,
    pub content: Seq<u8>,
}

/// The scope key that is stored under `name`, wrapped by the master key.
pub open spec fn unwrapped_key(records: Records, master: Seq<u8>, name: Seq<u8>) -> std::result::Result<
    Seq<u8>,
    ErrorView,
> {
    match lookup(records, name) {
        None => Err(
            ErrorView::MalformedRecord(
                "missing wrapped data-encryption key — not a dratchet-store database",
            ),
        ),
        Some(stored) => match decrypted(master, name, stored) {
            Err(e) => Err(e),
            Ok(key) => if key.len() == DEK_LEN {
                Ok(key)
            } else {
                Err(
                    ErrorView::MalformedRecord("wrapped data-encryption key has the wrong length"),
                )
            },
        },
    }
}

/// The master key that the passphrase opens the table with: the known plaintext must decrypt
/// under it.
pub open spec fn checked_master_key(records: Records, passphrase: Seq<char>) -> std::result::Result<
    Seq<u8>,
    ErrorView,
> {
    match lookup(records, salt_name()) {
        None => Err(
            ErrorView::MalformedRecord("missing salt — not a dratchet-store database"),
        ),
        Some(salt) => if !valid_utf8(salt) {
            Err(ErrorView::MalformedRecord("salt is not valid UTF-8"))
        } else {
            match master_key(passphrase, salt) {
                Err(e) => Err(e),
                Ok(master) => match lookup(records, kdf_check_name()) {
                    None => Err(ErrorView::MalformedRecord("missing KDF check value")),
                    Some(stored) => match decrypted(master, kdf_check_name(), stored) {
                        Err(ErrorView::DecryptionFailed) => Err(
                            ErrorView::WrongPassphraseOrCorrupted,
                        ),
                        Err(e) => Err(e),
                        Ok(check) => if check == kdf_check_plaintext() {
                            Ok(master)
                        } else {
                            Err(ErrorView::WrongPassphraseOrCorrupted)
                        },
                    },
                },
            }
        },
    }
}

/// The keys that the passphrase opens the table with.
pub open spec fn unlocked(records: Records, passphrase: Seq<char>) -> std::result::Result<
    KeysView,
    ErrorView,
> {
    match checked_master_key(records, passphrase) {
        Err(e) => Err(e),
        Ok(master) => match unwrapped_key(records, master, identity_dek_name()) {
            Err(e) => Err(e),
            Ok(identity) => match unwrapped_key(records, master, contacts_dek_name()) {
                Err(e) => Err(e),
                Ok(contacts) => match unwrapped_key(records, master, content_dek_name()) {
                    Err(e) => Err(e),
                    Ok(content) => Ok(KeysView { master, identity, contacts, content }),
                },
            },
        },
    }
}

/// What opening the table with the passphrase gives. Only the keys decide whether it opens: a
/// record that cannot be read denies nothing else.
pub open spec fn open_outcome(records: Records, passphrase: Seq<char>) -> std::result::Result<
    DbView,
    ErrorView,
> {
    match unlocked(records, passphrase) {
        Err(e) => Err(e),
        Ok(keys) => {
            let db = DbView {
                records,
                changes: Seq::empty(),
                master_key: keys.master,
                identity_key: keys.identity,
                contacts_key: keys.contacts,
                content_key: keys.content,
                message_sequence: 0,
            };
            Ok(DbView { message_sequence: recovered_sequence(db), ..db })
        },
    }
}

/// The table that a list of records makes up; of two with the same name the later one counts.
pub open spec fn table_of(entries: Seq<(Seq<u8>, Seq<u8>)>) -> Records
    decreases entries.len(),
{
    if entries.len() == 0 {
        Map::empty()
    } else {
        table_of(entries.drop_last()).insert(entries.last().0, entries.last().1)
    }
}

pub open spec fn entries_view(entries: Seq<(Vec<u8>, Vec<u8>)>) -> Seq<(Seq<u8>, Seq<u8>)> {
    entries.map_values(|e: (Vec<u8>, Vec<u8>)| (e.0@, e.1@))
}

/// A store that was just made with a random salt and random scope keys.
pub open spec fn created(db: DbView, passphrase: Seq<char>) -> bool {
    &&& db.records[salt_name()].len() == 22
    &&& db.identity_key.len() == DEK_LEN
    &&& db.contacts_key.len() == DEK_LEN
    &&& db.content_key.len() == DEK_LEN
    &&& created_with(
        db,
        passphrase,
        db.records[salt_name()],
        db.identity_key,
        db.contacts_key,
        db.content_key,
    )
}

/// A store that was just made with the given salt and scope keys: the salt, the known plaintext
/// and the three wrapped scope keys, written in this order.
pub open spec fn created_with(
    db: DbView,
    passphrase: Seq<char>,
    salt: Seq<u8>,
    identity_key: Seq<u8>,
    contacts_key: Seq<u8>,
    content_key: Seq<u8>,
) -> bool {
    let check = db.records[kdf_check_name()];
    let identity = db.records[identity_dek_name()];
    let contacts = db.records[contacts_dek_name()];
    let content = db.records[content_dek_name()];
    &&& db.identity_key == identity_key
    &&& db.contacts_key == contacts_key
    &&& db.content_key == content_key
    &&& valid_utf8(salt)
    &&& master_key(passphrase, salt) == std::result::Result::<Seq<u8>, ErrorView>::Ok(db.master_key)
    &&& holds(check, db.master_key, kdf_check_name(), kdf_check_plaintext())
    &&& holds(identity, db.master_key, identity_dek_name(), db.identity_key)
    &&& holds(contacts, db.master_key, contacts_dek_name(), db.contacts_key)
    &&& holds(content, db.master_key, content_dek_name(), db.content_key)
    &&& db.message_sequence == 0
    &&& db.changes == seq![
        ChangeView::Put { name: salt_name(), value: salt },
        ChangeView::Put { name: kdf_check_name(), value: check },
        ChangeView::Put { name: identity_dek_name(), value: identity },
        ChangeView::Put { name: contacts_dek_name(), value: contacts },
        ChangeView::Put { name: content_dek_name(), value: content },
    ]
    &&& db.records == Map::<Seq<u8>, Seq<u8>>::empty().insert(salt_name(), salt).insert(
        kdf_check_name(),
        check,
    ).insert(identity_dek_name(), identity).insert(contacts_dek_name(), contacts).insert(
        content_dek_name(),
        content,
    )
}

/// The five reserved names differ from each other, and all start with an underscore.
pub proof fn lemma_reserved_names()
    ensures
        salt_name() != kdf_check_name(),
        salt_name() != identity_dek_name(),
        salt_name() != contacts_dek_name(),
        salt_name() != content_dek_name(),
        kdf_check_name() != identity_dek_name(),
        kdf_check_name() != contacts_dek_name(),
        kdf_check_name() != content_dek_name(),
        identity_dek_name() != contacts_dek_name(),
        identity_dek_name() != content_dek_name(),
        contacts_dek_name() != content_dek_name(),
        salt_name().len() > 0 && salt_name()[0] == 0x5f,
        kdf_check_name().len() > 0 && kdf_check_name()[0] == 0x5f,
        identity_dek_name().len() > 0 && identity_dek_name()[0] == 0x5f,
        contacts_dek_name().len() > 0 && contacts_dek_name()[0] == 0x5f,
        content_dek_name().len() > 0 && content_dek_name()[0] == 0x5f,
{
    reveal_strlit("__salt__");
    reveal_strlit("__kdf_check__");
    reveal_strlit("__identity_dek__");
    reveal_strlit("__contacts_dek__");
    reveal_strlit("__content_dek__");
    vstd::utf8::is_ascii_chars_encode_utf8("__salt__"@);
    vstd::utf8::is_ascii_chars_encode_utf8("__kdf_check__"@);
    vstd::utf8::is_ascii_chars_encode_utf8("__identity_dek__"@);
    vstd::utf8::is_ascii_chars_encode_utf8("__contacts_dek__"@);
    vstd::utf8::is_ascii_chars_encode_utf8("__content_dek__"@);
    assert(identity_dek_name()[2] != contacts_dek_name()[2]);
}

/// The first letters of the prefixes that messages and sessions are stored under.
pub proof fn lemma_content_prefixes()
    ensures
        message_prefix().len() == 8,
        message_prefix()[0] == 0x6d,
        ratchet_prefix().len() == 8,
        ratchet_prefix()[0] == 0x72,
{
    reveal_strlit("message:");
    reveal_strlit("ratchet:");
    vstd::utf8::is_ascii_chars_encode_utf8("message:"@);
    vstd::utf8::is_ascii_chars_encode_utf8("ratchet:"@);
}

fn starts_with(name: &[u8], prefix: &[u8]) -> (does: bool)
    ensures
        does == prefix@.is_prefix_of(name@),
{
    if prefix.len() > name.len() {
        return false;
    }
    let start: &[u8] = vstd::slice::slice_subrange(name, 0, prefix.len());
    bytes_equal(start, prefix)
}

fn unwrap_dek(records: &ByteMap<Vec<u8>>, master: &[u8; 32], name: &[u8]) -> (key: Result<[u8; 32]>)
    ensures
        match key {
            Ok(k) => unwrapped_key(records_view(records@), master@, name@)
                == std::result::Result::<Seq<u8>, ErrorView>::Ok(k@),
            Err(e) => unwrapped_key(records_view(records@), master@, name@)
                == std::result::Result::<Seq<u8>, ErrorView>::Err(e@),
        },
{
    match records.get(name) {
        None => Err(
            Error::MalformedRecord(
                "missing wrapped data-encryption key — not a dratchet-store database",
            ),
        ),
        Some(stored) => match decrypt(master, name, stored.as_slice()) {
            Err(e) => Err(e),
            Ok(key) => match array_32(key.as_slice()) {
                Some(key) => Ok(key),
                None => Err(
                    Error::MalformedRecord("wrapped data-encryption key has the wrong length"),
                ),
            },
        },
    }
}

fn check_passphrase(records: &ByteMap<Vec<u8>>, passphrase: &str) -> (master: Result<[u8; 32]>)
    ensures
        match master {
            Ok(k) => checked_master_key(records_view(records@), passphrase@)
                == std::result::Result::<Seq<u8>, ErrorView>::Ok(k@),
            Err(e) => checked_master_key(records_view(records@), passphrase@)
                == std::result::Result::<Seq<u8>, ErrorView>::Err(e@),
        },
{
    let salt: &Vec<u8> = match records.get("__salt__".as_bytes()) {
        Some(salt) => salt,
        None => {
            return Err(
                Error::MalformedRecord("missing salt — not a dratchet-store database"),
            );
        },
    };
    if std::str::from_utf8(salt.as_slice()).is_err() {
        return Err(Error::MalformedRecord("salt is not valid UTF-8"));
    }
    let master: [u8; 32] = match derive_key(passphrase, salt.as_slice()) {
        Ok(master) => master,
        Err(e) => {
            return Err(e);
        },
    };
    match records.get("__kdf_check__".as_bytes()) {
        None => Err(Error::MalformedRecord("missing KDF check value")),
        Some(stored) => match decrypt(&master, "__kdf_check__".as_bytes(), stored.as_slice()) {
            Err(Error::DecryptionFailed) => Err(Error::WrongPassphraseOrCorrupted),
            Err(e) => Err(e),
            Ok(check) => if bytes_equal(check.as_slice(), "dratchet-store-v1".as_bytes()) {
                Ok(master)
            } else {
                Err(Error::WrongPassphraseOrCorrupted)
            },
        },
    }
}

impl Db {
    /// Makes a new store: derives its master key from `passphrase` and a random salt, and wraps
    /// a random key for each scope. Its changes set up the table.
    pub fn create(passphrase: &str) -> (db: Result<Db>)
        ensures
            db is Ok <==> encode_utf8(passphrase@).len() <= 0xffff_ffff,
            match db {
                Ok(d) => created(d@, passphrase@),
                Err(e) => e is PassphraseHash,
            },
    {
        proof {
            lemma_reserved_names();
        }
        let salt: String = generate_salt();
        Db::create_with(passphrase, salt.as_str(), random_32(), random_32(), random_32())
    }

    /// Makes a new store: derives its master key from `passphrase` and `salt`, and wraps the
    /// given key for each scope. Its changes set up the table.
    pub fn create_with(
        passphrase: &str,
        salt: &str,
        identity_key: [u8; 32],
        contacts_key: [u8; 32],
        content_key: [u8; 32],
    ) -> (db: Result<Db>)
        ensures
            db is Ok <==> hashable(encode_utf8(passphrase@), encode_utf8(salt@)),
            match db {
                Ok(d) => d@.records[salt_name()] == encode_utf8(salt@) && created_with(
                    d@,
                    passphrase@,
                    encode_utf8(salt@),
                    identity_key@,
                    contacts_key@,
                    content_key@,
                ),
                Err(e) => e is PassphraseHash,
            },
    {
        let salt_bytes: &[u8] = salt.as_bytes();
        let master: [u8; 32] = match derive_key(passphrase, salt_bytes) {
            Ok(master) => master,
            Err(e) => {
                return Err(e);
            },
        };
        let mut db: Db = Db {
            records: ByteMap::new(),
            changes: Vec::new(),
            master_key: master,
            identity_key,
            contacts_key,
            content_key,
            message_sequence: 0,
        };
        proof {
            assert(db@.records =~= Map::<Seq<u8>, Seq<u8>>::empty());
            assert(db@.changes =~= Seq::<ChangeView>::empty());
            lemma_reserved_names();
            vstd::utf8::encode_utf8_valid_utf8(salt@);
            reveal_strlit("dratchet-store-v1");
            vstd::utf8::is_ascii_chars_encode_utf8("dratchet-store-v1"@);
        }
        db.put("__salt__".as_bytes(), copy_bytes(salt_bytes));
        match db.put_under_master("__kdf_check__".as_bytes(), "dratchet-store-v1".as_bytes()) {
            Ok(_) => {},
            Err(e) => {
                return Err(e);
            },
        }
        match db.put_under_master("__identity_dek__".as_bytes(), identity_key.as_slice()) {
            Ok(_) => {},
            Err(e) => {
                return Err(e);
            },
        }
        match db.put_under_master("__contacts_dek__".as_bytes(), contacts_key.as_slice()) {
            Ok(_) => {},
            Err(e) => {
                return Err(e);
            },
        }
        match db.put_under_master("__content_dek__".as_bytes(), content_key.as_slice()) {
            Ok(_) => {},
            Err(e) => {
                return Err(e);
            },
        }
        proof {
            let v = db@;
            assert(v.changes =~= seq![
                ChangeView::Put { name: salt_name(), value: v.records[salt_name()] },
                ChangeView::Put { name: kdf_check_name(), value: v.records[kdf_check_name()] },
                ChangeView::Put {
                    name: identity_dek_name(),
                    value: v.records[identity_dek_name()],
                },
                ChangeView::Put {
                    name: contacts_dek_name(),
                    value: v.records[contacts_dek_name()],
                },
                ChangeView::Put { name: content_dek_name(), value: v.records[content_dek_name()] },
            ]);
        }
        Ok(db)
    }

    /// Opens the table that the given records make up.
    pub fn open(entries: Vec<(Vec<u8>, Vec<u8>)>, passphrase: &str) -> (db: Result<Db>)
        ensures
            match db {
                Ok(d) => open_outcome(table_of(entries_view(entries@)), passphrase@)
                    == std::result::Result::<DbView, ErrorView>::Ok(d@),
                Err(e) => open_outcome(table_of(entries_view(entries@)), passphrase@)
                    == std::result::Result::<DbView, ErrorView>::Err(e@),
            },
    {
        let mut records: ByteMap<Vec<u8>> = ByteMap::new();
        let ghost list = entries_view(entries@);
        let mut i: usize = 0;
        proof {
            assert(list.take(0) =~= Seq::<(Seq<u8>, Seq<u8>)>::empty());
            assert(records_view(records@) =~= table_of(list.take(0)));
        }
        while i < entries.len()
            invariant
                i <= entries@.len(),
                list == entries_view(entries@),
                records_view(records@) == table_of(list.take(i as int)),
            decreases entries@.len() - i,
        {
            let ghost before = records@;
            let value: Vec<u8> = copy_bytes(entries[i].1.as_slice());
            let ghost value_bytes = value@;
            records.insert(entries[i].0.as_slice(), value);
            proof {
                assert(list.take(i + 1).drop_last() =~= list.take(i as int));
                assert(list.take(i + 1).last() == (entries@[i as int].0@, entries@[i as int].1@));
                assert(records_view(records@) =~= records_view(before).insert(
                    entries@[i as int].0@,
                    value_bytes,
                ));
            }
            i = i + 1;
        }
        assert(list.take(i as int) =~= list);
        let master: [u8; 32] = match check_passphrase(&records, passphrase) {
            Ok(master) => master,
            Err(e) => {
                return Err(e);
            },
        };
        let identity_key: [u8; 32] = match unwrap_dek(
            &records,
            &master,
            "__identity_dek__".as_bytes(),
        ) {
            Ok(key) => key,
            Err(e) => {
                return Err(e);
            },
        };
        let contacts_key: [u8; 32] = match unwrap_dek(
            &records,
            &master,
            "__contacts_dek__".as_bytes(),
        ) {
            Ok(key) => key,
            Err(e) => {
                return Err(e);
            },
        };
        let content_key: [u8; 32] = match unwrap_dek(
            &records,
            &master,
            "__content_dek__".as_bytes(),
        ) {
            Ok(key) => key,
            Err(e) => {
                return Err(e);
            },
        };
        let mut db: Db = Db {
            records,
            changes: Vec::new(),
            master_key: master,
            identity_key,
            contacts_key,
            content_key,
            message_sequence: 0,
        };
        assert(db@.changes =~= Seq::<ChangeView>::empty());
        db.message_sequence = recover_message_sequence(&db);
        Ok(db)
    }

    /// Hands out the changes that are not carried out yet, oldest first.
    pub fn take_changes(&mut self) -> (changes: Vec<Change>)
        ensures
            changes_view(changes@) == old(self)@.changes,
            final(self)@ == (DbView { changes: Seq::empty(), ..old(self)@ }),
    {
        let mut changes: Vec<Change> = Vec::new();
        core::mem::swap(&mut changes, &mut self.changes);
        assert(self@ =~= (DbView { changes: Seq::empty(), ..old(self)@ }));
        changes
    }

    fn put(&mut self, name: &[u8], value: Vec<u8>)
        ensures
            final(self)@ == old(self)@.with_record(name@, value@),
            final(self).master_key == old(self).master_key,
            final(self).identity_key == old(self).identity_key,
            final(self).contacts_key == old(self).contacts_key,
            final(self).content_key == old(self).content_key,
    {
        let ghost value_bytes = value@;
        let change: Change = Change::Put {
            name: copy_bytes(name),
            value: copy_bytes(value.as_slice()),
        };
        self.records.insert(name, value);
        self.changes.push(change);
        assert(self@ =~= old(self)@.with_record(name@, value_bytes));
    }

    fn put_under_master(&mut self, name: &[u8], plaintext: &[u8]) -> (done: Result<()>)
        ensures
            match done {
                Ok(_) => encryptable(plaintext@) && final(self)@ == old(self)@.with_record(
                    name@,
                    final(self)@.records[name@],
                ) && holds(
                    final(self)@.records[name@],
                    old(self)@.master_key,
                    name@,
                    plaintext@,
                ),
                Err(e) => !encryptable(plaintext@) && e is EncryptionFailed && *final(self) == *old(
                    self,
                ),
            },
            final(self).master_key == old(self).master_key,
            final(self).identity_key == old(self).identity_key,
            final(self).contacts_key == old(self).contacts_key,
            final(self).content_key == old(self).content_key,
    {
        let key: [u8; 32] = self.master_key;
        match encrypt(&key, name, plaintext) {
            Ok(stored) => {
                self.put(name, stored);
                Ok(())
            },
            Err(e) => Err(e),
        }
    }

    /// Encrypts `plaintext` with the scope's key and stores it under `name`, in place of what
    /// was there.
    pub fn put_encrypted(&mut self, scope: Scope, name: &[u8], plaintext: &[u8]) -> (done: Result<()>)
        ensures
            put_outcome(old(self)@, final(self)@, scope, name@, plaintext@, done),
    {
        self.put_encrypted_with(scope, &random_12(), name, plaintext)
    }

    /// Encrypts `plaintext` with the scope's key and the given nonce, and stores it under
    /// `name`, in place of what was there.
    pub fn put_encrypted_with(
        &mut self,
        scope: Scope,
        nonce: &[u8; 12],
        name: &[u8],
        plaintext: &[u8],
    ) -> (done: Result<()>)
        ensures
            put_outcome(old(self)@, final(self)@, scope, name@, plaintext@, done),
            done is Ok ==> final(self)@ == old(self)@.with_record(
                name@,
                nonce@ + sealed(old(self)@.key(scope), nonce@, name@, plaintext@),
            ),
    {
        let key: [u8; 32] = match scope {
            Scope::Identity => self.identity_key,
            Scope::Contacts => self.contacts_key,
            Scope::Content => self.content_key,
        };
        match encrypt_with(&key, nonce, name, plaintext) {
            Ok(stored) => {
                self.put(name, stored);
                Ok(())
            },
            Err(e) => Err(e),
        }
    }

    /// Decrypts what is stored under `name` with the scope's key.
    pub fn get_encrypted(&self, scope: Scope, name: &[u8]) -> (plaintext: Result<Option<Vec<u8>>>)
        ensures
            read_result(plaintext, self@.read(scope, name@)),
    {
        match self.records.get(name) {
            None => Ok(None),
            Some(stored) => {
                let key: &[u8; 32] = match scope {
                    Scope::Identity => &self.identity_key,
                    Scope::Contacts => &self.contacts_key,
                    Scope::Content => &self.content_key,
                };
                match decrypt(key, name, stored.as_slice()) {
                    Ok(plaintext) => Ok(Some(plaintext)),
                    Err(e) => Err(e),
                }
            },
        }
    }

    /// Takes the record under `name` out.
    pub fn delete(&mut self, name: &[u8])
        ensures
            final(self)@ == old(self)@.without_records(seq![name@]),
    {
        let mut names: Vec<Vec<u8>> = Vec::new();
        names.push(copy_bytes(name));
        assert(names_view(names@) =~= seq![name@]);
        self.delete_many(names);
    }

    /// Takes the records under `names` out, all in one transaction.
    pub fn delete_many(&mut self, names: Vec<Vec<u8>>)
        ensures
            final(self)@ == old(self)@.without_records(names_view(names@)),
            final(self)@.content_key == old(self)@.content_key,
    {
        let ghost list = names_view(names@);
        let mut i: usize = 0;
        assert(self@.records =~= old(self)@.records.remove_keys(list.take(0).to_set()));
        while i < names.len()
            invariant
                i <= names@.len(),
                list == names_view(names@),
                self@ == (DbView {
                    records: old(self)@.records.remove_keys(list.take(i as int).to_set()),
                    ..old(self)@
                }),
            decreases names@.len() - i,
        {
            let ghost before = self@.records;
            let _ = self.records.remove(names[i].as_slice());
            proof {
                let name = list[i as int];
                assert(name == names@[i as int]@);
                assert(self@.records =~= before.remove(name));
                let shorter = list.take(i as int);
                let longer = list.take(i + 1);
                assert(longer =~= shorter.push(name));
                assert forall|n: Seq<u8>| longer.to_set().contains(n) <==> (shorter.to_set().contains(n)
                    || n == name) by {
                    if shorter.contains(n) {
                        let j = choose|j: int| 0 <= j < shorter.len() && shorter[j] == n;
                        assert(longer[j] == n);
                    }
                    if longer.contains(n) {
                        let j = choose|j: int| 0 <= j < longer.len() && longer[j] == n;
                        if j < i {
                            assert(shorter[j] == n);
                        }
                    }
                    assert(longer[i as int] == name);
                }
                assert(self@.records =~= old(self)@.records.remove_keys(longer.to_set()));
                assert(self@ =~= (DbView { records: self@.records, ..old(self)@ }));
            }
            i = i + 1;
        }
        assert(list.take(i as int) =~= list);
        self.changes.push(Change::Remove { names });
        assert(self@ =~= old(self)@.without_records(list));
    }

    /// The names that start with `prefix`, in dictionary order.
    pub fn keys_with_prefix(&self, prefix: &[u8]) -> (names: Vec<Vec<u8>>)
        ensures
            names_view(names@) == listing(self@.records, prefix@),
            forall|i: int| 0 <= i < names@.len() ==> self@.records.dom().contains(#[trigger] names@[i]@),
            forall|i: int| 0 <= i < names@.len() ==> prefix@.is_prefix_of(#[trigger] names@[i]@),
            forall|n: Seq<u8>|
                self@.records.dom().contains(n) && prefix@.is_prefix_of(n) ==> #[trigger] names_view(
                    names@,
                ).contains(n),
    {
        self.records.layout();
        let ghost all = self.records.key_seq();
        let ghost wanted = self@.records.dom().filter(|n: Seq<u8>| prefix@.is_prefix_of(n));
        let mut names: Vec<Vec<u8>> = Vec::new();
        let n: usize = self.records.len();
        let mut i: usize = 0;
        assert(names_view(names@) =~= Seq::<Seq<u8>>::empty());
        while i < n
            invariant
                i <= n,
                n == all.len(),
                all == self.records.key_seq(),
                keys_sorted(all),
                keys_sorted(names_view(names@)),
                forall|j: int| 0 <= j < n ==> self.records@.dom().contains(#[trigger] all[j]),
                forall|t: int|
                    0 <= t < names@.len() ==> prefix@.is_prefix_of(#[trigger] names_view(names@)[t])
                        && self.records@.dom().contains(names_view(names@)[t]),
                forall|t: int, j: int|
                    0 <= t < names@.len() && i <= j < n ==> bytes_lt(
                        #[trigger] names_view(names@)[t],
                        #[trigger] all[j],
                    ),
                forall|j: int|
                    0 <= j < i && prefix@.is_prefix_of(all[j]) ==> names_view(names@).contains(
                        #[trigger] all[j],
                    ),
            decreases n - i,
        {
            let name: &Vec<u8> = self.records.key_at(i);
            let ghost before = names_view(names@);
            assert(self.records@.dom().contains(all[i as int]));
            if starts_with(name.as_slice(), prefix) {
                names.push(copy_bytes(name.as_slice()));
                proof {
                    let after = names_view(names@);
                    assert(after =~= before.push(name@));
                    assert forall|j: int| 0 <= j < i + 1 && prefix@.is_prefix_of(all[j]) implies after.contains(
                        #[trigger] all[j],
                    ) by {
                        if j < i {
                            assert(before.contains(all[j]));
                            let t = choose|t: int| 0 <= t < before.len() && before[t] == all[j];
                            assert(after[t] == all[j]);
                        } else {
                            assert(after[before.len() as int] == all[j]);
                        }
                    }
                    assert forall|t: int, j: int| 0 <= t < after.len() && i + 1 <= j < n implies bytes_lt(
                        #[trigger] after[t],
                        #[trigger] all[j],
                    ) by {
                        if t < before.len() {
                            assert(after[t] == before[t]);
                        }
                    }
                    assert forall|t: int| 0 <= t < after.len() implies prefix@.is_prefix_of(
                        #[trigger] after[t],
                    ) && self.records@.dom().contains(after[t]) by {
                        if t < before.len() {
                            assert(after[t] == before[t]);
                        }
                    }
                    assert forall|a: int, b: int| 0 <= a < b < after.len() implies bytes_lt(
                        #[trigger] after[a],
                        #[trigger] after[b],
                    ) by {
                        assert(after[a] == before[a]);
                        if b < before.len() {
                            assert(after[b] == before[b]);
                        } else {
                            assert(bytes_lt(before[a], all[i as int]));
                        }
                    }
                }
            }
            i = i + 1;
        }
        proof {
            let list = names_view(names@);
            assert(self@.records.dom() =~= self.records@.dom());
            assert forall|k: Seq<u8>| list.contains(k) <==> wanted.contains(k) by {
                if list.contains(k) {
                    let t = choose|t: int| 0 <= t < list.len() && list[t] == k;
                    assert(prefix@.is_prefix_of(list[t]));
                }
                if wanted.contains(k) {
                    assert(all.contains(k));
                    let j = choose|j: int| 0 <= j < all.len() && all[j] == k;
                    assert(list.contains(all[j]));
                }
            }
            lemma_in_order(list, wanted);
            assert forall|i: int| 0 <= i < names@.len() implies self@.records.dom().contains(
                #[trigger] names@[i]@,
            ) && prefix@.is_prefix_of(names@[i]@) by {
                assert(list[i] == names@[i]@);
            }
        }
        names
    }

    /// How many records there are.
    pub fn record_count(&self) -> (n: usize)
        ensures
            self@.records.dom().finite(),
            n == self@.records.dom().len(),
    {
        self.records.layout();
        assert(self@.records.dom() =~= self.records@.dom());
        self.records.len()
    }

    /// Stores the account, as the key library exports it.
    pub fn save_account(&mut self, exported: &[u8]) -> (done: Result<()>)
        ensures
            put_outcome(
                old(self)@,
                final(self)@,
                Scope::Identity,
                account_name(),
                exported@,
                done,
            ),
    {
        self.put_encrypted(Scope::Identity, "account".as_bytes(), exported)
    }

    /// The account, as the key library exported it.
    pub fn load_account(&self) -> (exported: Result<Option<Vec<u8>>>)
        ensures
            read_result(exported, self@.read(Scope::Identity, account_name())),
    {
        self.get_encrypted(Scope::Identity, "account".as_bytes())
    }

    /// The name of a conversation's session record.
    pub fn ratchet_key(conversation_id: [u8; 16]) -> (name: Vec<u8>)
        ensures
            name@ == ratchet_name(conversation_id@),
    {
        let mut name: Vec<u8> = copy_bytes("ratchet:".as_bytes());
        push_hex_bytes(&mut name, conversation_id.as_slice());
        name
    }

    /// Stores a conversation's session, as the ratchet exports it.
    pub fn save_ratchet(&mut self, conversation_id: [u8; 16], exported: &[u8]) -> (done: Result<()>)
        ensures
            put_outcome(
                old(self)@,
                final(self)@,
                Scope::Content,
                ratchet_name(conversation_id@),
                exported@,
                done,
            ),
    {
        let name: Vec<u8> = Db::ratchet_key(conversation_id);
        self.put_encrypted(Scope::Content, name.as_slice(), exported)
    }

    /// A conversation's session, as the ratchet exported it.
    pub fn load_ratchet(&self, conversation_id: [u8; 16]) -> (exported: Result<Option<Vec<u8>>>)
        ensures
            read_result(exported, self@.read(Scope::Content, ratchet_name(conversation_id@))),
    {
        let name: Vec<u8> = Db::ratchet_key(conversation_id);
        self.get_encrypted(Scope::Content, name.as_slice())
    }

    /// The next message's sequence number, which counts up with every call.
    pub fn next_message_sequence(&mut self) -> (sequence: u64)
        ensures
            sequence == old(self)@.message_sequence,
            final(self)@ == (DbView {
                message_sequence: if old(self)@.message_sequence == u64::MAX {
                    0
                } else {
                    (old(self)@.message_sequence + 1) as u64
                },
                ..old(self)@
            }),
    {
        let sequence: u64 = self.message_sequence;
        self.message_sequence = self.message_sequence.wrapping_add(1);
        sequence
    }

    /// The next message's sequence number, which stays the next.
    pub fn message_sequence(&self) -> (sequence: u64)
        ensures
            sequence == self@.message_sequence,
    {
        self.message_sequence
    }

    /// Destroys every message and session: the key that protected them is replaced by a random
    /// one before any of them is taken out. Account and contacts stay. Returns how many records
    /// were taken out.
    pub fn quick_wipe(&mut self) -> (removed: Result<usize>)
        ensures
            quick_wiped(old(self)@, final(self)@),
            removed matches Ok(n) && n == wiped_names(old(self)@.records).len(),
    {
        self.quick_wipe_with(random_32())
    }

    /// Destroys every message and session: the key that protected them is replaced by `fresh`,
    /// in memory and in the table, before any of them is taken out. Account and contacts stay.
    /// Returns how many records were taken out.
    pub fn quick_wipe_with(&mut self, fresh: [u8; 32]) -> (removed: Result<usize>)
        ensures
            quick_wiped(old(self)@, final(self)@),
            final(self)@.content_key == fresh@,
            removed matches Ok(n) && n == wiped_names(old(self)@.records).len(),
    {
        let mut names: Vec<Vec<u8>> = self.keys_with_prefix("message:".as_bytes());
        let mut sessions: Vec<Vec<u8>> = self.keys_with_prefix("ratchet:".as_bytes());
        let ghost messages_view = names_view(names@);
        let ghost sessions_view = names_view(sessions@);
        names.append(&mut sessions);
        assert(names_view(names@) =~= messages_view + sessions_view);
        let removed: usize = names.len();
        match self.put_under_master("__content_dek__".as_bytes(), fresh.as_slice()) {
            Ok(_) => {},
            Err(e) => {
                return Err(e);
            },
        }
        let ghost wrapped = self@.records[content_dek_name()];
        zeroize_key(&mut self.content_key);
        self.content_key = fresh;
        assert(self@ =~= (DbView { content_key: fresh@, ..old(self)@ }).with_record(
            content_dek_name(),
            wrapped,
        ));
        proof {
            lemma_reserved_names();
            lemma_content_prefixes();
            let all = names_view(names@);
            assert(!all.to_set().contains(content_dek_name())) by {
                if all.contains(content_dek_name()) {
                    let i = choose|i: int| 0 <= i < all.len() && all[i] == content_dek_name();
                    let found = if i < messages_view.len() {
                        messages_view[i]
                    } else {
                        sessions_view[i - messages_view.len()]
                    };
                    assert(found == content_dek_name());
                    assert(found.subrange(0, 8)[0] == found[0]);
                }
            }
        }
        self.delete_many(names);
        assert(self@.records[content_dek_name()] == wrapped);
        Ok(removed)
    }

    /// Takes every record out, one after the other. What is left cannot be opened again.
    pub fn full_wipe(&mut self) -> (done: Result<()>)
        ensures
            done is Ok,
            final(self)@ == old(self)@.without_each(listing(old(self)@.records, Seq::empty())),
            final(self)@.records =~= Map::<Seq<u8>, Seq<u8>>::empty(),
    {
        let names: Vec<Vec<u8>> = self.keys_with_prefix("".as_bytes());
        let ghost list = names_view(names@);
        proof {
            reveal_strlit("");
            assert(encode_utf8(""@) =~= Seq::<u8>::empty());
        }
        let mut i: usize = 0;
        assert(list.take(0) =~= Seq::<Seq<u8>>::empty());
        while i < names.len()
            invariant
                i <= names@.len(),
                list == names_view(names@),
                self@ == old(self)@.without_each(list.take(i as int)),
                forall|n: Seq<u8>| #[trigger]
                    self@.records.dom().contains(n) ==> old(self)@.records.dom().contains(n)
                        && !list.take(i as int).contains(n),
            decreases names@.len() - i,
        {
            let ghost before = self@;
            self.delete(names[i].as_slice());
            proof {
                let name = list[i as int];
                assert(list.take(i + 1).drop_last() =~= list.take(i as int));
                assert(list.take(i + 1).last() == name);
                assert forall|n: Seq<u8>| #[trigger] self@.records.dom().contains(n) implies old(
                    self,
                )@.records.dom().contains(n) && !list.take(i + 1).contains(n) by {
                    assert(seq![name].contains(name)) by {
                        assert(seq![name][0] == name);
                    }
                    assert(before.records.dom().contains(n));
                    let longer = list.take(i + 1);
                    if longer.contains(n) {
                        let j = choose|j: int| 0 <= j < longer.len() && longer[j] == n;
                        if j < i {
                            assert(list.take(i as int)[j] == n);
                        }
                    }
                }
            }
            i = i + 1;
        }
        proof {
            assert(list.take(i as int) =~= list);
            assert forall|n: Seq<u8>| !self@.records.dom().contains(n) by {
                if self@.records.dom().contains(n) {
                    assert(encode_utf8(""@).is_prefix_of(n));
                    assert(list.contains(n));
                }
            }
        }
        Ok(())
    }

    /// Overwrites the keys in memory, for a store that is not used any more.
    pub fn zeroize_keys(&mut self)
        ensures
            forall|i: int|
                0 <= i < 32 ==> #[trigger] final(self)@.master_key[i] == 0
                    && final(self)@.identity_key[i] == 0 && final(self)@.contacts_key[i] == 0
                    && final(self)@.content_key[i] == 0,
            final(self)@.records == old(self)@.records,
            final(self)@.changes == old(self)@.changes,
            final(self)@.message_sequence == old(self)@.message_sequence,
    {
        zeroize_key(&mut self.master_key);
        zeroize_key(&mut self.identity_key);
        zeroize_key(&mut self.contacts_key);
        zeroize_key(&mut self.content_key);
    }
}

/// The records that a quick wipe takes out.
pub open spec fn wiped_names(records: Records) -> Seq<Seq<u8>> {
    listing(records, message_prefix()) + listing(records, ratchet_prefix())
}

/// What a quick wipe makes of a store: first the wrapped content key is replaced by that of the
/// key that the store goes on with, then all messages and sessions go at once.
pub open spec fn quick_wiped(before: DbView, after: DbView) -> bool {
    let wrapped = after.records[content_dek_name()];
    &&& holds(wrapped, before.master_key, content_dek_name(), after.content_key)
    &&& after.content_key.len() == DEK_LEN
    &&& after == (DbView { content_key: after.content_key, ..before }).with_record(
        content_dek_name(),
        wrapped,
    ).without_records(wiped_names(before.records))
}

} // verus!
