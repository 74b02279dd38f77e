//! How much a notification of a new message shows.

use vstd::prelude::*;
use vstd::utf8::encode_utf8;
use super::cbor::{
    cbor_bytes, cbor_item, decode_item, encode_item, is_name, name_bytes, Item, ItemView, Scalar,
    ScalarView,
};
use super::db::{stores, Db, DbView, Scope};
use super::error::{Error, ErrorView, Result};

verus! {

/// From least to most revealing.
#[derive(Debug, Clone, Copy, PartialEq, Eq, Structural)]
pub enum NotificationPreviewLevel {
    /// That there is a message.
    Nothing,
    /// Who it is from.
    HandleOnly,
    /// Who it is from, and what it says.
    HandleAndMessage,
}

impl Default for NotificationPreviewLevel {
    fn default() -> (level: NotificationPreviewLevel)
        ensures
            level == NotificationPreviewLevel::Nothing,
    {
        NotificationPreviewLevel::Nothing
    }
}

pub open spec fn level_name() -> Seq<u8> {
    encode_utf8("notification_preview_level"@)
}

/// A level in its record.
pub open spec fn level_text(level: NotificationPreviewLevel) -> Seq<char> {
    match level {
        NotificationPreviewLevel::Nothing => "None"@,
        NotificationPreviewLevel::HandleOnly => "HandleOnly"@,
        NotificationPreviewLevel::HandleAndMessage => "HandleAndMessage"@,
    }
}

pub open spec fn level_item(level: NotificationPreviewLevel) -> ItemView {
    ItemView::Single(ScalarView::Text(level_text(level)))
}

/// The name that a record gives: a text, or the one field of a map.
pub open spec fn given_name(item: ItemView) -> Option<Seq<u8>> {
    match item {
        ItemView::Single(ScalarView::Text(t)) => Some(encode_utf8(t)),
        ItemView::Fields(pairs) => if pairs.len() == 1 {
            name_bytes(pairs[0].0)
        } else {
            None
        },
        _ => None,
    }
}

/// The level of a name.
pub open spec fn level_named(name: Option<Seq<u8>>) -> Option<NotificationPreviewLevel> {
    if name == Some(encode_utf8("None"@)) {
        Some(NotificationPreviewLevel::Nothing)
    } else if name == Some(encode_utf8("HandleOnly"@)) {
        Some(NotificationPreviewLevel::HandleOnly)
    } else if name == Some(encode_utf8("HandleAndMessage"@)) {
        Some(NotificationPreviewLevel::HandleAndMessage)
    } else {
        None
    }
}

/// The level that an encoded record holds.
pub open spec fn level_of(bytes: Seq<u8>) -> Option<NotificationPreviewLevel> {
    match cbor_item(bytes) {
        Some(item) => level_named(given_name(item)),
        None => None,
    }
}

/// Whether `after` is `before` with the level stored, so that it reads back as itself.
pub open spec fn stores_level(before: DbView, after: DbView, level: NotificationPreviewLevel) -> bool {
    let bytes = cbor_bytes(level_item(level));
    &&& stores(before, after, Scope::Identity, level_name(), bytes)
    &&& level_of(bytes) == Some(level)
}

/// The saved level; where none was saved, the one that reveals least.
pub open spec fn stored_level(db: DbView) -> std::result::Result<
    NotificationPreviewLevel,
    ErrorView,
> {
    match db.read(Scope::Identity, level_name()) {
        Err(e) => Err(e),
        Ok(None) => Ok(NotificationPreviewLevel::Nothing),
        Ok(Some(bytes)) => match level_of(bytes) {
            Some(level) => Ok(level),
            None => Err(
                ErrorView::MalformedRecord(
                    "stored notification preview level is not valid CBOR for this shape",
                ),
            ),
        },
    }
}

/// A saved level is found again.
pub proof fn law_saved_level_reads_back(
    before: DbView,
    after: DbView,
    level: NotificationPreviewLevel,
)
    requires
        stores_level(before, after, level),
    ensures
        stored_level(after) == std::result::Result::<NotificationPreviewLevel, ErrorView>::Ok(level),
{
}

fn name_of(level: NotificationPreviewLevel) -> (name: String)
    ensures
        name@ == level_text(level),
{
    match level {
        NotificationPreviewLevel::Nothing => "None".to_owned(),
        NotificationPreviewLevel::HandleOnly => "HandleOnly".to_owned(),
        NotificationPreviewLevel::HandleAndMessage => "HandleAndMessage".to_owned(),
    }
}

fn level_from(item: &Item) -> (level: Option<NotificationPreviewLevel>)
    ensures
        level == level_named(given_name(item@)),
{
    let key: &Scalar = match item {
        Item::Single(value) => {
            if !matches!(value, Scalar::Text(_)) {
                return None;
            }
            value
        },
        Item::Fields(pairs) => {
            if pairs.len() != 1 {
                return None;
            }
            &pairs[0].0
        },
    };
    if is_name(key, "None") {
        Some(NotificationPreviewLevel::Nothing)
    } else if is_name(key, "HandleOnly") {
        Some(NotificationPreviewLevel::HandleOnly)
    } else if is_name(key, "HandleAndMessage") {
        Some(NotificationPreviewLevel::HandleAndMessage)
    } else {
        None
    }
}

proof fn lemma_level_texts()
    ensures
        encode_utf8("None"@).len() == 4,
        encode_utf8("HandleOnly"@).len() == 10,
        encode_utf8("HandleAndMessage"@).len() == 16,
{
    reveal_strlit("None");
    reveal_strlit("HandleOnly");
    reveal_strlit("HandleAndMessage");
    vstd::utf8::is_ascii_chars_encode_utf8("None"@);
    vstd::utf8::is_ascii_chars_encode_utf8("HandleOnly"@);
    vstd::utf8::is_ascii_chars_encode_utf8("HandleAndMessage"@);
}

impl Db {
    /// Stores the level.
    pub fn save_notification_preview_level(&mut self, level: NotificationPreviewLevel) -> (done: Result<
        (),
    >)
        ensures
            done is Ok,
            stores_level(old(self)@, final(self)@, level),
    {
        let item: Item = Item::Single(Scalar::Text(name_of(level)));
        let bytes: Vec<u8> = encode_item(&item);
        proof {
            lemma_level_texts();
        }
        self.put_encrypted(
            Scope::Identity,
            "notification_preview_level".as_bytes(),
            bytes.as_slice(),
        )
    }

    /// The saved level; where none was saved, the one that reveals least.
    pub fn load_notification_preview_level(&self) -> (level: Result<NotificationPreviewLevel>)
        ensures
            match level {
                Ok(l) => stored_level(self@) == std::result::Result::<
                    NotificationPreviewLevel,
                    ErrorView,
                >::Ok(l),
                Err(e) => stored_level(self@) == std::result::Result::<
                    NotificationPreviewLevel,
                    ErrorView,
                >::Err(e@),
            },
    {
        let found: Option<Vec<u8>> = match self.get_encrypted(
            Scope::Identity,
            "notification_preview_level".as_bytes(),
        ) {
            Ok(found) => found,
            Err(e) => {
                return Err(e);
            },
        };
        match found {
            None => Ok(NotificationPreviewLevel::default()),
            Some(bytes) => {
                if let Some(item) = decode_item(bytes.as_slice()) {
                    if let Some(level) = level_from(&item) {
                        return Ok(level);
                    }
                }
                Err(
                    Error::MalformedRecord(
                        "stored notification preview level is not valid CBOR for this shape",
                    ),
                )
            },
        }
    }
}

} // verus!
