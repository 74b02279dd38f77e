//! The client's encrypted store.

pub mod cbor;
pub mod contacts;
pub mod crypto;
pub mod db;
pub mod error;
pub mod gate;
pub mod laws;
pub mod messages;
pub mod notification_prefs;
pub mod outcomes;
pub mod profile;
pub mod promises;
pub mod routing;
pub mod wipe_policy;
