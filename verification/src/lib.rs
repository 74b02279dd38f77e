//! Core logic of the dratchet messenger: the relay server's directory, mailboxes and
//! abuse limits, the client's encrypted store, and the desktop shell's decisions.

pub mod bytes;
pub mod hex;
pub mod map;
pub mod random;
pub mod server;
pub mod store;
pub mod text;
pub mod ui;
pub mod username;
