//! Decisions of the desktop shell: what it shows, and when it talks to the server.

pub mod dto;
pub mod poll;
