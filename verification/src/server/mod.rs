//! The relay server: wire protocol, shared state, abuse limits and per-frame decisions.

pub mod abuse;
pub mod action;
pub mod error;
pub mod laws;
pub mod outcomes;
pub mod persistence;
pub mod promises;
pub mod protocol;
pub mod pruning;
pub mod state;
pub mod views;
pub mod ws;
