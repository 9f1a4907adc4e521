//! Administrator-presence authentication core: the store of authorized
//! ed25519 keys, the challenge-response state machine, and the decisions of
//! the admin API and of the enrollment utilities.

pub mod string_map;
pub mod hex;
pub mod crypto;
pub mod keys;
pub mod auth;
pub mod text;
pub mod env_file;
pub mod api;
pub mod setup;
pub mod laws;
