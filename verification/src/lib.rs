//! A verified core for multiparty Payjoin sessions over a Payjoin Directory.
#![allow(unused_imports)]

pub mod append_mailbox;
pub mod bech32;
pub mod bytes;
pub mod directory;
pub mod error_codes;
pub mod hex;
pub mod hpke;
pub mod multiparty;
pub mod nostr_db;
pub mod ohttp;
pub mod ohttp_directory;
pub mod persist;
pub mod reply_error;
pub mod text;
pub mod time;
pub mod uri;
pub mod url;
