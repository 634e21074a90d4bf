//! Account-selection filter engine for snapshot dumping.
//!
//! A small textual rule language (owner identity plus `size:` and `memcmp:`
//! options, and a plain identity allow-list) is compiled into predicate
//! objects, which are then evaluated against decoded account records with
//! byte-exact semantics.

pub mod account;
pub mod base58;
pub mod digits;
pub mod error;
pub mod hexbytes;
pub mod memcmp;
pub mod owner;
pub mod record;
pub mod text;
