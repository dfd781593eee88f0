//! Decoders for the responses of the upstream API, and the rules for
//! calling it: which outcomes are tried again, and how often.

pub mod download_link;
pub mod files;
pub mod game_mod;
pub mod metadata;
pub mod retry;
