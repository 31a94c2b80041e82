//! The forms in which the library's values travel.
pub mod nostr;
