//! An in-memory music catalog, built from one pass over a directory tree and
//! then served read-only: artists, albums and songs keyed by slugs, with
//! deterministic collision suffixes, track-ordered song lists, album covers
//! rated and written through to their songs, and sorted listings.
//!
//! Every mutating operation of the catalog is specified by a functional model
//! over ghost views and proved against it; the crate's standing laws live in
//! `laws`. What needs the outside world — the walker, the codec library, the
//! pattern matcher, the platform's directories — is reached through a small
//! set of trusted declarations, each naming what it relies on.
pub mod catalog;
pub mod config;
pub mod cover;
pub mod error;
pub mod json;
pub mod laws;
pub mod meta;
pub mod probe;
pub mod slug;
pub mod sort;
pub mod strs;
pub mod urls;
pub mod walk;

pub use slug::sanitize;
