//! Storage and synchronisation layer for small, ordered text notes.
//!
//! A note is a text file with a metadata header ([`codec`]). The files lie
//! in two partitions, the active notes and the archive ([`layout`],
//! [`files`]), and the store lists, saves, deletes, moves and reorders them
//! ([`store`]). What holds across several operations is proved in
//! [`guarantees`]. The same operations can be asked of a server ([`remote`]),
//! which answers them behind an optional credential ([`service`]); which of
//! the two a process does is settled once, when it starts ([`config`]).

pub mod clock;
pub mod codec;
pub mod config;
pub mod error;
pub mod files;
pub mod guarantees;
pub mod json;
pub mod layout;
pub mod note;
pub mod remote;
pub mod service;
pub mod store;
pub mod text;
