//! The decisions of a BitTorrent client that shares its machine with other
//! instances of itself: how much of a torrent is on disk, and which instance a
//! torrent or a connection belongs to.
//!
//! Files, sockets and tasks are the caller's. This crate takes what they
//! brought as plain values and returns what to do with them.

pub mod checker;
pub mod instances;
pub mod text;
pub mod torrent_info;
