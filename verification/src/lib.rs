//! Core of a swarm-based peer-to-peer download client.
//!
//! The library holds the verified logic: the length-prefixed wire message
//! codec, the piece/block download store with its content-hash checks, the
//! per-peer protocol state machine, and the helpers that derive the swarm's
//! info-hash from the metadata descriptor.  Network and file I/O live outside
//! the library and drive it through plain values.

pub mod bencode;
pub mod download;
pub mod hashing;
pub mod messages;
pub mod parse_torrent;
pub mod peers;
pub mod tracker;
