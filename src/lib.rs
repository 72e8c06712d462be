//! Core of a peer-to-peer file-distribution client: torrent metadata and its
//! identity hash, the tracker exchanges, and the peer wire protocol.
use vstd::prelude::*;

pub mod tree;
pub mod text;
pub mod torrent;
pub mod peer;
pub mod announce;
pub mod scrape;
pub mod client;
pub mod wire;

verus! {

/// Version number carried in the client's peer identifier.
pub const CLIENT_VERSION: u64 = 1;

} // verus!
