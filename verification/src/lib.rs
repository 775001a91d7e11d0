//! Peer-to-peer messaging core: message codec, IPC framing, daemon router,
//! service directory and chunked file transfer, with verified contracts.

use vstd::prelude::*;

pub mod cbor;
pub mod chat;
pub mod config;
pub mod ext;
pub mod idset;
pub mod file;
pub mod framing;
pub mod get_client;
pub mod gossip;
pub mod message;
pub mod request;
pub mod router;
pub mod service;
pub mod set_client;
pub mod swarm;

verus! {

/// Client id addressed to every client on a peer.
pub const ALL_CLIENTS: u16 = 0xffff;

/// Size of the data carried by one file-transfer chunk.
pub const CHUNK_SIZE: usize = 512;

/// Idle timeout of a file transfer in seconds.
pub const IDLE_TIMEOUT: u64 = 30;

/// Seconds after which a peer entry without a refresh is expired.
pub const PEER_TTL: u64 = 30;

} // verus!
