//! Core of a LAN peer-to-peer mesh: the wire codec for the TCP protocol,
//! peer-discovery bookkeeping, the connection-manager and capability-negotiation
//! decision logic, and the file-distribution integrity rules.

pub mod byteseq;
pub mod capability;
pub mod codec;
pub mod connection;
pub mod convcodec;
pub mod convdata;
pub mod discovery;
pub mod filedist;
pub mod llm;
pub mod numtext;
pub mod registry;
pub mod wrappers;

use vstd::prelude::*;

verus! {

/// Hard ceiling on a frame's payload length: 50 MB.
pub const MAX_FRAME_LEN: u64 = 52428800;

/// Fixed TCP port of the wire protocol.
pub const TCP_PORT: u16 = 7878;

/// Fixed UDP port of peer discovery.
pub const DISCOVERY_PORT: u16 = 5000;

/// Broadcast and periodic-sync interval, in seconds.
pub const SYNC_INTERVAL_SECS: u64 = 30;

/// Discovery debounce window, in seconds.
pub const DEBOUNCE_WINDOW_SECS: i64 = 60;

/// Size of one sub-read when draining a frame's payload, in bytes.
pub const CHUNK_SIZE: usize = 8192;

} // verus!
