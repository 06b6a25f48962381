//! Core of a client for memcached clusters that speak the binary protocol:
//! the packet codec, the consistent-hash ring that routes keys to nodes, the
//! value compressors, and the decisions that drive pipelined batches.

pub mod status;
pub mod error;
pub mod packet;
pub mod keymap;
pub mod compress;
pub mod zlib;
pub mod ring;
pub mod client;
pub mod request;
pub mod response;
