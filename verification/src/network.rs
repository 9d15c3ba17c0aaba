//! What travels between peers: the messages and the compression of input bytes, plus the
//! connection statistics.
pub mod compression;
pub mod messages;
pub mod network_stats;
pub mod protocol;
