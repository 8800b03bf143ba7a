//! Control plane of a distributed media-transcoding orchestrator: the wire
//! messages and their codec, the master's dispatch bookkeeping, the peer
//! keepalive and routing rules, the library scanner's bookkeeping, and the
//! worker's path remapping, progress parsing and output placement.
pub mod path;
pub mod config;
pub mod wire;
pub mod codec;
pub mod progress;
pub mod dispatch;
pub mod runner;
pub mod hashing;
pub mod librarian;
pub mod peer;
pub mod catalog;
