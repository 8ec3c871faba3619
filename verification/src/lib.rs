//! Verified core of a small peer-to-peer file sender for a local network.
//!
//! The library holds the wire protocol (big-endian framing of files and
//! directories), the receiving state machine, the choice of a LAN address,
//! and the small decisions of the command-line front end. Sockets, files,
//! service discovery and progress bars stay with the program that drives it.

pub mod wire;
pub mod sender;
pub mod receiver;
pub mod streamer;
pub mod menu;
pub mod stream;
pub mod announce;
