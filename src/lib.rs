//! Socket multiplexing for bevy: registered sockets, their buffers, and the
//! decisions of the update cycle that drives them.
//!
//! - `socket_manager`: the registry of sockets, owner handles and the update cycle.
//! - `tcp_stream`: the chunked read and write queues of stream sockets.
//! - `quic`: the timer, writability and receive decisions of the QUIC runtime bridge.

pub mod quic;
pub mod socket_manager;
pub mod tcp_stream;
