//! Networking core for a text-protocol (Telnet/GMCP) game server.
//!
//! The library holds the verified heart of the system: the message and
//! payload model, the protocol framer that classifies inbound byte chunks
//! and encodes outbound messages, the connection registry with its
//! per-connection outbound queues, and the five poll-facade queues that a
//! host drains once per scheduling tick. Socket I/O and task spawning live
//! outside the library; they hand byte chunks and accepted sockets in and
//! take encoded frames out.

pub mod channel;
pub mod codec;
pub mod errors;
pub mod events;
pub mod server;
pub mod telnet;
