//! Error taxonomy of the networking core.

use crate::server::ClientId;
use vstd::prelude::*;

verus! {

/// A failure in the I/O domain, surfaced to the host as a lifecycle event.
/// Every variant carries a textual description of the underlying I/O
/// failure; the socket variants also name the connection they belong to.
/// None of these is fatal to the process.
#[derive(Debug, Clone, PartialEq, Eq)]
pub enum NetworkError {
    /// One accept attempt failed; the accept loop continues.
    Accept(String),
    /// Binding a listener failed; fatal for that listener instance, and
    /// surfaced exactly once.
    Listen(String),
    /// A read on a connection's socket failed; that connection's read
    /// worker stops.
    SocketRead(String, ClientId),
    /// A write on a connection's socket failed; that connection's write
    /// worker stops, but the connection stays registered.
    SocketWrite(String, ClientId),
}

} // verus!
