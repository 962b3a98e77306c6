//! Several instances on one machine that share a listening port: who has
//! which torrent, and who a connection belongs to.

use vstd::prelude::*;

pub mod coordinator;
pub mod discovery;
pub mod effects;
pub mod fd_passing;
pub mod guarantees;
pub mod peers;
pub mod prefixed_reader;
pub mod protocol;
pub mod routing;
pub mod sockets;
pub mod wire;

pub use coordinator::InstanceCoordinator;

verus! {

/// The name of an instance.
pub type InstanceId = String;

/// Forwarding strategy for outgoing peer connections that don't belong to us.
///
/// - `FdPass`: hand off the raw TCP fd to the owning instance via SCM_RIGHTS.
///   The forwarder bows out entirely; zero proxy overhead.
/// - `StreamProxy`: connect a Unix socket to the owning instance and pipe bytes
///   bidirectionally. Works on any transport; higher overhead.
///
/// The receiver always accepts both modes (dispatched on the mode byte), so a
/// mixed-version cluster operates transparently. This setting only governs what
/// the local instance emits when it has the choice.
#[derive(Debug, Clone, Copy, PartialEq, Eq, Structural)]
pub enum ForwardMode {
    /// SCM_RIGHTS fd passing. Default for new code paths.
    FdPass,
    /// Bidirectional stream proxy over the Unix IPC socket.
    StreamProxy,
}

impl Default for ForwardMode {
    fn default() -> (mode: Self)
        ensures
            mode == ForwardMode::FdPass,
    {
        ForwardMode::FdPass
    }
}

} // verus!
