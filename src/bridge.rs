//! What the hidden-service bridge does with each incoming stream request.

use vstd::prelude::*;

verus! {

/// The kind of an incoming stream request.
#[derive(Debug, Clone, Copy, PartialEq, Eq, Structural)]
pub enum StreamRequestKind {
    /// Open a stream to a port.
    Begin { port: u16 },
    /// Open a directory stream.
    BeginDir,
    /// Anything else.
    Other,
}

/// What to do with a stream request.
#[derive(Debug, Clone, Copy, PartialEq, Eq, Structural)]
pub enum RequestAction {
    /// Accept with an empty connected reply and splice to the local socket.
    Accept,
    /// Tear the circuit down.
    ShutdownCircuit,
}

/// The port of the web bridge.
pub const WEB_PORT: u16 = 80;

/// The port of the message server.
pub const MESSAGE_PORT: u16 = 9999;

/// Only a request to open a stream to a permitted port is accepted.
pub open spec fn request_action(kind: StreamRequestKind, permitted_ports: Seq<u16>) -> RequestAction {
    match kind {
        StreamRequestKind::Begin { port } => if permitted_ports.contains(port) {
            RequestAction::Accept
        } else {
            RequestAction::ShutdownCircuit
        },
        _ => RequestAction::ShutdownCircuit,
    }
}

/// Decide what to do with a stream request.
pub fn decide_request(kind: StreamRequestKind, permitted_ports: &Vec<u16>) -> (r: RequestAction)
    ensures
        r == request_action(kind, permitted_ports@),
{
    match kind {
        StreamRequestKind::Begin { port } => {
            let mut i: usize = 0;
            while i < permitted_ports.len()
                invariant
                    kind == (StreamRequestKind::Begin { port }),
                    i <= permitted_ports@.len(),
                    forall|j: int| 0 <= j < i ==> permitted_ports@[j] != port,
                decreases permitted_ports@.len() - i,
            {
                if permitted_ports[i] == port {
                    assert(permitted_ports@[i as int] == port);
                    assert(permitted_ports@.contains(port));

                    return RequestAction::Accept;
                }
                i = i + 1;
            }
            RequestAction::ShutdownCircuit
        },
        _ => RequestAction::ShutdownCircuit,
    }
}

} // verus!
