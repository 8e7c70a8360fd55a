use vstd::prelude::*;
use vstd::std_specs::cmp::PartialEqSpecImpl;
use crate::addr::Fingerprint;

pub mod haven_socket;
pub mod n2r_socket;

verus! {

/// A demultiplexing port inside one node's endpoint space.
pub type Dock = u16;

/// A logical delivery target: a fingerprint and a dock chosen by the receiver.
#[derive(Clone, Copy, Debug, Eq)]
pub struct Endpoint {
    pub fingerprint: Fingerprint,
    pub dock: Dock,
}

impl Endpoint {
    pub fn new(fingerprint: Fingerprint, dock: Dock) -> (ep: Endpoint)
        ensures
            ep.fingerprint == fingerprint,
            ep.dock == dock,
    {
        Endpoint { fingerprint, dock }
    }
}

impl PartialEq for Endpoint {
    fn eq(&self, other: &Endpoint) -> (same: bool) {
        self.dock == other.dock && self.fingerprint == other.fingerprint
    }
}

impl PartialEqSpecImpl for Endpoint {
    open spec fn obeys_eq_spec() -> bool {
        true
    }

    open spec fn eq_spec(&self, other: &Endpoint) -> bool {
        *self == *other
    }
}

/// Why a socket could not be bound.
#[derive(Clone, Copy, Debug, PartialEq, Eq, Structural)]
pub enum SocketBindError {
    /// The endpoint is bound already, or no dock is left to pick.
    DockInUse,
}

/// Why a socket could not send.
#[derive(Clone, Copy, Debug, PartialEq, Eq, Structural)]
pub enum SocketSendError {
    /// The relay graph has no path, or the first hop cannot be reached.
    NoRoute,
    /// The destination's locator is missing from the DHT, or the lookup failed.
    DhtError,
    /// The debt limit is reached and settlement keeps failing.
    PaymentRefused,
}

/// Why a socket could not hand out a message.
#[derive(Clone, Copy, Debug, PartialEq, Eq, Structural)]
pub enum SocketRecvError {
    /// The underlying N2R socket failed to receive.
    N2rRecvError,
    /// The inner payload of a haven message did not decode.
    HavenMsgBadFormat,
}

} // verus!
