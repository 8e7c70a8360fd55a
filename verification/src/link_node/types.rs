use vstd::prelude::*;
use vstd::std_specs::cmp::PartialEqSpecImpl;
use crate::addr::{AnonEndpoint, Fingerprint};

verus! {

/// The number under which a client is known to the relay it first contacted.
/// It means nothing outside that relay.
pub type ClientId = u64;

/// Who is at the other end of a link.
#[derive(Clone, Copy, Debug, Eq, Hash)]
pub enum NeighborId {
    Relay(Fingerprint),
    Client(ClientId),
}

impl PartialEq for NeighborId {
    fn eq(&self, other: &NeighborId) -> (same: bool) {
        match (self, other) {
            (NeighborId::Relay(a), NeighborId::Relay(b)) => *a == *b,
            (NeighborId::Client(a), NeighborId::Client(b)) => *a == *b,
            _ => false,
        }
    }
}

impl PartialEqSpecImpl for NeighborId {
    open spec fn obeys_eq_spec() -> bool {
        true
    }

    open spec fn eq_spec(&self, other: &NeighborId) -> bool {
        *self == *other
    }
}

/// Incoming messages from the link layer that are addressed to "us".
#[derive(Debug)]
pub enum IncomingMsg {
    /// A message on a forward path, from an anonymous sender.
    Forward { from: AnonEndpoint, body: Vec<u8> },
    /// A message that came back over one of our reply blocks.
    Backward { rb_id: u64, body: Vec<u8> },
}

/// What two neighbours tell each other about payment when a link comes up.
/// A positive price means that the sender owes the receiver.
#[derive(Clone, Debug)]
pub struct LinkPaymentInfo {
    pub price: i64,
    pub debt_limit: i64,
    pub paysystem_name_addrs: Vec<(String, String)>,
}

/// A relay that this node dials by itself, and the fingerprint that the relay
/// has to prove.
#[derive(Clone, Debug)]
pub struct OutRoute {
    pub name: String,
    pub connect: String,
    pub fingerprint: Fingerprint,
}

/// A listener of a relay.
#[derive(Clone, Debug)]
pub struct InRoute {
    pub name: String,
    pub listen: String,
}

/// What a link node is set up with.
#[derive(Debug)]
pub struct LinkConfig {
    /// The in-routes of a relay; `None` for a client.
    pub relay_config: Option<Vec<InRoute>>,
    pub out_routes: Vec<OutRoute>,
    /// The names of the payment systems that are switched on.
    pub payment_systems: Vec<String>,
    pub db_path: String,
}

impl LinkConfig {
    /// Whether the node is a relay.
    pub fn is_relay(&self) -> (relay: bool)
        ensures
            relay == self.relay_config.is_some(),
    {
        self.relay_config.is_some()
    }

    /// Whether some out-route expects `fingerprint`.
    pub open spec fn dials(&self, fingerprint: Fingerprint) -> bool {
        exists|i: int|
            0 <= i < self.out_routes@.len() && (#[trigger] self.out_routes@[i]).fingerprint
                == fingerprint
    }

    /// Whether `fingerprint` is the target of an out-route, so that the node
    /// may dial it when it has no link to it.
    pub fn is_out_route_target(&self, fingerprint: &Fingerprint) -> (found: bool)
        ensures
            found == self.dials(*fingerprint),
    {
        let mut i: usize = 0;
        while i < self.out_routes.len()
            invariant
                i <= self.out_routes@.len(),
                forall|j: int| 0 <= j < i ==> self.out_routes@[j].fingerprint != *fingerprint,
            decreases self.out_routes@.len() - i,
        {
            if self.out_routes[i].fingerprint == *fingerprint {
                return true;
            }
            i += 1;
        }
        false
    }
}

} // verus!
