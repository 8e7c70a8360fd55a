//! The routing core of an anonymous overlay network, without I/O: the state
//! machines and rules of links, sockets, havens and the relay graph, each
//! with a contract that Verus proves. The caller performs what they ask for.

pub mod addr;
pub mod daemon;
pub mod dht;
pub mod haven;
pub mod link_node;
pub mod relay_graph;
pub mod socket;
