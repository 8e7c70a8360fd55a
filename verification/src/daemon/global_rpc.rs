use vstd::prelude::*;
use crate::socket::Dock;

pub mod transport;

verus! {

/// The dock on which every relay answers global RPC requests.
pub const GLOBAL_RPC_DOCK: Dock = 1;

} // verus!
