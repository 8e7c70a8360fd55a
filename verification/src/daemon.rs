pub mod global_rpc;
