pub mod cooldown;
pub mod link;
pub mod node;
pub mod replay;
pub mod types;
