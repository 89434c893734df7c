//! The target manager and the routing of received frames.

pub mod listener;
pub mod target;

pub use listener::{handle_packet, is_broadcast_mac};
pub use target::{Target, TargetAddr, TargetManager};
