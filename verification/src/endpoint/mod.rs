//! The endpoint: what a peer knows and decides, without its sockets and timers.

pub mod carriers;
pub mod laws;
pub mod memory;
pub mod paths;
pub mod policy;
pub mod queues;
pub mod reliable;
pub mod router;
pub mod sessions;
pub mod wire;
