//! What is done with the servers.

pub mod disk;
pub mod ecs;
pub mod expiry;
pub mod snapshot;
