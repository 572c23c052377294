pub mod entry;
pub mod raft_log;
pub mod store;
pub mod message;
pub mod error;
pub mod node;
pub mod session;
pub mod router;
pub mod laws;
