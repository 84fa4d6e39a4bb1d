//! A durable, tailable event log with named resume cursors: the key codec,
//! the cursor's decisions, and the coordinator's decisions, verified.
pub mod adapters;
pub mod event;
pub mod key;
pub mod cursor;
pub mod coordinator;
pub mod session;
pub mod channel;
