//! An in-memory publish/subscribe broker core: topics that store, fan out,
//! expire and compact messages and track acknowledgements, driven one event
//! at a time, and a registry that owns topics by name.

pub mod message;
pub mod store;
pub mod ack;
pub mod topic;
pub mod broker;
