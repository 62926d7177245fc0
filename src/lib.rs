//! A topic-addressed publish/subscribe relay core: a registry of named topics,
//! each with a last-value cache and a bounded multicast buffer per subscriber,
//! a per-session subscription map that lets a newer subscription replace an
//! older one, and the decisions that the protocol adapters make around them.
pub mod db;
pub mod events;
pub mod keyed;
pub mod laws;
pub mod logging;
pub mod protocol;
pub mod session;
pub mod topic;
