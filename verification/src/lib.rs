//! Verified core of an agent/hub coordination service.
//!
//! Agents on remote GPU instances register with a central hub over a duplex
//! text-framed channel and are kept alive by hub-initiated heartbeats. This
//! crate holds the verified heart of that system: the wire codec, the agent
//! session state machine, the hub connection registry, the heartbeat fanout,
//! the staleness reaper and the identity resolver. Transport, persistence and
//! task plumbing live outside the library and drive these functions.

pub mod backoff;
pub mod text;
pub mod escape;
pub mod ids;
pub mod lit;
pub mod protocol;
pub mod codec;
pub mod registry;
pub mod store;
pub mod hub;
pub mod agent;
pub mod config;
pub mod rpc;
pub mod tailnet;
pub mod clock;

