//! Error and data types of the higher-level control channel: what a call
//! into the fleet can fail with, a log severity, and a disk usage report.
//! The channel itself is an external collaborator; these are the values it
//! carries.

use vstd::prelude::*;

verus! {

/// Why a control-channel call failed.
#[derive(Clone, PartialEq, Debug)]
pub enum RpcError {
    NotRegistered,
    IdentityConflict(String),
    Database(String),
    InvalidRequest(String),
    AgentNotFound(String),
    CommandFailed(String),
    Internal(String),
    Connection(String),
    Timeout,
}

impl RpcError {
    /// The human-readable text of the error, one line per variant.
    pub fn message(&self) -> (r: String)
        ensures
            match self {
                RpcError::NotRegistered => r@ == "Agent is not registered"@,
                RpcError::IdentityConflict(s) => r@ == "Agent identity conflict: "@ + s@,
                RpcError::Database(s) => r@ == "Database error: "@ + s@,
                RpcError::InvalidRequest(s) => r@ == "Invalid request: "@ + s@,
                RpcError::AgentNotFound(s) => r@ == "Agent not found: "@ + s@,
                RpcError::CommandFailed(s) => r@ == "Command failed: "@ + s@,
                RpcError::Internal(s) => r@ == "Internal error: "@ + s@,
                RpcError::Connection(s) => r@ == "Connection error: "@ + s@,
                RpcError::Timeout => r@ == "Operation timed out"@,
            },
    {
        match self {
            RpcError::NotRegistered => "Agent is not registered".to_owned(),
            RpcError::IdentityConflict(s) => "Agent identity conflict: ".to_owned().concat(
                s.as_str(),
            ),
            RpcError::Database(s) => "Database error: ".to_owned().concat(s.as_str()),
            RpcError::InvalidRequest(s) => "Invalid request: ".to_owned().concat(s.as_str()),
            RpcError::AgentNotFound(s) => "Agent not found: ".to_owned().concat(s.as_str()),
            RpcError::CommandFailed(s) => "Command failed: ".to_owned().concat(s.as_str()),
            RpcError::Internal(s) => "Internal error: ".to_owned().concat(s.as_str()),
            RpcError::Connection(s) => "Connection error: ".to_owned().concat(s.as_str()),
            RpcError::Timeout => "Operation timed out".to_owned(),
        }
    }
}

/// Why a call through the hub's outbound web client failed.
#[derive(Clone, PartialEq, Debug)]
pub enum ApiClientError {
    RequestFailed(String),
}

impl ApiClientError {
    /// The human-readable text of the error.
    pub fn message(&self) -> (r: String)
        ensures
            match self {
                ApiClientError::RequestFailed(s) => r@ == "Request failed: "@ + s@,
            },
    {
        match self {
            ApiClientError::RequestFailed(s) => "Request failed: ".to_owned().concat(s.as_str()),
        }
    }
}

/// Severity of a forwarded log line.
#[derive(Clone, Copy, PartialEq, Eq, Debug, Structural)]
pub enum LogLevel {
    Trace,
    Debug,
    Info,
    Warn,
    Error,
}

/// Disk usage report of an agent's storage.
#[derive(Clone, PartialEq, Debug)]
pub struct DiskUsage {
    pub total: u64,
    pub used: u64,
    pub available: u64,
    pub usage_percent: u8,
    pub path: String,
}

} // verus!
