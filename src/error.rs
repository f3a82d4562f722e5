//! Errors of the client core.
use crate::protocol::DecodeError;
use vstd::prelude::*;

verus! {

/// Failures of a connection.
#[derive(Debug, Clone, Copy, PartialEq, Eq, Structural)]
pub enum ConnectionError {
    Disconnected,
    Canceled,
    Shutdown,
}

/// Failures of the client's life cycle.
#[derive(Debug, Clone, Copy, PartialEq, Eq, Structural)]
pub enum ClientError {
    NotStarted,
    StartFailed,
    Shutdown,
}

#[derive(Debug, Clone, PartialEq)]
pub enum Error {
    Connection(ConnectionError),
    Client(ClientError),
    /// A transport failure, with its description.
    Io(String),
    /// A JSON payload that could not be read, with the reason.
    Json(String),
    /// Bytes that are no valid frame or header.
    Decode(DecodeError),
    /// A header or frame too long for its length fields.
    TooLarge,
    EmptyNameServers,
    EmptyRouteData,
    EmptyBatchMessage,
    TopicNotExist(String),
    ResponseError { code: i16, message: String },
}

impl ConnectionError {
    pub fn description(&self) -> (r: &'static str) {
        match self {
            ConnectionError::Disconnected => "disconnected",
            ConnectionError::Canceled => "canceled request",
            ConnectionError::Shutdown => "the connection was shut down",
        }
    }
}

impl ClientError {
    pub fn description(&self) -> (r: &'static str) {
        match self {
            ClientError::NotStarted => "client is not started",
            ClientError::StartFailed => "client start failed",
            ClientError::Shutdown => "client was shut down",
        }
    }
}

} // verus!
