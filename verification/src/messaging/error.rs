//! Errors of the messaging (NATS) layer.
use vstd::prelude::*;
use crate::types::plugins::OverflowPolicy;

verus! {

/// Errors of the messaging client.
#[derive(Debug)]
pub enum MessagingError {
    Connect(String),
    Request(String),
    Publish(String),
    Subscription(String),
    Timeout { timeout_ms: u64 },
    Overflow { policy: OverflowPolicy },
    RetryExhausted { attempts: usize, last_error: Box<MessagingError> },
    Protocol(String),
    Header(String),
    Closed,
}

/// Which operation an underlying error came from.
#[derive(Debug, Clone, Copy, PartialEq, Eq, Structural)]
pub enum ErrorKind {
    Connect,
    Request,
    Publish,
    Subscription,
    Header,
}

impl MessagingError {
    /// Wraps the message of an underlying error as the error of the given kind.
    pub fn from_error(kind: ErrorKind, message: String) -> (r: MessagingError)
        ensures
            match kind {
                ErrorKind::Connect => r == MessagingError::Connect(message),
                ErrorKind::Request => r == MessagingError::Request(message),
                ErrorKind::Publish => r == MessagingError::Publish(message),
                ErrorKind::Subscription => r == MessagingError::Subscription(message),
                ErrorKind::Header => r == MessagingError::Header(message),
            },
    {
        match kind {
            ErrorKind::Connect => MessagingError::Connect(message),
            ErrorKind::Request => MessagingError::Request(message),
            ErrorKind::Publish => MessagingError::Publish(message),
            ErrorKind::Subscription => MessagingError::Subscription(message),
            ErrorKind::Header => MessagingError::Header(message),
        }
    }
}

} // verus!
