//! The errors that the helper reports to its operator.

use crate::text::{append_str, chars_of, string_of};
use vstd::prelude::*;

verus! {

/// What went wrong, with the detail that the operator is shown.
#[derive(Debug, Clone)]
pub enum ThError {
    AuthFailed(String),
    Config(String),
    Process(String),
    NotFound(String),
    InvalidInput(String),
    Network(String),
    Io(String),
    Json(String),
    Timeout(String),
    Shell(String),
    Proxy(String),
}

/// The words that open the message of each kind of error.
pub open spec fn heading_of(e: ThError) -> Seq<char> {
    match e {
        ThError::AuthFailed(_) => "Teleport authentication failed: "@,
        ThError::Config(_) => "Configuration error: "@,
        ThError::Process(_) => "Process execution failed: "@,
        ThError::NotFound(_) => "Resource not found: "@,
        ThError::InvalidInput(_) => "Invalid input: "@,
        ThError::Network(_) => "Network error: "@,
        ThError::Io(_) => "I/O error: "@,
        ThError::Json(_) => "JSON parsing error: "@,
        ThError::Timeout(_) => "Timeout waiting for operation: "@,
        ThError::Shell(_) => "Shell integration error: "@,
        ThError::Proxy(_) => "Teleport proxy error: "@,
    }
}

/// The detail that an error carries.
pub open spec fn detail_of(e: ThError) -> Seq<char> {
    match e {
        ThError::AuthFailed(d) => d@,
        ThError::Config(d) => d@,
        ThError::Process(d) => d@,
        ThError::NotFound(d) => d@,
        ThError::InvalidInput(d) => d@,
        ThError::Network(d) => d@,
        ThError::Io(d) => d@,
        ThError::Json(d) => d@,
        ThError::Timeout(d) => d@,
        ThError::Shell(d) => d@,
        ThError::Proxy(d) => d@,
    }
}

/// The message of an error: its heading, then its detail.
pub open spec fn message_of(e: ThError) -> Seq<char> {
    heading_of(e) + detail_of(e)
}

impl ThError {
    /// The words that open the message.
    pub fn heading(&self) -> (h: &'static str)
        ensures
            h@ == heading_of(*self),
    {
        match self {
            ThError::AuthFailed(_) => "Teleport authentication failed: ",
            ThError::Config(_) => "Configuration error: ",
            ThError::Process(_) => "Process execution failed: ",
            ThError::NotFound(_) => "Resource not found: ",
            ThError::InvalidInput(_) => "Invalid input: ",
            ThError::Network(_) => "Network error: ",
            ThError::Io(_) => "I/O error: ",
            ThError::Json(_) => "JSON parsing error: ",
            ThError::Timeout(_) => "Timeout waiting for operation: ",
            ThError::Shell(_) => "Shell integration error: ",
            ThError::Proxy(_) => "Teleport proxy error: ",
        }
    }

    /// The detail that the error carries.
    pub fn detail(&self) -> (d: &str)
        ensures
            d@ == detail_of(*self),
    {
        match self {
            ThError::AuthFailed(d) => d.as_str(),
            ThError::Config(d) => d.as_str(),
            ThError::Process(d) => d.as_str(),
            ThError::NotFound(d) => d.as_str(),
            ThError::InvalidInput(d) => d.as_str(),
            ThError::Network(d) => d.as_str(),
            ThError::Io(d) => d.as_str(),
            ThError::Json(d) => d.as_str(),
            ThError::Timeout(d) => d.as_str(),
            ThError::Shell(d) => d.as_str(),
            ThError::Proxy(d) => d.as_str(),
        }
    }

    /// The message that the operator is shown.
    pub fn message(&self) -> (m: String)
        ensures
            m@ == message_of(*self),
    {
        let mut out = chars_of(self.heading());
        append_str(&mut out, self.detail());
        string_of(&out)
    }
}

} // verus!
