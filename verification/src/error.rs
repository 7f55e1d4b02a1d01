//! Error types for the Redis client.
//!
//! Provides error types for the Redis client including:
//! - Protocol errors (nil, invalid reply)
//! - Connection errors (closed, rate limited, timeout)
//! - Transaction errors (WATCH triggered)

use vstd::prelude::*;

verus! {

/// Redis nil reply - key does not exist or similar.
#[derive(Debug, Clone, Copy)]
pub struct NilError;

impl NilError {
    /// The message of this error.
    pub fn to_string(&self) -> (res: String)
        ensures
            res@ == "redis: nil"@,
    {
        String::from_str("redis: nil")
    }
}

/// Redis transaction failed (WATCH was triggered).
#[derive(Debug, Clone, Copy)]
pub struct TxFailedError;

impl TxFailedError {
    /// The message of this error.
    pub fn to_string(&self) -> (res: String)
        ensures
            res@ == "redis: transaction failed"@,
    {
        String::from_str("redis: transaction failed")
    }
}

/// Redis client is closed.
#[derive(Debug, Clone, Copy)]
pub struct ClosedError;

impl ClosedError {
    /// The message of this error.
    pub fn to_string(&self) -> (res: String)
        ensures
            res@ == "redis: client is closed"@,
    {
        String::from_str("redis: client is closed")
    }
}

/// Rate limited - opening connections too fast.
#[derive(Debug, Clone, Copy)]
pub struct RateLimitedError;

impl RateLimitedError {
    /// The message of this error.
    pub fn to_string(&self) -> (res: String)
        ensures
            res@ == "redis: you open connections too fast"@,
    {
        String::from_str("redis: you open connections too fast")
    }
}

/// Redis protocol/server error.
#[derive(Debug)]
pub struct RedisError(pub String);

impl View for RedisError {
    type V = Seq<char>;

    open spec fn view(&self) -> Seq<char> {
        self.0@
    }
}

impl Clone for RedisError {
    fn clone(&self) -> (res: Self)
        ensures
            res@ == self@,
    {
        RedisError(self.0.clone())
    }
}

impl RedisError {
    /// The message of this error.
    pub fn to_string(&self) -> (res: String)
        ensures
            res@ == self@,
    {
        self.0.clone()
    }
}

/// Main error type for the Redis client.
#[derive(Debug)]
pub enum Error {
    Nil,
    TxFailed,
    Closed,
    RateLimited,
    Redis(RedisError),
    Io(String),
    Other(String),
    Timeout,
}

/// Mathematical model of an [`Error`].
pub enum SpecError {
    Nil,
    TxFailed,
    Closed,
    RateLimited,
    Redis(Seq<char>),
    Io(Seq<char>),
    Other(Seq<char>),
    Timeout,
}

impl View for Error {
    type V = SpecError;

    open spec fn view(&self) -> SpecError {
        match self {
            Error::Nil => SpecError::Nil,
            Error::TxFailed => SpecError::TxFailed,
            Error::Closed => SpecError::Closed,
            Error::RateLimited => SpecError::RateLimited,
            Error::Redis(e) => SpecError::Redis(e@),
            Error::Io(s) => SpecError::Io(s@),
            Error::Other(s) => SpecError::Other(s@),
            Error::Timeout => SpecError::Timeout,
        }
    }
}

/// The text an error displays.
pub open spec fn error_text(e: SpecError) -> Seq<char> {
    match e {
        SpecError::Nil => "redis: nil"@,
        SpecError::TxFailed => "redis: transaction failed"@,
        SpecError::Closed => "redis: client is closed"@,
        SpecError::RateLimited => "redis: you open connections too fast"@,
        SpecError::Redis(m) => m,
        SpecError::Io(m) => "IO error: "@ + m,
        SpecError::Other(m) => m,
        SpecError::Timeout => "timeout"@,
    }
}

impl Clone for Error {
    fn clone(&self) -> (res: Self)
        ensures
            res@ == self@,
    {
        match self {
            Error::Nil => Error::Nil,
            Error::TxFailed => Error::TxFailed,
            Error::Closed => Error::Closed,
            Error::RateLimited => Error::RateLimited,
            Error::Redis(e) => Error::Redis(e.clone()),
            Error::Io(s) => Error::Io(s.clone()),
            Error::Other(s) => Error::Other(s.clone()),
            Error::Timeout => Error::Timeout,
        }
    }
}

impl Error {
    /// The text this error displays.
    pub fn to_string(&self) -> (res: String)
        ensures
            res@ == error_text(self@),
    {
        match self {
            Error::Nil => String::from_str("redis: nil"),
            Error::TxFailed => String::from_str("redis: transaction failed"),
            Error::Closed => String::from_str("redis: client is closed"),
            Error::RateLimited => String::from_str("redis: you open connections too fast"),
            Error::Redis(e) => e.0.clone(),
            Error::Io(s) => String::from_str("IO error: ").concat(s.as_str()),
            Error::Other(s) => s.clone(),
            Error::Timeout => String::from_str("timeout"),
        }
    }
}

impl From<RedisError> for Error {
    fn from(e: RedisError) -> (res: Self)
        ensures
            res == Error::Redis(e),
    {
        Error::Redis(e)
    }
}

impl vstd::std_specs::convert::FromSpecImpl<RedisError> for Error {
    open spec fn obeys_from_spec() -> bool {
        true
    }

    open spec fn from_spec(e: RedisError) -> Self {
        Error::Redis(e)
    }
}

#[verifier::external_type_specification]
#[verifier::external_body]
pub struct ExIoError(std::io::Error);

#[verifier::external_type_specification]
#[verifier::external_body]
pub struct ExElapsed(tokio::time::error::Elapsed);

/// The message that `std::io::Error` displays (its `Display` impl, through
/// `to_string`). The text comes from the operating system for OS errors, so
/// nothing is stated of it.
#[verifier::external_body]
fn io_error_text(e: &std::io::Error) -> String {
    e.to_string()
}

impl From<std::io::Error> for Error {
    fn from(e: std::io::Error) -> (res: Self)
        ensures
            res is Io,
    {
        Error::Io(io_error_text(&e))
    }
}

impl vstd::std_specs::convert::FromSpecImpl<std::io::Error> for Error {
    open spec fn obeys_from_spec() -> bool {
        false
    }

    /// The message is not modelled (see `io_error_text`), so no value is claimed.
    open spec fn from_spec(e: std::io::Error) -> Self {
        arbitrary()
    }
}

impl From<tokio::time::error::Elapsed> for Error {
    fn from(e: tokio::time::error::Elapsed) -> (res: Self)
        ensures
            res == Error::Timeout,
    {
        Error::Timeout
    }
}

impl vstd::std_specs::convert::FromSpecImpl<tokio::time::error::Elapsed> for Error {
    open spec fn obeys_from_spec() -> bool {
        true
    }

    open spec fn from_spec(e: tokio::time::error::Elapsed) -> Self {
        Error::Timeout
    }
}

/// Create a Redis error from a message.
pub fn redis_error(s: &str) -> (res: RedisError)
    ensures
        res@ == s@,
{
    RedisError(String::from_str(s))
}

} // verus!
