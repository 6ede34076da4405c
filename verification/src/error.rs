//! The errors of calls, fields and connections.
use vstd::prelude::*;
use vstd::std_specs::convert::FromSpecImpl;

verus! {

#[verifier::external_type_specification]
#[verifier::external_body]
pub struct ExIoError(std::io::Error);

/// What can go wrong with a field.
#[derive(Debug)]
pub enum FieldError {
    /// An input or output failed.
    IoError(std::io::Error),
    /// Any other failure.
    Unknown,
}

impl FieldError {
    /// The message that describes the error.
    pub fn message(&self) -> (r: String)
        ensures
            r@ == (match self {
                FieldError::IoError(_) => "Protocol Error"@,
                FieldError::Unknown => "unknown error"@,
            }),
    {
        match self {
            FieldError::IoError(_) => "Protocol Error".to_owned(),
            FieldError::Unknown => "unknown error".to_owned(),
        }
    }
}

impl From<std::io::Error> for FieldError {
    fn from(e: std::io::Error) -> (r: Self) {
        FieldError::IoError(e)
    }
}

impl FromSpecImpl<std::io::Error> for FieldError {
    open spec fn obeys_from_spec() -> bool {
        true
    }

    open spec fn from_spec(e: std::io::Error) -> Self {
        FieldError::IoError(e)
    }
}

/// The outcome of a method call that did not succeed.
#[derive(Debug)]
pub enum MethodError<T> {
    /// The service answered with its own error.
    Error(T),
    /// The connection failed.
    ConnectionError,
    /// The payload of the response could not be read.
    InvalidResponsePayload,
    /// The payload of the error could not be read.
    InvalidErrorPayload,
}

impl<T> MethodError<T> {
    /// Whether the service itself answered with an error.
    pub fn is_service_error(&self) -> (r: bool)
        ensures
            r == (self is Error),
    {
        match self {
            MethodError::Error(_) => true,
            _ => false,
        }
    }

    /// The error that the service answered with, if it did.
    pub fn into_service_error(self) -> (r: Option<T>)
        ensures
            match self {
                MethodError::Error(e) => r == Some(e),
                _ => r is None,
            },
    {
        match self {
            MethodError::Error(e) => Some(e),
            _ => None,
        }
    }

    /// The message that describes the error.
    pub fn message(&self) -> (r: String)
        ensures
            r@ == (match self {
                MethodError::Error(_) => "Method error"@,
                MethodError::ConnectionError => "Connection error"@,
                MethodError::InvalidResponsePayload => "Response payload was invalid"@,
                MethodError::InvalidErrorPayload => "Error payload was invalid"@,
            }),
    {
        match self {
            MethodError::Error(_) => "Method error".to_owned(),
            MethodError::ConnectionError => "Connection error".to_owned(),
            MethodError::InvalidResponsePayload => "Response payload was invalid".to_owned(),
            MethodError::InvalidErrorPayload => "Error payload was invalid".to_owned(),
        }
    }
}

/// What can go wrong when a field is set or read through a call.
#[derive(Debug, Clone, Copy, PartialEq, Eq, Structural)]
pub enum PropertyError {
    /// The connection failed.
    ConnectionError,
    /// The payload of the response could not be read.
    InvalidResponsePayload,
    /// The call timed out.
    Cancelled,
}

impl PropertyError {
    /// The message that describes the error.
    pub fn message(&self) -> (r: String)
        ensures
            r@ == (match self {
                PropertyError::ConnectionError => "Connection error"@,
                PropertyError::InvalidResponsePayload => "Response payload was invalid"@,
                PropertyError::Cancelled => "Call was cancelled"@,
            }),
    {
        match self {
            PropertyError::ConnectionError => "Connection error".to_owned(),
            PropertyError::InvalidResponsePayload => "Response payload was invalid".to_owned(),
            PropertyError::Cancelled => "Call was cancelled".to_owned(),
        }
    }
}

/// Generic errors.
#[derive(Debug)]
pub enum Error {
    /// The connection failed.
    ConnectionError,
    /// An input or output failed.
    IoError(std::io::Error),
}

impl Error {
    /// The message that describes the error.
    pub fn message(&self) -> (r: String)
        ensures
            r@ == (match self {
                Error::ConnectionError => "Connection error"@,
                Error::IoError(_) => "IO Error"@,
            }),
    {
        match self {
            Error::ConnectionError => "Connection error".to_owned(),
            Error::IoError(_) => "IO Error".to_owned(),
        }
    }
}

impl From<std::io::Error> for Error {
    fn from(e: std::io::Error) -> (r: Self) {
        Error::IoError(e)
    }
}

impl FromSpecImpl<std::io::Error> for Error {
    open spec fn obeys_from_spec() -> bool {
        true
    }

    open spec fn from_spec(e: std::io::Error) -> Self {
        Error::IoError(e)
    }
}

} // verus!
