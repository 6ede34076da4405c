//! Errors of the binary data format.
use vstd::prelude::*;

verus! {

/// What went wrong while reading or writing a value.
#[derive(Debug, Clone, Copy, PartialEq, Eq, Structural)]
pub enum Error {
    /// The value cannot be represented, or the bytes do not form one.
    Syntax,
    /// A boolean byte was neither 0 nor 1.
    ExpectedBoolean,
    /// A terminating NUL byte was expected.
    ExpectedNull,
}

/// The result of reading or writing a value.
pub type Result<T> = core::result::Result<T, Error>;

} // verus!
