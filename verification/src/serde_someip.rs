//! A compact binary data format: fixed-width little-endian integers and
//! length-prefixed strings.
pub mod de;
pub mod error;
pub mod roundtrip;
pub mod ser;
pub mod values;
