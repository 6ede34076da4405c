//! A SOME/IP implementation: wire formats, service discovery and the
//! decisions of clients and servers, with their contracts.
pub mod byte_order;
pub mod call_properties;
pub mod client;
pub mod error;
pub mod field;
pub mod method_ids;
pub mod sd_entries;
pub mod sd_messages;
pub mod sd_options;
pub mod sd_server;
pub mod sd_server_sm;
pub mod search;
pub mod serde_someip;
pub mod server;
pub mod someip_codec;
pub mod text;
