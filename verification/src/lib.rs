//! A minimal in-memory key-value store speaking a length-prefixed,
//! binary-safe wire protocol: frame and scalar decoding, command
//! execution against a shared store, and response encoding.

pub mod array;
pub mod bulk_string;
pub mod byte_reader;
pub mod bytes;
pub mod commands;
pub mod decimal;
pub mod laws;
pub mod server;
pub mod store;
