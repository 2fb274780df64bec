//! The JT/T 808 wire protocol.

pub mod bytes;
pub mod codec;
pub mod text;
pub mod types;
pub mod message;
pub mod builder;
