//! JT/T 808 terminal protocol toolkit: framing, headers, message bodies and
//! the decisions of a TCP debugging client, with machine-checked contracts.

pub mod app;
pub mod connection;
pub mod protocol;
