//! Connections.

pub mod chain;
pub mod credentials;
pub mod reply_stream;
pub mod socket;
pub mod unix_utils;
