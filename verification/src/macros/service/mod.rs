//! The `service` macro.

pub mod attrs;
pub mod codegen;
pub mod laws;
pub mod method;
pub mod types;
