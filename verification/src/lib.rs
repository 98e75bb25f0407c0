//! Varlink: interface descriptions, calls and replies, and the code that makes a type a service.

pub mod call;
pub mod codegen_error;
pub mod connection;
pub mod error;
pub mod idl;
pub mod introspect;
pub mod macros;
pub mod mock_socket;
pub mod notified;
pub mod server;
pub mod text;
pub mod varlink_service;
