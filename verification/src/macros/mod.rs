//! The code that the macros generate, and what they read to generate it.

pub mod laws;
pub mod meta;
pub mod naming;
pub mod nested;
pub mod service;
pub mod tokens;
