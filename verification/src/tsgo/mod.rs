//! The TypeScript language server.
pub mod cache;
pub mod embedded;
pub mod protocol;
pub mod session;
pub mod wire;
