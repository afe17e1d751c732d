//! User-identity access layer: password credentials, a cache-aside user
//! store over a durable table and a key-value cache, and a session gate.

pub mod error;
pub mod password;
pub mod user;
pub mod store;
pub mod memory;
pub mod session;
pub mod flow;
