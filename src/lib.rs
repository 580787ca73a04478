//! Execution core of a function-hosting platform: the host side of the calls
//! that a guest module makes, the key-value protocol behind the `db`
//! namespace, and the rules that turn a guest call into an invocation result.
pub mod codec;
pub mod host;
pub mod invoke;
pub mod ipc;
pub mod kv;
pub mod text;
pub mod worker;
