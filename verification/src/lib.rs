//! Hamelin: a line-oriented protocol adapter core.
//!
//! The crate hosts the session substrate of a generic protocol adapter:
//! a newline-framed codec over non-blocking byte transports, the
//! launch template and lifecycle rules for a hosted child process, the
//! decision logic of the bidirectional pumps, and the routing rules of
//! the HTTP and IRC frontends.  Network and process plumbing lives in
//! the surrounding application; everything here is verified.

pub mod codec;
pub mod http_front;
pub mod irc_front;
pub mod pump;
pub mod session;
pub mod transport;
