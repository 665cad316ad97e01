//! A minimal request-accumulation library.
//!
//! The library holds the logic of a small line-based collection listener:
//! resolving the listening port from command-line arguments, parsing a
//! single-line request of the form `GET <target> HTTP/1.1`, splitting the
//! target into semicolon-delimited fields, accumulating those fields in
//! arrival order, and joining everything into the newline-prefixed blob
//! that is written out when a terminating request arrives.

pub mod args;
pub mod collect;
pub mod laws;
pub mod request;
