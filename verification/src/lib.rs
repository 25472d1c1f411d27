//! The core of a DNS forwarder that blocks domains and caches replies.
//!
//! The library holds everything that the forwarder decides and computes, and
//! nothing that touches a socket or a file:
//!
//! - the wire codec: [`wire`], [`name`], [`protocol`], [`packet`], the cursors
//!   [`parser`] and [`response_parser`], and the replies of [`serialize`] and
//!   [`resolver`];
//! - the reuse of captured replies: [`rewrite`], with the laws of [`roundtrip`];
//! - the reply cache: [`cache`], on the time of [`clock`];
//! - the blocklist and its sources: [`filter`];
//! - the forwarding engine: [`resolution`], over the keyed [`table`] with the
//!   digests of [`digest`], run with the options of [`cli`].
//!
//! Every function states what it returns and changes, and is verified against
//! that statement.

pub mod cache;
pub mod cli;
pub mod clock;
pub mod digest;
pub mod error;
pub mod filter;
pub mod name;
pub mod packet;
pub mod parser;
pub mod protocol;
pub mod resolution;
pub mod resolver;
pub mod response_parser;
pub mod rewrite;
pub mod roundtrip;
pub mod serialize;
pub mod table;
pub mod wire;
