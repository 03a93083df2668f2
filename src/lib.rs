//! A policy-driven forward proxy, without its I/O: the SOCKS5 and HTTP CONNECT
//! state machines for both the server and the client role, the rule engine that
//! decides how each destination is reached, and the wire codecs they share. The
//! caller owns the sockets: it feeds received bytes to the transition functions
//! and performs what they return.
use vstd::prelude::*;

pub mod auth;
pub mod buffer;
pub mod cidr;
pub mod codec;
pub mod config;
pub mod dialer;
pub mod dst;
pub mod either;
pub mod error;
pub mod http;
pub mod ip;
pub mod policy;
pub mod relay;
pub mod rules;
pub mod socks5;
pub mod socks5_client;
pub mod socks5_server;
pub mod text;

verus! {

} // verus!
