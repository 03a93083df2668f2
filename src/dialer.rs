//! The dialers and servers that the I/O layer drives: what they hold, and the
//! choices they make without touching the network.
use vstd::prelude::*;

use crate::error::Error;

verus! {

/// The direct dialer: resolves a destination and connects to the first address.
#[derive(Debug, Clone, Copy)]
pub struct DefaultDialer;

impl DefaultDialer {
    /// The address to connect to among those a name resolved to: the first one;
    /// `InvalidDstAddress` when the name resolved to nothing.
    pub fn first_resolved<T>(addrs: Vec<T>) -> (r: Result<T, Error>)
        ensures
            addrs@.len() == 0 ==> r == Err::<T, Error>(Error::InvalidDstAddress),
            addrs@.len() > 0 ==> r == Ok::<T, Error>(addrs@[0]),
    {
        let mut addrs = addrs;
        if addrs.len() == 0 {
            return Err(Error::InvalidDstAddress);
        }
        Ok(addrs.swap_remove(0))
    }
}

/// The direct dialer that resolves names with the system resolver.
#[derive(Debug, Clone, Copy)]
pub struct TokioConnect {}

impl TokioConnect {
    /// A direct dialer.
    pub fn new() -> (r: TokioConnect) {
        TokioConnect {  }
    }
}

/// A SOCKS5 server that dials through `dialer`.
#[derive(Debug, Clone)]
pub struct Proxy<D> {
    pub dialer: D,
}

impl<D> Proxy<D> {
    /// A SOCKS5 server over a dialer.
    pub fn new(dialer: D) -> (r: Proxy<D>)
        ensures
            r.dialer == dialer,
    {
        Proxy { dialer }
    }
}

/// An HTTP CONNECT server that dials through `dialer`.
#[derive(Debug, Clone)]
pub struct ProxyServer<D> {
    pub dialer: D,
}

impl<D> ProxyServer<D> {
    /// An HTTP CONNECT server over a dialer.
    pub fn new(dialer: D) -> (r: ProxyServer<D>)
        ensures
            r.dialer == dialer,
    {
        ProxyServer { dialer }
    }
}

} // verus!
