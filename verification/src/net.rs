//! Network addresses as plain values.
use vstd::prelude::*;

verus! {

/// An IP address, by its octets.
#[derive(Debug, Clone, Copy, PartialEq, Eq)]
pub enum Ip {
    V4([u8; 4]),
    V6([u8; 16]),
}

/// Where a datagram comes from or goes to.
#[derive(Debug, Clone, Copy, PartialEq, Eq)]
pub struct Endpoint {
    pub ip: Ip,
    pub port: u16,
}

} // verus!
