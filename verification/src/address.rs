//! Transport addresses as plain integers.

use vstd::prelude::*;

verus! {

/// An IP address, version 4 or 6, as the integer its octets spell in
/// network order.
#[derive(Clone, Copy, Debug, PartialEq, Eq, Hash, Structural)]
pub enum IpAddress {
    V4(u32),
    V6(u128),
}

/// An IP address together with a port: the endpoint of a socket.
#[derive(Clone, Copy, Debug, PartialEq, Eq, Hash, Structural)]
pub struct SocketAddress {
    pub ip: IpAddress,
    pub port: u16,
}

impl SocketAddress {
    /// The endpoint with the given IPv4 address and port.
    pub fn v4(ip: u32, port: u16) -> (addr: SocketAddress)
        ensures
            addr == (SocketAddress { ip: IpAddress::V4(ip), port }),
    {
        SocketAddress { ip: IpAddress::V4(ip), port }
    }

    /// The endpoint with the given IPv6 address and port.
    pub fn v6(ip: u128, port: u16) -> (addr: SocketAddress)
        ensures
            addr == (SocketAddress { ip: IpAddress::V6(ip), port }),
    {
        SocketAddress { ip: IpAddress::V6(ip), port }
    }
}

} // verus!
