use vstd::prelude::*;

verus! {

/// An IP address, held as the number that its octets spell in network order.
#[derive(Clone, Copy, Debug, PartialEq, Eq, Hash, Structural)]
pub enum IpAddress {
    V4(u32),
    V6(u128),
}

/// A transport address: an IP address and a port.
#[derive(Clone, Copy, Debug, PartialEq, Eq, Hash, Structural)]
pub struct SocketAddress {
    pub ip: IpAddress,
    pub port: u16,
}

impl SocketAddress {
    pub fn new(ip: IpAddress, port: u16) -> (addr: SocketAddress)
        ensures
            addr == (SocketAddress { ip, port }),
    {
        SocketAddress { ip, port }
    }
}

} // verus!
