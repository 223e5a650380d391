use crate::addr::{IpAddress, SocketAddress};
use vstd::prelude::*;

verus! {

/// The transport protocol between client and server.
#[derive(Clone, Copy, Debug, PartialEq, Eq, Hash, Structural)]
pub enum Protocol {
    Udp,
}

/// The key of an allocation: the protocol, the client's address and the
/// server's address.
#[derive(Clone, Copy, Debug, PartialEq, Eq, Hash, Structural)]
pub struct FiveTuple {
    pub protocol: Protocol,
    pub src_addr: SocketAddress,
    pub dst_addr: SocketAddress,
}

impl Default for FiveTuple {
    fn default() -> (five_tuple: FiveTuple)
        ensures
            five_tuple == (FiveTuple {
                protocol: Protocol::Udp,
                src_addr: SocketAddress { ip: IpAddress::V4(0), port: 0 },
                dst_addr: SocketAddress { ip: IpAddress::V4(0), port: 0 },
            }),
    {
        FiveTuple {
            protocol: Protocol::Udp,
            src_addr: SocketAddress { ip: IpAddress::V4(0), port: 0 },
            dst_addr: SocketAddress { ip: IpAddress::V4(0), port: 0 },
        }
    }
}

} // verus!
