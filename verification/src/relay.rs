use crate::addr::SocketAddress;
use crate::error::RelayFailure;
use vstd::prelude::*;

verus! {

/// What every answer of a relay address generator keeps to: with `even_port`
/// the port it hands out is even, and a `requested_port` other than zero is
/// the port it hands out.
pub open spec fn honours(
    even_port: bool,
    requested_port: u16,
    granted: Result<SocketAddress, RelayFailure>,
) -> bool {
    granted matches Ok(relay_addr) ==> (even_port ==> relay_addr.port % 2 == 0) && (requested_port
        != 0 ==> relay_addr.port == requested_port)
}

/// The policy by which relay addresses are handed out. Whoever holds the
/// manager implements it; an implementation that is not verified is taken at
/// its word.
pub trait RelayAddressGenerator {
    /// Binds a relay address and names it, or says why none can be had. The
    /// socket stays with the implementation until its holder takes it up or
    /// releases it.
    fn allocate_conn(&mut self, even_port: bool, requested_port: u16) -> (granted: Result<
        SocketAddress,
        RelayFailure,
    >)
        ensures
            honours(even_port, requested_port, granted),
    ;
}

} // verus!
