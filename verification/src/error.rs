use vstd::prelude::*;

verus! {

/// Why a relay address generator could not hand out an address.
#[derive(Clone, Copy, Debug, PartialEq, Eq, Structural)]
pub enum RelayFailure {
    PortInUse,
    AddressUnavailable,
    NetworkDown,
}

#[derive(Clone, Copy, Debug, PartialEq, Eq, Structural)]
/// Why an operation of the manager or of an allocation failed.
pub enum Error {
    /// An allocation was asked for with a lifetime of zero.
    LifetimeZero,
    /// The five-tuple already has an allocation.
    DuplicateFiveTuple,
    /// The relay address generator refused.
    RelayAllocationFailed(RelayFailure),
    /// The allocation was closed before.
    AllocationClosed,
    /// The five-tuple has no allocation.
    NoAllocationFound,
    /// The channel number lies outside 0x4000..=0x7FFF.
    InvalidChannelNumber,
    /// The channel number is bound to another peer, or the peer to another
    /// channel number.
    ChannelBindConflict,
}

} // verus!
