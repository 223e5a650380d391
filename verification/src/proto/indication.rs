//! The STUN Data indication that carries a peer's datagram to the client.
//! The `stun` crate builds it.

use crate::addr::{IpAddress, SocketAddress};
use stun::agent::TransactionId;
use stun::attributes::{ATTR_DATA, ATTR_XOR_PEER_ADDRESS};
use stun::message::{Message, MessageType, Setter, CLASS_INDICATION, METHOD_DATA};
use stun::xoraddr::XorMappedAddress;
use vstd::prelude::*;

verus! {

/// The length of a STUN transaction id.
pub const TRANSACTION_ID_SIZE: usize = 12;

/// The bytes of the STUN message of method Data and class Indication with
/// the transaction id `transaction_id`, `peer` as its XOR-PEER-ADDRESS and
/// `data` as its DATA, as the `stun` crate writes them.
pub uninterp spec fn data_indication(
    transaction_id: Seq<u8>,
    peer: SocketAddress,
    data: Seq<u8>,
) -> Seq<u8>;

/// `TransactionId::new` of the `stun` crate: twelve random bytes. Nothing is
/// claimed of them.
#[verifier::external_body]
pub(crate) fn new_transaction_id() -> (transaction_id: [u8; 12]) {
    TransactionId::new().0
}

/// Builds the Data indication with `Message::build`,
/// `XorMappedAddress::add_to_as` and `Message::add` of the `stun` crate, and
/// hands back `Message::raw`. Claimed: where the crate reports no error, the
/// bytes depend on the three arguments alone. `data` is kept within what the
/// length field of an attribute holds.
#[verifier::external_body]
pub(crate) fn build_data_indication(
    transaction_id: &[u8; 12],
    peer: &SocketAddress,
    data: &[u8],
) -> (raw: Option<Vec<u8>>)
    requires
        data@.len() <= 0xFFFF,
    ensures
        raw matches Some(bytes) ==> bytes@ == data_indication(transaction_id@, *peer, data@),
{
    let ip = match peer.ip {
        IpAddress::V4(v4) => v4.to_be_bytes().into(),
        IpAddress::V6(v6) => v6.to_be_bytes().into(),
    };
    let head: [Box<dyn Setter>; 2] = [
        Box::new(TransactionId(*transaction_id)),
        Box::new(MessageType::new(METHOD_DATA, CLASS_INDICATION)),
    ];
    let mut m = Message::new();
    m.build(&head).ok()?;
    XorMappedAddress { ip, port: peer.port }.add_to_as(&mut m, ATTR_XOR_PEER_ADDRESS).ok()?;
    m.add(ATTR_DATA, data);
    Some(m.raw)
}

} // verus!
