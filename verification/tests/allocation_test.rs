use turn::addr::{IpAddress, SocketAddress};
use turn::allocation::channel_bind::{
    is_valid_channel_number, MAX_CHANNEL_NUMBER, MIN_CHANNEL_NUMBER,
};
use turn::allocation::five_tuple::{FiveTuple, Protocol};
use turn::allocation::{indication_or_drop, Allocation, Relayed, Route};
use turn::error::Error;
use turn::proto::lifetime::{
    deadline, CHANNEL_BIND_LIFETIME, DEFAULT_LIFETIME, PERMISSION_LIFETIME, RESERVATION_LIFETIME,
};

const SECOND: u64 = 1_000_000_000;
const MINUTE: u64 = 60 * SECOND;

fn peer(last: u32, port: u16) -> SocketAddress {
    SocketAddress::new(IpAddress::V4(0xC0A8_0000 + last), port)
}

fn new_allocation(now: u64) -> Allocation {
    let five_tuple = FiveTuple {
        protocol: Protocol::Udp,
        src_addr: SocketAddress::new(IpAddress::V4(0x7F00_0001), 50000),
        dst_addr: SocketAddress::new(IpAddress::V4(0x7F00_0001), 3478),
    };
    Allocation::new(
        five_tuple,
        "user".to_owned(),
        SocketAddress::new(IpAddress::V4(0x0A00_0001), 49152),
        DEFAULT_LIFETIME,
        now,
    )
}

#[test]
fn test_lifetimes() {
    assert_eq!(DEFAULT_LIFETIME, 10 * MINUTE);
    assert_eq!(PERMISSION_LIFETIME, 5 * MINUTE);
    assert_eq!(CHANNEL_BIND_LIFETIME, 10 * MINUTE);
    assert_eq!(RESERVATION_LIFETIME, 30 * SECOND);
}

#[test]
fn test_deadline() {
    assert_eq!(deadline(0, 0), 0);
    assert_eq!(deadline(1_000, 250), 1_250);
    assert_eq!(deadline(u64::MAX - 5, 5), u64::MAX);
    assert_eq!(deadline(u64::MAX - 5, 6), u64::MAX);
    assert_eq!(deadline(u64::MAX, u64::MAX), u64::MAX);
}

#[test]
fn test_five_tuple_default() {
    let five_tuple = FiveTuple::default();
    assert_eq!(five_tuple.protocol, Protocol::Udp);
    assert_eq!(five_tuple.src_addr, SocketAddress::new(IpAddress::V4(0), 0));
    assert_eq!(five_tuple.dst_addr, SocketAddress::new(IpAddress::V4(0), 0));
}

#[test]
fn test_five_tuple_equality() {
    let a = FiveTuple {
        src_addr: SocketAddress::new(IpAddress::V4(1), 1),
        ..Default::default()
    };
    let b = FiveTuple {
        src_addr: SocketAddress::new(IpAddress::V4(1), 2),
        ..Default::default()
    };
    assert_eq!(a, a);
    assert_ne!(a, b);
    assert_ne!(
        SocketAddress::new(IpAddress::V4(1), 1),
        SocketAddress::new(IpAddress::V6(1), 1)
    );
}

#[test]
fn test_allocation_new() {
    let a = new_allocation(1_000);
    assert_eq!(a.username(), "user");
    assert_eq!(a.relay_addr(), SocketAddress::new(IpAddress::V4(0x0A00_0001), 49152));
    assert_eq!(a.deadline(), DEFAULT_LIFETIME + 1_000);
    assert!(!a.is_closed());
    assert!(!a.has_permission(peer(1, 1).ip, 1_000));
    assert_eq!(a.get_channel_number(peer(1, 1), 1_000), None);
    assert_eq!(a.get_channel_addr(MIN_CHANNEL_NUMBER), None);
}

#[test]
fn test_allocation_close_twice() {
    let mut a = new_allocation(0);
    assert_eq!(a.add_permission(peer(1, 1).ip, 0), Ok(()));
    assert_eq!(a.add_channel_bind(MIN_CHANNEL_NUMBER, peer(2, 2), MINUTE, 0), Ok(()));
    assert_eq!(a.close(), Ok(()));
    assert!(a.is_closed());
    assert!(!a.has_permission(peer(1, 1).ip, 0));
    assert_eq!(a.get_channel_number(peer(2, 2), 0), None);
    assert_eq!(a.close(), Err(Error::AllocationClosed));
    assert_eq!(a.add_permission(peer(1, 1).ip, 0), Err(Error::AllocationClosed));
    assert_eq!(
        a.add_channel_bind(MIN_CHANNEL_NUMBER, peer(2, 2), MINUTE, 0),
        Err(Error::AllocationClosed)
    );
    assert_eq!(a.refresh(MINUTE, 0), Err(Error::AllocationClosed));
    assert_eq!(a.relay_as(&[0u8; 12], peer(1, 1), b"x", 0), Relayed::Dropped);
}

#[test]
fn test_allocation_refresh() {
    let mut a = new_allocation(0);
    assert_eq!(a.refresh(MINUTE, 5 * SECOND), Ok(()));
    assert_eq!(a.deadline(), MINUTE + 5 * SECOND);
    assert_eq!(a.refresh(1, u64::MAX), Ok(()));
    assert_eq!(a.deadline(), u64::MAX);
}

#[test]
fn test_permission_lasts_five_minutes() {
    let mut a = new_allocation(0);
    let ip = peer(1, 1).ip;
    assert_eq!(a.add_permission(ip, 10 * SECOND), Ok(()));
    assert!(a.has_permission(ip, 10 * SECOND));
    assert!(a.has_permission(ip, 5 * MINUTE + 10 * SECOND - 1));
    assert!(!a.has_permission(ip, 5 * MINUTE + 10 * SECOND));
    assert!(!a.has_permission(peer(2, 1).ip, 10 * SECOND));

    // asking again prolongs it
    assert_eq!(a.add_permission(ip, MINUTE), Ok(()));
    assert!(a.has_permission(ip, 6 * MINUTE - 1));
    assert!(!a.has_permission(ip, 6 * MINUTE));

    // and never shortens it
    assert_eq!(a.add_permission(ip, 0), Ok(()));
    assert!(a.has_permission(ip, 6 * MINUTE - 1));
}

#[test]
fn test_channel_numbers() {
    assert_eq!(MIN_CHANNEL_NUMBER, 0x4000);
    assert_eq!(MAX_CHANNEL_NUMBER, 0x7FFF);
    assert!(!is_valid_channel_number(0));
    assert!(!is_valid_channel_number(0x3FFF));
    assert!(is_valid_channel_number(0x4000));
    assert!(is_valid_channel_number(0x7FFF));
    assert!(!is_valid_channel_number(0x8000));
    assert!(!is_valid_channel_number(0xFFFF));
}

#[test]
fn test_add_channel_bind() {
    let mut a = new_allocation(0);
    assert_eq!(a.add_channel_bind(0x3FFF, peer(1, 1), MINUTE, 0), Err(Error::InvalidChannelNumber));
    assert_eq!(a.add_channel_bind(0x8000, peer(1, 1), MINUTE, 0), Err(Error::InvalidChannelNumber));
    assert_eq!(a.get_channel_number(peer(1, 1), 0), None);

    assert_eq!(a.add_channel_bind(0x4000, peer(1, 1), MINUTE, 0), Ok(()));
    assert_eq!(a.add_channel_bind(0x7FFF, peer(2, 1), MINUTE, 0), Ok(()));
    assert_eq!(a.get_channel_number(peer(1, 1), 0), Some(0x4000));
    assert_eq!(a.get_channel_number(peer(2, 1), 0), Some(0x7FFF));
    assert_eq!(a.get_channel_addr(0x4000), Some(peer(1, 1)));
    assert_eq!(a.get_channel_addr(0x7FFF), Some(peer(2, 1)));
    assert_eq!(a.get_channel_addr(0x4001), None);

    // the same number for another peer, the same peer under another number
    assert_eq!(a.add_channel_bind(0x4000, peer(3, 1), MINUTE, 0), Err(Error::ChannelBindConflict));
    assert_eq!(a.add_channel_bind(0x4000, peer(1, 2), MINUTE, 0), Err(Error::ChannelBindConflict));
    assert_eq!(a.add_channel_bind(0x4001, peer(1, 1), MINUTE, 0), Err(Error::ChannelBindConflict));
    assert_eq!(a.get_channel_addr(0x4000), Some(peer(1, 1)));
    assert_eq!(a.get_channel_addr(0x4001), None);

    // the same binding again prolongs it
    assert_eq!(a.get_channel_number(peer(1, 1), MINUTE), None);
    assert_eq!(a.add_channel_bind(0x4000, peer(1, 1), MINUTE, 30 * SECOND), Ok(()));
    assert_eq!(a.get_channel_number(peer(1, 1), MINUTE), Some(0x4000));
    assert_eq!(a.get_channel_number(peer(1, 1), 90 * SECOND), None);
}

#[test]
fn test_channel_bind_permits_the_peer() {
    let mut a = new_allocation(0);
    assert_eq!(a.add_channel_bind(0x4000, peer(1, 1), 10 * MINUTE, 0), Ok(()));
    // the permission lasts as long as the binding
    assert!(a.has_permission(peer(1, 1).ip, 10 * MINUTE - 1));
    assert!(!a.has_permission(peer(1, 1).ip, 10 * MINUTE));
    // a short binding still brings the five minutes of a permission
    assert_eq!(a.add_channel_bind(0x4001, peer(2, 1), SECOND, 0), Ok(()));
    assert!(a.has_permission(peer(2, 1).ip, 5 * MINUTE - 1));
    assert!(!a.has_permission(peer(2, 1).ip, 5 * MINUTE));
}

#[test]
fn test_allocation_expire() {
    let mut a = new_allocation(0);
    assert_eq!(a.add_permission(peer(1, 1).ip, 0), Ok(()));
    assert_eq!(a.add_permission(peer(2, 1).ip, MINUTE), Ok(()));
    assert_eq!(a.add_channel_bind(0x4000, peer(3, 1), 7 * MINUTE, 0), Ok(()));
    assert_eq!(a.add_channel_bind(0x4001, peer(4, 1), 2 * MINUTE, 0), Ok(()));

    a.expire(5 * MINUTE);
    assert!(!a.has_permission(peer(1, 1).ip, 0));
    assert!(a.has_permission(peer(2, 1).ip, 0));
    assert!(a.has_permission(peer(3, 1).ip, 0));
    assert!(!a.has_permission(peer(4, 1).ip, 0));
    assert_eq!(a.get_channel_addr(0x4000), Some(peer(3, 1)));
    assert_eq!(a.get_channel_addr(0x4001), None);

    // the number is free again
    assert_eq!(a.add_channel_bind(0x4001, peer(5, 1), MINUTE, 5 * MINUTE), Ok(()));
}

#[test]
fn test_route() {
    let mut a = new_allocation(0);
    assert_eq!(a.add_permission(peer(1, 1).ip, 0), Ok(()));
    assert_eq!(a.add_channel_bind(0x4000, peer(2, 2), 10 * MINUTE, 0), Ok(()));

    assert_eq!(a.route(peer(1, 1), 10, 0), Route::Indication);
    // a permission is for the address, whatever the port
    assert_eq!(a.route(peer(1, 9), 10, 0), Route::Indication);
    assert_eq!(a.route(peer(2, 2), 10, 0), Route::Channel(0x4000));
    // the bound peer's address is permitted on its other ports too
    assert_eq!(a.route(peer(2, 3), 10, 0), Route::Indication);
    assert_eq!(a.route(peer(3, 1), 10, 0), Route::Drop);

    assert_eq!(a.route(peer(1, 1), 0, 0), Route::Indication);
    assert_eq!(a.route(peer(1, 1), 0xFFFF, 0), Route::Indication);
    assert_eq!(a.route(peer(1, 1), 0x1_0000, 0), Route::Drop);
    assert_eq!(a.route(peer(2, 2), 0xFFFF, 0), Route::Channel(0x4000));
    assert_eq!(a.route(peer(2, 2), 0x1_0000, 0), Route::Drop);

    assert_eq!(a.route(peer(1, 1), 10, 5 * MINUTE - 1), Route::Indication);
    assert_eq!(a.route(peer(1, 1), 10, 5 * MINUTE), Route::Drop);
    assert_eq!(a.route(peer(2, 2), 10, 10 * MINUTE - 1), Route::Channel(0x4000));
    assert_eq!(a.route(peer(2, 2), 10, 10 * MINUTE), Route::Drop);
}

#[test]
fn test_channel_goes_before_permission() {
    let mut a = new_allocation(0);
    assert_eq!(a.add_permission(peer(1, 1).ip, 0), Ok(()));
    assert_eq!(a.add_channel_bind(0x4abc, peer(1, 1), 10 * MINUTE, 0), Ok(()));
    assert_eq!(
        a.relay(peer(1, 1), &[1, 2, 3, 4, 5], 0),
        Relayed::ChannelData(vec![0x4a, 0xbc, 0, 5, 1, 2, 3, 4, 5, 0, 0, 0])
    );
}

#[test]
fn test_relay_drops() {
    let mut a = new_allocation(0);
    assert_eq!(a.relay(peer(1, 1), b"data", 0), Relayed::Dropped);
    assert_eq!(a.add_permission(peer(1, 1).ip, 0), Ok(()));
    assert_eq!(a.relay(peer(2, 1), b"data", 0), Relayed::Dropped);
    assert_eq!(a.relay(peer(1, 1), b"data", 5 * MINUTE), Relayed::Dropped);
    let long = vec![0u8; 0x1_0000];
    assert_eq!(a.relay(peer(1, 1), &long, 0), Relayed::Dropped);
}

#[test]
fn test_data_indication_bytes() {
    let mut a = new_allocation(0);
    let from = SocketAddress::new(IpAddress::V4(0xC000_0201), 32853);
    assert_eq!(a.add_permission(from.ip, 0), Ok(()));
    let transaction_id = [1u8, 2, 3, 4, 5, 6, 7, 8, 9, 10, 11, 12];
    let relayed = a.relay_as(&transaction_id, from, b"hello", 0);
    let expected: Vec<u8> = vec![
        // Data indication, 24 bytes of attributes, magic cookie
        0x00, 0x17, 0x00, 0x18, 0x21, 0x12, 0xa4, 0x42,
        // transaction id
        1, 2, 3, 4, 5, 6, 7, 8, 9, 10, 11, 12,
        // XOR-PEER-ADDRESS, 8 bytes: IPv4, port and address under the cookie
        0x00, 0x12, 0x00, 0x08, 0x00, 0x01, 0xa1, 0x47, 0xe1, 0x12, 0xa6, 0x43,
        // DATA, 5 bytes and 3 of padding
        0x00, 0x13, 0x00, 0x05, b'h', b'e', b'l', b'l', b'o', 0, 0, 0,
    ];
    assert_eq!(relayed, Relayed::DataIndication(expected));
}

#[test]
fn test_data_indication_ipv6_peer() {
    let mut a = new_allocation(0);
    let ip = IpAddress::V6(0x2001_0db8_0000_0000_0000_0000_0000_0001);
    let from = SocketAddress::new(ip, 1);
    assert_eq!(a.add_permission(ip, 0), Ok(()));
    let relayed = a.relay_as(&[0u8; 12], from, &[], 0);
    let expected: Vec<u8> = vec![
        0x00, 0x17, 0x00, 0x1c, 0x21, 0x12, 0xa4, 0x42,
        0, 0, 0, 0, 0, 0, 0, 0, 0, 0, 0, 0,
        // XOR-PEER-ADDRESS, 20 bytes: IPv6, the first four bytes under the cookie
        0x00, 0x12, 0x00, 0x14, 0x00, 0x02, 0x21, 0x13,
        0x01, 0x13, 0xa9, 0xfa, 0, 0, 0, 0, 0, 0, 0, 0, 0, 0, 0, 1,
        // DATA, empty
        0x00, 0x13, 0x00, 0x00,
    ];
    assert_eq!(relayed, Relayed::DataIndication(expected));
}

#[test]
fn test_relay_draws_transaction_ids() {
    let mut a = new_allocation(0);
    assert_eq!(a.add_permission(peer(1, 1).ip, 0), Ok(()));
    let first = match a.relay(peer(1, 1), b"data", 0) {
        Relayed::DataIndication(raw) => raw,
        other => panic!("should be a data indication, got {:?}", other),
    };
    assert_eq!(first.len(), 20 + 12 + 8);
    assert_eq!(&first[..8], &[0x00, 0x17, 0x00, 0x14, 0x21, 0x12, 0xa4, 0x42]);
    assert_eq!(&first[36..], b"data");
}

#[test]
fn test_indication_or_drop() {
    assert_eq!(indication_or_drop(None), Relayed::Dropped);
    assert_eq!(indication_or_drop(Some(vec![1, 2])), Relayed::DataIndication(vec![1, 2]));
}
