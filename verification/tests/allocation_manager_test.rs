use stun::attributes::{ATTR_DATA, ATTR_XOR_PEER_ADDRESS};
use stun::message::{is_message, Message};
use stun::xoraddr::XorMappedAddress;
use turn::addr::{IpAddress, SocketAddress};
use turn::allocation::allocation_manager::{sample_port, Manager, ManagerConfig};
use turn::allocation::channel_bind::MIN_CHANNEL_NUMBER;
use turn::allocation::five_tuple::FiveTuple;
use turn::allocation::Relayed;
use turn::error::{Error, RelayFailure};
use turn::proto::chandata::ChannelData;
use turn::proto::lifetime::{DEFAULT_LIFETIME, RESERVATION_LIFETIME};
use turn::relay::RelayAddressGenerator;

const MILLISECOND: u64 = 1_000_000;

const SECOND: u64 = 1_000_000_000;

const LOCALHOST: IpAddress = IpAddress::V4(0x7F00_0001);

/// Hands out the even ports from 49152 upwards on 0.0.0.0, or the port that
/// was asked for.
struct SequentialGenerator {
    next: u16,
}

/// Refuses every request.
struct FailingGenerator {
    failure: RelayFailure,
    calls: usize,
}

impl RelayAddressGenerator for FailingGenerator {
    fn allocate_conn(
        &mut self,
        _even_port: bool,
        _requested_port: u16,
    ) -> Result<SocketAddress, RelayFailure> {
        self.calls += 1;
        Err(self.failure)
    }
}

impl RelayAddressGenerator for SequentialGenerator {
    fn allocate_conn(
        &mut self,
        even_port: bool,
        requested_port: u16,
    ) -> Result<SocketAddress, RelayFailure> {
        if requested_port != 0 {
            if even_port && requested_port % 2 != 0 {
                return Err(RelayFailure::AddressUnavailable);
            }
            return Ok(SocketAddress::new(IpAddress::V4(0), requested_port));
        }
        let port = self.next;
        self.next = self.next.wrapping_add(2);
        Ok(SocketAddress::new(IpAddress::V4(0), port))
    }
}

fn new_test_manager() -> Manager<SequentialGenerator> {
    let config = ManagerConfig { relay_addr_generator: SequentialGenerator { next: 49152 } };
    Manager::new(config)
}

fn random_five_tuple() -> FiveTuple {
    FiveTuple {
        src_addr: SocketAddress::new(IpAddress::V4(0), rand::random()),
        dst_addr: SocketAddress::new(IpAddress::V4(0), rand::random()),
        ..Default::default()
    }
}

#[test]
fn test_create_allocation_duplicate_five_tuple() {
    let mut m = new_test_manager();

    let five_tuple = random_five_tuple();

    let created = m.create_allocation(five_tuple, 0, DEFAULT_LIFETIME, "user".to_owned(), 0);
    assert!(created.is_ok());

    let result = m.create_allocation(five_tuple, 0, DEFAULT_LIFETIME, "user".to_owned(), 0);
    assert!(result.is_err(), "expected error, but got ok");
    assert_eq!(result.err(), Some(Error::DuplicateFiveTuple));
}

#[test]
fn test_delete_allocation() {
    let mut m = new_test_manager();

    let five_tuple = random_five_tuple();

    let created = m.create_allocation(five_tuple, 0, DEFAULT_LIFETIME, "user".to_owned(), 0);
    assert!(created.is_ok());

    assert!(
        m.get_allocation(&five_tuple).is_some(),
        "Failed to get allocation right after creation"
    );

    let deleted = m.delete_allocation(&five_tuple);
    assert!(deleted.is_some());

    assert!(
        m.get_allocation(&five_tuple).is_none(),
        "Get allocation with {:?} should be nil after delete",
        five_tuple
    );
}

#[test]
fn test_allocation_timeout() {
    let mut m = new_test_manager();

    let lifetime = 100 * MILLISECOND;
    let mut five_tuples = vec![];

    for _ in 0..5 {
        let five_tuple = random_five_tuple();
        let created = m.create_allocation(five_tuple, 0, lifetime, "user".to_owned(), 0);
        assert!(created.is_ok());
        five_tuples.push(five_tuple);
    }

    let mut expired = m.handle_timeout(lifetime + 100 * MILLISECOND);
    assert_eq!(expired.len(), 5);

    for a in expired.iter_mut() {
        assert!(a.close().is_err(), "Allocations didn't timeout");
    }
    for five_tuple in &five_tuples {
        assert!(m.get_allocation(five_tuple).is_none());
    }
}

#[test]
fn test_manager_close() {
    let mut m = new_test_manager();

    let k1 = random_five_tuple();
    let k2 = random_five_tuple();
    assert!(m.create_allocation(k1, 0, 100 * MILLISECOND, "user".to_owned(), 0).is_ok());
    assert!(m.create_allocation(k2, 0, 200 * MILLISECOND, "user".to_owned(), 0).is_ok());

    let mut allocations = m.handle_timeout(150 * MILLISECOND);
    assert_eq!(allocations.len(), 1);

    allocations.extend(m.close());
    assert_eq!(allocations.len(), 2);

    for a in allocations.iter_mut() {
        assert!(a.close().is_err(), "Allocation should be closed if lifetime timeout");
    }
}

#[test]
fn test_delete_allocation_by_username() {
    let mut m = new_test_manager();

    let five_tuple1 = random_five_tuple();
    let five_tuple2 = random_five_tuple();
    let five_tuple3 = random_five_tuple();

    assert!(m.create_allocation(five_tuple1, 0, DEFAULT_LIFETIME, "user".to_owned(), 0).is_ok());
    assert!(m.create_allocation(five_tuple2, 0, DEFAULT_LIFETIME, "user".to_owned(), 0).is_ok());
    assert!(
        m.create_allocation(five_tuple3, 0, DEFAULT_LIFETIME, String::from("user2"), 0).is_ok()
    );

    assert_eq!(m.allocation_count(), 3);

    m.delete_allocations_by_username("user");

    assert_eq!(m.allocation_count(), 1);

    assert!(
        m.get_allocation(&five_tuple1).is_none()
            && m.get_allocation(&five_tuple2).is_none()
            && m.get_allocation(&five_tuple3).is_some()
    );
}

#[test]
fn test_packet_handler() {
    let mut m = new_test_manager();

    let five_tuple = FiveTuple {
        src_addr: SocketAddress::new(LOCALHOST, 50000),
        dst_addr: SocketAddress::new(LOCALHOST, 3478),
        ..Default::default()
    };
    let created = m.create_allocation(five_tuple, 0, DEFAULT_LIFETIME, "user".to_owned(), 0);
    assert!(created.is_ok());

    let peer1 = SocketAddress::new(LOCALHOST, 40001);
    let peer2 = SocketAddress::new(LOCALHOST, 40002);

    // add permission with peer1 address
    assert_eq!(m.add_permission(&five_tuple, peer1.ip, 0), Ok(()));
    // add channel with min channel number and peer2 address
    assert_eq!(
        m.add_channel_bind(&five_tuple, MIN_CHANNEL_NUMBER, peer2, DEFAULT_LIFETIME, 0),
        Ok(())
    );

    let a = m.get_allocation(&five_tuple).unwrap();

    // test for permission and data message
    let target_text = "permission";
    let data = match a.relay(peer1, target_text.as_bytes(), 0) {
        Relayed::DataIndication(raw) => raw,
        other => panic!("should be a data indication, got {:?}", other),
    };

    // resolve stun data message
    assert!(is_message(&data), "should be stun message");

    let mut msg = Message::new();
    msg.raw = data;
    msg.decode().unwrap();

    let msg_data = msg.get(ATTR_DATA).unwrap();
    assert_eq!(
        target_text.as_bytes(),
        &msg_data[..],
        "get message doesn't equal the target text"
    );

    let mut from = XorMappedAddress::default();
    from.get_from_as(&msg, ATTR_XOR_PEER_ADDRESS).unwrap();
    assert_eq!(from.ip.to_string(), "127.0.0.1");
    assert_eq!(from.port, 40001);

    // test for channel bind and channel data
    let target_text2 = "channel bind";
    let data = match a.relay(peer2, target_text2.as_bytes(), 0) {
        Relayed::ChannelData(raw) => raw,
        other => panic!("should be channel data, got {:?}", other),
    };

    // resolve channel data
    assert!(ChannelData::is_channel_data(&data), "should be channel data");

    let channel_data = ChannelData::decode(&data).unwrap();
    assert_eq!(
        MIN_CHANNEL_NUMBER, channel_data.number,
        "get channel data's number is invalid"
    );
    assert_eq!(
        target_text2.as_bytes(),
        &channel_data.data[..],
        "get data doesn't equal the target text."
    );

    // listeners close
    assert_eq!(m.close().len(), 1);
}

#[test]
fn test_create_allocation_lifetime_zero() {
    let mut m = new_test_manager();
    let five_tuple = random_five_tuple();
    let result = m.create_allocation(five_tuple, 0, 0, "user".to_owned(), 0);
    assert_eq!(result.err(), Some(Error::LifetimeZero));
    assert!(m.get_allocation(&five_tuple).is_none());
    assert_eq!(m.check_admission(&five_tuple, 0), Err(Error::LifetimeZero));
    assert_eq!(m.check_admission(&five_tuple, 1), Ok(()));
}

#[test]
fn test_lifetime_zero_comes_before_duplicate() {
    let mut m = new_test_manager();
    let five_tuple = random_five_tuple();
    assert!(m.create_allocation(five_tuple, 0, 1, "user".to_owned(), 0).is_ok());
    let result = m.create_allocation(five_tuple, 0, 0, "user".to_owned(), 0);
    assert_eq!(result.err(), Some(Error::LifetimeZero));
    assert_eq!(m.check_admission(&five_tuple, 5), Err(Error::DuplicateFiveTuple));
}

#[test]
fn test_create_allocation_relay_failure_is_handed_on() {
    let config = ManagerConfig {
        relay_addr_generator: FailingGenerator { failure: RelayFailure::PortInUse, calls: 0 },
    };
    let mut m = Manager::new(config);
    let five_tuple = random_five_tuple();
    let result = m.create_allocation(five_tuple, 5000, DEFAULT_LIFETIME, "user".to_owned(), 0);
    assert_eq!(result.err(), Some(Error::RelayAllocationFailed(RelayFailure::PortInUse)));
    assert!(m.get_allocation(&five_tuple).is_none());
    assert_eq!(m.allocation_count(), 0);
    assert_eq!(
        m.get_random_even_port(),
        Err(Error::RelayAllocationFailed(RelayFailure::PortInUse))
    );
}

#[test]
fn test_install_allocation_for_each_answer() {
    let mut m = new_test_manager();
    let five_tuple = random_five_tuple();
    let refused = m.install_allocation(
        five_tuple,
        Err(RelayFailure::NetworkDown),
        DEFAULT_LIFETIME,
        "user".to_owned(),
        7,
    );
    assert_eq!(refused.err(), Some(Error::RelayAllocationFailed(RelayFailure::NetworkDown)));
    assert_eq!(m.allocation_count(), 0);

    let relay_addr = SocketAddress::new(IpAddress::V4(0x0A00_0001), 50002);
    let made = m
        .install_allocation(five_tuple, Ok(relay_addr), 100, "user".to_owned(), 7)
        .unwrap();
    assert_eq!(made.five_tuple(), five_tuple);
    assert_eq!(made.relay_addr(), relay_addr);
    assert_eq!(made.username(), "user");
    assert_eq!(made.deadline(), 107);
    assert!(!made.is_closed());

    let second = m.install_allocation(five_tuple, Ok(relay_addr), 100, "user".to_owned(), 7);
    assert_eq!(second.err(), Some(Error::DuplicateFiveTuple));
    let zero = m.install_allocation(random_five_tuple(), Ok(relay_addr), 0, "user".to_owned(), 7);
    assert_eq!(zero.err(), Some(Error::LifetimeZero));
}

#[test]
fn test_create_allocation_is_found_again() {
    let mut m = new_test_manager();
    let five_tuple = random_five_tuple();
    let relay_addr = m
        .create_allocation(five_tuple, 0, DEFAULT_LIFETIME, "user".to_owned(), 3)
        .unwrap()
        .relay_addr();
    assert_eq!(relay_addr.port % 2, 0);
    let found = m.get_allocation(&five_tuple).unwrap();
    assert_eq!(found.relay_addr(), relay_addr);
    assert_eq!(found.five_tuple(), five_tuple);
    assert_eq!(found.username(), "user");
    assert_eq!(found.deadline(), DEFAULT_LIFETIME + 3);
}

#[test]
fn test_create_allocation_requested_port() {
    let mut m = new_test_manager();
    let five_tuple = random_five_tuple();
    let a = m.create_allocation(five_tuple, 50010, DEFAULT_LIFETIME, "user".to_owned(), 0);
    assert_eq!(a.unwrap().relay_addr().port, 50010);
}

#[test]
fn test_create_allocation_again_after_delete() {
    let mut m = new_test_manager();
    let five_tuple = random_five_tuple();
    assert!(m.create_allocation(five_tuple, 0, DEFAULT_LIFETIME, "user".to_owned(), 0).is_ok());
    assert!(m.create_allocation(five_tuple, 0, DEFAULT_LIFETIME, "user".to_owned(), 0).is_err());
    assert!(m.delete_allocation(&five_tuple).is_some());
    assert!(m.create_allocation(five_tuple, 0, DEFAULT_LIFETIME, "user".to_owned(), 0).is_ok());
    assert_eq!(m.allocation_count(), 1);
}

#[test]
fn test_delete_allocation_twice() {
    let mut m = new_test_manager();
    let five_tuple = random_five_tuple();
    let other = random_five_tuple();
    assert!(m.create_allocation(five_tuple, 0, DEFAULT_LIFETIME, "user".to_owned(), 0).is_ok());
    assert!(m.create_allocation(other, 0, DEFAULT_LIFETIME, "user".to_owned(), 0).is_ok());
    let mut deleted = m.delete_allocation(&five_tuple).unwrap();
    assert!(deleted.is_closed());
    assert_eq!(deleted.five_tuple(), five_tuple);
    assert_eq!(deleted.close(), Err(Error::AllocationClosed));
    assert!(m.delete_allocation(&five_tuple).is_none());
    assert_eq!(m.allocation_count(), 1);
    assert!(m.get_allocation(&other).is_some());
}

#[test]
fn test_handle_timeout_at_the_deadline() {
    let mut m = new_test_manager();
    let five_tuple = random_five_tuple();
    assert!(m.create_allocation(five_tuple, 0, 100, "user".to_owned(), 1000).is_ok());
    assert!(m.handle_timeout(1099).is_empty());
    assert!(m.get_allocation(&five_tuple).is_some());
    let expired = m.handle_timeout(1100);
    assert_eq!(expired.len(), 1);
    assert_eq!(expired[0].five_tuple(), five_tuple);
    assert!(expired[0].is_closed());
    assert!(m.get_allocation(&five_tuple).is_none());
    assert!(m.handle_timeout(1100).is_empty());
}

#[test]
fn test_refresh_allocation() {
    let mut m = new_test_manager();
    let five_tuple = random_five_tuple();
    assert!(m.create_allocation(five_tuple, 0, 100, "user".to_owned(), 0).is_ok());
    assert_eq!(m.refresh_allocation(&five_tuple, 500, 50), Ok(()));
    assert_eq!(m.get_allocation(&five_tuple).unwrap().deadline(), 550);
    assert!(m.handle_timeout(100).is_empty());
    assert_eq!(m.handle_timeout(550).len(), 1);
    assert_eq!(m.refresh_allocation(&five_tuple, 500, 600), Err(Error::NoAllocationFound));
}

#[test]
fn test_operations_without_allocation() {
    let mut m = new_test_manager();
    let five_tuple = random_five_tuple();
    let peer = SocketAddress::new(LOCALHOST, 40001);
    assert_eq!(m.add_permission(&five_tuple, peer.ip, 0), Err(Error::NoAllocationFound));
    assert_eq!(
        m.add_channel_bind(&five_tuple, MIN_CHANNEL_NUMBER, peer, 10, 0),
        Err(Error::NoAllocationFound)
    );
}

#[test]
fn test_delete_allocation_by_username_hands_back_closed() {
    let mut m = new_test_manager();
    let k1 = random_five_tuple();
    let k2 = random_five_tuple();
    let k3 = random_five_tuple();
    assert!(m.create_allocation(k1, 0, DEFAULT_LIFETIME, "user".to_owned(), 0).is_ok());
    assert!(m.create_allocation(k2, 0, DEFAULT_LIFETIME, "user2".to_owned(), 0).is_ok());
    assert!(m.create_allocation(k3, 0, DEFAULT_LIFETIME, "user".to_owned(), 0).is_ok());

    let mut removed = m.delete_allocations_by_username("user");
    assert_eq!(removed.len(), 2);
    for a in removed.iter_mut() {
        assert_eq!(a.username(), "user");
        assert!(a.five_tuple() == k1 || a.five_tuple() == k3);
        assert_eq!(a.close(), Err(Error::AllocationClosed));
    }
    assert_ne!(removed[0].five_tuple(), removed[1].five_tuple());
    assert_eq!(m.get_allocation(&k2).unwrap().username(), "user2");
    assert!(m.delete_allocations_by_username("user").is_empty());
    assert!(m.delete_allocations_by_username("nobody").is_empty());
    assert_eq!(m.allocation_count(), 1);
}

#[test]
fn test_reservation() {
    let mut m = new_test_manager();
    assert_eq!(m.get_reservation("token"), None);
    m.create_reservation("token".to_owned(), 50001, 5 * SECOND);
    assert_eq!(m.get_reservation("token"), Some(50001));
    assert_eq!(m.get_reservation("other"), None);

    // one tick before the 30 seconds are over
    assert!(m.handle_timeout(5 * SECOND + RESERVATION_LIFETIME - 1).is_empty());
    assert_eq!(m.get_reservation("token"), Some(50001));
    m.handle_timeout(35 * SECOND);
    assert_eq!(m.get_reservation("token"), None);
}

#[test]
fn test_reservation_overwritten() {
    let mut m = new_test_manager();
    m.create_reservation("token".to_owned(), 50001, 0);
    m.create_reservation("token".to_owned(), 50003, 10 * SECOND);
    assert_eq!(m.get_reservation("token"), Some(50003));
    // the timer of the first reservation finds nothing that is due
    m.handle_timeout(30 * SECOND);
    assert_eq!(m.get_reservation("token"), Some(50003));
    m.handle_timeout(40 * SECOND);
    assert_eq!(m.get_reservation("token"), None);
}

#[test]
fn test_reservations_outlive_close() {
    let mut m = new_test_manager();
    m.create_reservation("token".to_owned(), 50001, 0);
    assert!(m.close().is_empty());
    assert_eq!(m.get_reservation("token"), Some(50001));
}

#[test]
fn test_get_random_even_port() {
    let mut m = new_test_manager();
    let port = m.get_random_even_port().unwrap();
    assert_eq!(port, 49152);
    assert_eq!(m.get_random_even_port(), Ok(49154));
    assert_eq!(m.allocation_count(), 0);
}

#[test]
fn test_sample_port() {
    assert_eq!(sample_port(Ok(SocketAddress::new(LOCALHOST, 4242))), Ok(4242));
    assert_eq!(
        sample_port(Err(RelayFailure::AddressUnavailable)),
        Err(Error::RelayAllocationFailed(RelayFailure::AddressUnavailable))
    );
}

#[test]
fn test_handle_timeout_expires_permissions() {
    let mut m = new_test_manager();
    let five_tuple = random_five_tuple();
    let peer = SocketAddress::new(LOCALHOST, 40001);
    assert!(m.create_allocation(five_tuple, 0, DEFAULT_LIFETIME, "user".to_owned(), 0).is_ok());
    assert_eq!(m.add_permission(&five_tuple, peer.ip, 0), Ok(()));
    assert!(m.handle_timeout(300 * SECOND - 1).is_empty());
    assert!(m.get_allocation(&five_tuple).unwrap().has_permission(peer.ip, 0));
    assert!(m.handle_timeout(300 * SECOND).is_empty());
    assert!(!m.get_allocation(&five_tuple).unwrap().has_permission(peer.ip, 0));
}
