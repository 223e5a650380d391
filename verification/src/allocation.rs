pub mod allocation_manager;
pub mod channel_bind;
pub mod five_tuple;
pub mod manager_laws;
pub mod permission;

use crate::addr::{IpAddress, SocketAddress};
use crate::allocation::channel_bind::{bind_channel, binds, channel_keys, channel_map,
    channel_of, channels_keyed, expire_channels, find_channel, find_peer,
    is_valid_channel_number, lemma_channel_map_keyed, live_channels, peer_bound, peers_unique,
    valid_channel_number, ChannelBind};
use crate::allocation::five_tuple::FiveTuple;
use crate::allocation::permission::{expire_permissions, find_permission, grant,
    grant_permission, lemma_permission_map_keyed, live_permissions, permission_keys,
    permission_map, permissions_keyed, Permission};
use crate::error::Error;
use crate::proto::chandata::{channel_data_frame, encode_channel_data, lemma_frame_round_trip,
    parse_channel_data, MAX_CHANNEL_DATA_SIZE};
use crate::proto::indication::{build_data_indication, data_indication, new_transaction_id};
use crate::proto::lifetime::{deadline, deadline_after, later, PERMISSION_LIFETIME};
use crate::table::{distinct, lemma_assoc_empty};
use vstd::prelude::*;

verus! {

/// What an allocation is, apart from how it is stored.
#[verifier::ext_equal]
pub struct AllocationView {
    pub five_tuple: FiveTuple,
    pub username: Seq<char>,
    pub relay_addr: SocketAddress,
    pub deadline: u64,
    pub closed: bool,
    pub permissions: Map<IpAddress, Permission>,
    pub channel_bindings: Map<u16, ChannelBind>,
}

impl AllocationView {
    /// Every binding's peer has a permission for its IP address that lasts as
    /// long as the binding.
    pub open spec fn bindings_permitted(self) -> bool {
        forall|n: u16| #[trigger]
            self.channel_bindings.contains_key(n) ==> self.permissions.contains_key(
                self.channel_bindings[n].peer.ip,
            ) && self.permissions[self.channel_bindings[n].peer.ip].deadline
                >= self.channel_bindings[n].deadline
    }

    /// What holds of every allocation: permissions and bindings stand under
    /// their own keys, channel numbers lie in 0x4000..=0x7FFF, no peer has two
    /// channel numbers, every bound peer is permitted, and a closed allocation
    /// has neither permissions nor bindings.
    pub open spec fn wf(self) -> bool {
        &&& permissions_keyed(self.permissions)
        &&& channels_keyed(self.channel_bindings)
        &&& forall|n: u16| #[trigger]
            self.channel_bindings.contains_key(n) ==> valid_channel_number(n)
        &&& peers_unique(self.channel_bindings)
        &&& self.bindings_permitted()
        &&& self.closed ==> self.permissions == Map::<IpAddress, Permission>::empty()
            && self.channel_bindings == Map::<u16, ChannelBind>::empty()
    }

    /// A fresh allocation that lives for `lifetime` from `now`.
    pub open spec fn new(
        five_tuple: FiveTuple,
        username: Seq<char>,
        relay_addr: SocketAddress,
        lifetime: u64,
        now: u64,
    ) -> AllocationView {
        AllocationView {
            five_tuple,
            username,
            relay_addr,
            deadline: deadline_after(now, lifetime),
            closed: false,
            permissions: Map::empty(),
            channel_bindings: Map::empty(),
        }
    }

    /// The allocation after it was closed: its permissions and bindings go
    /// with it.
    pub open spec fn close(self) -> AllocationView {
        AllocationView {
            closed: true,
            permissions: Map::empty(),
            channel_bindings: Map::empty(),
            ..self
        }
    }

    /// What closing returns: an error where the allocation was closed before.
    pub open spec fn close_result(self) -> Result<(), Error> {
        if self.closed {
            Err(Error::AllocationClosed)
        } else {
            Ok(())
        }
    }

    /// The allocation with `lifetime` to live from `now`.
    pub open spec fn refresh(self, lifetime: u64, now: u64) -> AllocationView {
        if self.closed {
            self
        } else {
            AllocationView { deadline: deadline_after(now, lifetime), ..self }
        }
    }

    /// The allocation with a permission for `peer_ip` that lasts five minutes
    /// from `now`, and no shorter than the one it had.
    pub open spec fn add_permission(self, peer_ip: IpAddress, now: u64) -> AllocationView {
        if self.closed {
            self
        } else {
            AllocationView {
                permissions: grant(
                    self.permissions,
                    peer_ip,
                    deadline_after(now, PERMISSION_LIFETIME),
                ),
                ..self
            }
        }
    }

    /// Whether `peer_ip` holds a permission that has not run out at `now`.
    pub open spec fn has_permission(self, peer_ip: IpAddress, now: u64) -> bool {
        self.permissions.contains_key(peer_ip) && self.permissions[peer_ip].deadline > now
    }

    /// Whether `number` may be bound to `peer`: the allocation is open, the
    /// number can be bound, it stands for no other peer, and the peer has no
    /// other number.
    pub open spec fn bind_result(self, number: u16, peer: SocketAddress) -> Result<(), Error> {
        if self.closed {
            Err(Error::AllocationClosed)
        } else if !valid_channel_number(number) {
            Err(Error::InvalidChannelNumber)
        } else if self.channel_bindings.contains_key(number) && self.channel_bindings[number].peer
            != peer {
            Err(Error::ChannelBindConflict)
        } else if exists|n: u16| n != number && binds(self.channel_bindings, n, peer) {
            Err(Error::ChannelBindConflict)
        } else {
            Ok(())
        }
    }

    /// The allocation with `number` bound to `peer` for `lifetime` from `now`,
    /// and the peer's IP address permitted for as long at least, where that
    /// binding may be made.
    pub open spec fn add_channel_bind(
        self,
        number: u16,
        peer: SocketAddress,
        lifetime: u64,
        now: u64,
    ) -> AllocationView {
        if self.bind_result(number, peer) is Ok {
            let until = deadline_after(now, lifetime);
            AllocationView {
                channel_bindings: self.channel_bindings.insert(
                    number,
                    ChannelBind { number, peer, deadline: until },
                ),
                permissions: grant(
                    self.permissions,
                    peer.ip,
                    later(deadline_after(now, PERMISSION_LIFETIME), until),
                ),
                ..self
            }
        } else {
            self
        }
    }

    /// The channel number that stands for `peer` and has not run out at
    /// `now`.
    pub open spec fn channel_number(self, peer: SocketAddress, now: u64) -> Option<u16> {
        if peer_bound(self.channel_bindings, peer) && self.channel_bindings[channel_of(
            self.channel_bindings,
            peer,
        )].deadline > now {
            Some(channel_of(self.channel_bindings, peer))
        } else {
            None
        }
    }

    /// The peer address that `number` stands for.
    pub open spec fn channel_addr(self, number: u16) -> Option<SocketAddress> {
        if self.channel_bindings.contains_key(number) {
            Some(self.channel_bindings[number].peer)
        } else {
            None
        }
    }

    /// Where a datagram of `len` bytes from `peer` goes at `now`: on the
    /// peer's channel where it has one that has not run out; else in a Data
    /// indication where the peer's IP address holds a permission that has not
    /// run out; else nowhere. A datagram longer than a length field of 16
    /// bits can say goes nowhere.
    pub open spec fn route(self, peer: SocketAddress, len: nat, now: u64) -> Route {
        if len > 0xFFFF {
            Route::Drop
        } else {
            match self.channel_number(peer, now) {
                Some(number) => Route::Channel(number),
                None => if self.has_permission(peer.ip, now) {
                    Route::Indication
                } else {
                    Route::Drop
                },
            }
        }
    }

    /// The allocation without the permissions and bindings whose deadline has
    /// come at `now`.
    pub open spec fn expire(self, now: u64) -> AllocationView {
        AllocationView {
            permissions: live_permissions(self.permissions, now),
            channel_bindings: live_channels(self.channel_bindings, now),
            ..self
        }
    }
}

/// Where a datagram from a peer goes.
#[derive(Clone, Copy, Debug, PartialEq, Eq, Structural)]
pub enum Route {
    /// To the client, in a ChannelData frame on this channel number.
    Channel(u16),
    /// To the client, in a STUN Data indication.
    Indication,
    /// Nowhere.
    Drop,
}

/// What goes to the client for a datagram from a peer.
#[derive(Debug, PartialEq, Eq)]
pub enum Relayed {
    /// The bytes of a ChannelData frame.
    ChannelData(Vec<u8>),
    /// The bytes of a STUN Data indication.
    DataIndication(Vec<u8>),
    /// Nothing.
    Dropped,
}

#[verifier::ext_equal]
/// What goes to the client, as sequences of bytes.
pub enum RelayedView {
    ChannelData(Seq<u8>),
    DataIndication(Seq<u8>),
    Dropped,
}

impl View for Relayed {
    type V = RelayedView;

    open spec fn view(&self) -> RelayedView {
        match self {
            Relayed::ChannelData(raw) => RelayedView::ChannelData(raw@),
            Relayed::DataIndication(raw) => RelayedView::DataIndication(raw@),
            Relayed::Dropped => RelayedView::Dropped,
        }
    }
}

/// What goes to the client for the bytes `built` of a Data indication, or
/// for none.
pub open spec fn indicated(built: Option<Seq<u8>>) -> RelayedView {
    match built {
        Some(raw) => RelayedView::DataIndication(raw),
        None => RelayedView::Dropped,
    }
}

/// The bytes that were built, if any.
pub open spec fn built_view(built: Option<Vec<u8>>) -> Option<Seq<u8>> {
    match built {
        Some(raw) => Some(raw@),
        None => None,
    }
}

/// Sends the bytes of a Data indication on, where there are any.
pub fn indication_or_drop(built: Option<Vec<u8>>) -> (r: Relayed)
    ensures
        r@ == indicated(built_view(built)),
{
    match built {
        Some(raw) => Relayed::DataIndication(raw),
        None => Relayed::Dropped,
    }
}

/// The relay state of one client: its key, who asked for it, the relay
/// address it was given, when it runs out, and which peers may reach it.
pub struct Allocation {
    five_tuple: FiveTuple,
    username: String,
    relay_addr: SocketAddress,
    deadline: u64,
    closed: bool,
    permissions: Vec<Permission>,
    channel_bindings: Vec<ChannelBind>,
}

impl View for Allocation {
    type V = AllocationView;

    closed spec fn view(&self) -> AllocationView {
        AllocationView {
            five_tuple: self.five_tuple,
            username: self.username@,
            relay_addr: self.relay_addr,
            deadline: self.deadline,
            closed: self.closed,
            permissions: permission_map(self.permissions@),
            channel_bindings: channel_map(self.channel_bindings@),
        }
    }
}

impl Allocation {
    /// What the stored allocation keeps to: no key occurs twice in its lists,
    /// and its view is well-formed.
    pub closed spec fn wf(&self) -> bool {
        &&& distinct(permission_keys(self.permissions@))
        &&& distinct(channel_keys(self.channel_bindings@))
        &&& self@.wf()
    }

    /// A well-formed allocation has a well-formed view.
    pub proof fn lemma_wf(&self)
        requires
            self.wf(),
        ensures
            self@.wf(),
    {
    }

    /// An open allocation without permissions and bindings that lives for
    /// `lifetime` from `now`.
    pub fn new(
        five_tuple: FiveTuple,
        username: String,
        relay_addr: SocketAddress,
        lifetime: u64,
        now: u64,
    ) -> (allocation: Allocation)
        ensures
            allocation.wf(),
            allocation@ == AllocationView::new(five_tuple, username@, relay_addr, lifetime, now),
    {
        let allocation = Allocation {
            five_tuple,
            username,
            relay_addr,
            deadline: deadline(now, lifetime),
            closed: false,
            permissions: Vec::new(),
            channel_bindings: Vec::new(),
        };
        proof {
            assert(permission_keys(allocation.permissions@) =~= Seq::<IpAddress>::empty());
            assert(channel_keys(allocation.channel_bindings@) =~= Seq::<u16>::empty());
            lemma_assoc_empty::<IpAddress, Permission>();
            lemma_assoc_empty::<u16, ChannelBind>();
            assert(allocation@ =~= AllocationView::new(
                five_tuple,
                username@,
                relay_addr,
                lifetime,
                now,
            ));
        }
        allocation
    }

    pub fn five_tuple(&self) -> (five_tuple: FiveTuple)
        ensures
            five_tuple == self@.five_tuple,
    {
        self.five_tuple
    }

    pub fn username(&self) -> (username: &String)
        ensures
            username@ == self@.username,
    {
        &self.username
    }

    pub fn relay_addr(&self) -> (relay_addr: SocketAddress)
        ensures
            relay_addr == self@.relay_addr,
    {
        self.relay_addr
    }

    pub fn deadline(&self) -> (deadline: u64)
        ensures
            deadline == self@.deadline,
    {
        self.deadline
    }

    pub fn is_closed(&self) -> (closed: bool)
        ensures
            closed == self@.closed,
    {
        self.closed
    }

    /// Closes the allocation. A second close is an error.
    pub fn close(&mut self) -> (r: Result<(), Error>)
        requires
            old(self).wf(),
        ensures
            final(self).wf(),
            r == old(self)@.close_result(),
            final(self)@ == old(self)@.close(),
    {
        if self.closed {
            proof {
                assert(self@ =~= self@.close());
            }
            return Err(Error::AllocationClosed);
        }
        self.closed = true;
        self.permissions = Vec::new();
        self.channel_bindings = Vec::new();
        proof {
            assert(permission_keys(self.permissions@) =~= Seq::<IpAddress>::empty());
            assert(channel_keys(self.channel_bindings@) =~= Seq::<u16>::empty());
            lemma_assoc_empty::<IpAddress, Permission>();
            lemma_assoc_empty::<u16, ChannelBind>();
            assert(self@ =~= old(self)@.close());
        }
        Ok(())
    }

    /// Lets the allocation live for `lifetime` from `now`.
    pub fn refresh(&mut self, lifetime: u64, now: u64) -> (r: Result<(), Error>)
        requires
            old(self).wf(),
        ensures
            final(self).wf(),
            r == old(self)@.close_result(),
            final(self)@ == old(self)@.refresh(lifetime, now),
    {
        if self.closed {
            return Err(Error::AllocationClosed);
        }
        self.deadline = deadline(now, lifetime);
        Ok(())
    }

    /// Installs the permission for `peer_ip`, or prolongs it, so that it lasts
    /// five minutes from `now`.
    pub fn add_permission(&mut self, peer_ip: IpAddress, now: u64) -> (r: Result<(), Error>)
        requires
            old(self).wf(),
        ensures
            final(self).wf(),
            r == old(self)@.close_result(),
            final(self)@ == old(self)@.add_permission(peer_ip, now),
    {
        if self.closed {
            return Err(Error::AllocationClosed);
        }
        grant_permission(&mut self.permissions, peer_ip, deadline(now, PERMISSION_LIFETIME));
        proof {
            lemma_permission_map_keyed(self.permissions@);
            assert(self@ =~= old(self)@.add_permission(peer_ip, now));
        }
        Ok(())
    }

    /// Whether `peer_ip` holds a permission that has not run out at `now`.
    pub fn has_permission(&self, peer_ip: IpAddress, now: u64) -> (permitted: bool)
        requires
            self.wf(),
        ensures
            permitted == self@.has_permission(peer_ip, now),
    {
        match find_permission(&self.permissions, peer_ip) {
            Some(i) => self.permissions[i].deadline > now,
            None => false,
        }
    }

    /// Binds `number` to `peer` for `lifetime` from `now`, or prolongs that
    /// binding, and installs or prolongs the permission for the peer's IP
    /// address.
    pub fn add_channel_bind(
        &mut self,
        number: u16,
        peer: SocketAddress,
        lifetime: u64,
        now: u64,
    ) -> (r: Result<(), Error>)
        requires
            old(self).wf(),
        ensures
            final(self).wf(),
            r == old(self)@.bind_result(number, peer),
            final(self)@ == old(self)@.add_channel_bind(number, peer, lifetime, now),
    {
        if self.closed {
            return Err(Error::AllocationClosed);
        }
        if !is_valid_channel_number(number) {
            return Err(Error::InvalidChannelNumber);
        }
        match find_channel(&self.channel_bindings, number) {
            Some(i) => {
                if self.channel_bindings[i].peer != peer {
                    return Err(Error::ChannelBindConflict);
                }
            },
            None => {},
        }
        match find_peer(&self.channel_bindings, peer) {
            Some(i) => {
                if self.channel_bindings[i].number != number {
                    return Err(Error::ChannelBindConflict);
                }
            },
            None => {},
        }
        proof {
            assert forall|n: u16| n != number implies !binds(
                self@.channel_bindings,
                n,
                peer,
            ) by {
                if binds(self@.channel_bindings, n, peer) {
                    assert(peer_bound(self@.channel_bindings, peer));
                    assert(self@.channel_bindings.contains_key(number));
                }
            }
            assert(self@.bind_result(number, peer) is Ok);
        }
        let until = deadline(now, lifetime);
        let granted = deadline(now, PERMISSION_LIFETIME);
        let permitted = if granted >= until {
            granted
        } else {
            until
        };
        bind_channel(&mut self.channel_bindings, number, peer, until);
        grant_permission(&mut self.permissions, peer.ip, permitted);
        proof {
            lemma_permission_map_keyed(self.permissions@);
            lemma_channel_map_keyed(self.channel_bindings@);
            assert(self@ =~= old(self)@.add_channel_bind(number, peer, lifetime, now));
            let before = old(self)@;
            let after = self@;
            assert forall|n: u16| #[trigger] after.channel_bindings.contains_key(n) implies {
                &&& valid_channel_number(n)
                &&& after.permissions.contains_key(after.channel_bindings[n].peer.ip)
                &&& after.permissions[after.channel_bindings[n].peer.ip].deadline
                    >= after.channel_bindings[n].deadline
            } by {
                if n != number {
                    assert(before.channel_bindings.contains_key(n));
                }
            }
            assert forall|n1: u16, n2: u16|
                #[trigger] after.channel_bindings.contains_key(n1)
                    && #[trigger] after.channel_bindings.contains_key(n2) && n1
                    != n2 implies after.channel_bindings[n1].peer
                != after.channel_bindings[n2].peer by {
                if n1 != number {
                    assert(before.channel_bindings.contains_key(n1));
                    assert(!binds(before.channel_bindings, n1, peer));
                }
                if n2 != number {
                    assert(before.channel_bindings.contains_key(n2));
                    assert(!binds(before.channel_bindings, n2, peer));
                }
            }
        }
        Ok(())
    }

    /// The channel number that stands for `peer` and has not run out at `now`.
    pub fn get_channel_number(&self, peer: SocketAddress, now: u64) -> (number: Option<u16>)
        requires
            self.wf(),
        ensures
            number == self@.channel_number(peer, now),
    {
        match find_peer(&self.channel_bindings, peer) {
            Some(i) => {
                proof {
                    assert(peer_bound(self@.channel_bindings, peer));
                    let n = channel_of(self@.channel_bindings, peer);
                    assert(binds(self@.channel_bindings, n, peer));
                    assert(n == self.channel_bindings@[i as int].number);
                }
                if self.channel_bindings[i].deadline > now {
                    Some(self.channel_bindings[i].number)
                } else {
                    None
                }
            },
            None => None,
        }
    }

    /// The peer address that `number` stands for.
    pub fn get_channel_addr(&self, number: u16) -> (peer: Option<SocketAddress>)
        requires
            self.wf(),
        ensures
            peer == self@.channel_addr(number),
    {
        match find_channel(&self.channel_bindings, number) {
            Some(i) => Some(self.channel_bindings[i].peer),
            None => None,
        }
    }

    /// Where a datagram of `len` bytes from `peer` goes at `now`.
    pub fn route(&self, peer: SocketAddress, len: usize, now: u64) -> (route: Route)
        requires
            self.wf(),
        ensures
            route == self@.route(peer, len as nat, now),
    {
        if len > MAX_CHANNEL_DATA_SIZE {
            return Route::Drop;
        }
        match self.get_channel_number(peer, now) {
            Some(number) => Route::Channel(number),
            None => {
                if self.has_permission(peer.ip, now) {
                    Route::Indication
                } else {
                    Route::Drop
                }
            },
        }
    }

    /// What goes to the client for the datagram `data` that came from `peer`
    /// at `now`, where a Data indication gets the transaction id
    /// `transaction_id`.
    pub fn relay_as(
        &self,
        transaction_id: &[u8; 12],
        peer: SocketAddress,
        data: &[u8],
        now: u64,
    ) -> (r: Relayed)
        requires
            self.wf(),
        ensures
            match self@.route(peer, data@.len(), now) {
                Route::Channel(number) => r@ == RelayedView::ChannelData(
                    channel_data_frame(number, data@),
                ),
                Route::Indication => r@ == RelayedView::Dropped || r@
                    == RelayedView::DataIndication(data_indication(transaction_id@, peer, data@)),
                Route::Drop => r@ == RelayedView::Dropped,
            },
    {
        match self.route(peer, data.len(), now) {
            Route::Channel(number) => Relayed::ChannelData(encode_channel_data(number, data)),
            Route::Indication => indication_or_drop(
                build_data_indication(transaction_id, &peer, data),
            ),
            Route::Drop => Relayed::Dropped,
        }
    }

    /// What goes to the client for the datagram `data` that came from `peer`
    /// at `now`. A Data indication gets a fresh transaction id.
    pub fn relay(&self, peer: SocketAddress, data: &[u8], now: u64) -> (r: Relayed)
        requires
            self.wf(),
        ensures
            match self@.route(peer, data@.len(), now) {
                Route::Channel(number) => r@ == RelayedView::ChannelData(
                    channel_data_frame(number, data@),
                ),
                Route::Indication => r@ == RelayedView::Dropped || exists|transaction_id: Seq<u8>|
                    transaction_id.len() == 12 && r@ == RelayedView::DataIndication(
                        #[trigger] data_indication(transaction_id, peer, data@),
                    ),
                Route::Drop => r@ == RelayedView::Dropped,
            },
    {
        match self.route(peer, data.len(), now) {
            Route::Channel(number) => Relayed::ChannelData(encode_channel_data(number, data)),
            Route::Indication => {
                let transaction_id = new_transaction_id();
                self.relay_as(&transaction_id, peer, data, now)
            },
            Route::Drop => Relayed::Dropped,
        }
    }

    /// Drops the permissions and bindings whose deadline has come at `now`.
    pub fn expire(&mut self, now: u64)
        requires
            old(self).wf(),
        ensures
            final(self).wf(),
            final(self)@ == old(self)@.expire(now),
    {
        expire_channels(&mut self.channel_bindings, now);
        expire_permissions(&mut self.permissions, now);
        proof {
            assert(self@ =~= old(self)@.expire(now));
            if self.closed {
                assert(self@.permissions =~= Map::<IpAddress, Permission>::empty());
                assert(self@.channel_bindings =~= Map::<u16, ChannelBind>::empty());
            }
        }
    }
}

/// A datagram from a peer whose address has a channel number that has not
/// run out goes to the client on that channel, and the frame is read back as
/// that channel number and the datagram.
pub proof fn lemma_bound_peer_gets_channel_data(
    allocation: AllocationView,
    number: u16,
    peer: SocketAddress,
    data: Seq<u8>,
    now: u64,
)
    requires
        allocation.wf(),
        binds(allocation.channel_bindings, number, peer),
        allocation.channel_bindings[number].deadline > now,
        data.len() <= 0xFFFF,
    ensures
        allocation.channel_number(peer, now) == Some(number),
        allocation.route(peer, data.len(), now) == Route::Channel(number),
        parse_channel_data(channel_data_frame(number, data)) == Some((number, data)),
{
    assert(peer_bound(allocation.channel_bindings, peer));
    let n = channel_of(allocation.channel_bindings, peer);
    assert(binds(allocation.channel_bindings, n, peer));
    assert(n == number);
    lemma_frame_round_trip(number, data);
}

/// A datagram from a peer without such a channel number, whose IP address
/// holds a permission that has not run out, goes to the client in a Data
/// indication.
pub proof fn lemma_permitted_peer_gets_indication(
    allocation: AllocationView,
    peer: SocketAddress,
    data: Seq<u8>,
    now: u64,
)
    requires
        allocation.channel_number(peer, now) is None,
        allocation.has_permission(peer.ip, now),
        data.len() <= 0xFFFF,
    ensures
        allocation.route(peer, data.len(), now) == Route::Indication,
{
}

/// A datagram from any other peer goes nowhere.
pub proof fn lemma_other_peer_is_dropped(
    allocation: AllocationView,
    peer: SocketAddress,
    data: Seq<u8>,
    now: u64,
)
    requires
        allocation.channel_number(peer, now) is None,
        !allocation.has_permission(peer.ip, now),
    ensures
        allocation.route(peer, data.len(), now) == Route::Drop,
{
}

/// While a channel binding lasts, its peer's IP address holds a permission.
pub proof fn lemma_bound_peer_is_permitted(
    allocation: AllocationView,
    number: u16,
    peer: SocketAddress,
    now: u64,
)
    requires
        allocation.wf(),
        binds(allocation.channel_bindings, number, peer),
        allocation.channel_bindings[number].deadline > now,
    ensures
        allocation.has_permission(peer.ip, now),
{
}

} // verus!
