use crate::addr::{IpAddress, SocketAddress};
use crate::allocation::five_tuple::FiveTuple;
use crate::allocation::{Allocation, AllocationView};
use crate::error::{Error, RelayFailure};
use crate::proto::lifetime::{deadline, deadline_after, RESERVATION_LIFETIME};
use crate::relay::{honours, RelayAddressGenerator};
use crate::table::{assoc, distinct, lemma_assoc_absent, lemma_assoc_at, lemma_assoc_empty,
    lemma_assoc_key, lemma_assoc_len, lemma_assoc_push, lemma_assoc_remove, lemma_assoc_update};
use vstd::prelude::*;

verus! {

/// The five-tuples of a list of allocations, in its order.
pub open spec fn allocation_keys(s: Seq<Allocation>) -> Seq<FiveTuple> {
    Seq::new(s.len(), |i: int| s[i]@.five_tuple)
}

/// The views of a list of allocations, in its order.
pub open spec fn allocation_views(s: Seq<Allocation>) -> Seq<AllocationView> {
    Seq::new(s.len(), |i: int| s[i]@)
}

/// The allocations of a list, by five-tuple.
pub open spec fn allocation_map(s: Seq<Allocation>) -> Map<FiveTuple, AllocationView> {
    assoc(allocation_keys(s), allocation_views(s))
}

/// A port held back for a later allocation, until `deadline`.
#[derive(Clone, Copy, Debug, PartialEq, Eq, Structural)]
pub struct Reservation {
    pub port: u16,
    pub deadline: u64,
}

struct ReservationEntry {
    token: String,
    reservation: Reservation,
}

spec fn reservation_keys(s: Seq<ReservationEntry>) -> Seq<Seq<char>> {
    Seq::new(s.len(), |i: int| s[i].token@)
}

spec fn reservation_values(s: Seq<ReservationEntry>) -> Seq<Reservation> {
    Seq::new(s.len(), |i: int| s[i].reservation)
}

spec fn reservation_map(s: Seq<ReservationEntry>) -> Map<Seq<char>, Reservation> {
    assoc(reservation_keys(s), reservation_values(s))
}

/// What a manager holds, apart from how it is stored.
#[verifier::ext_equal]
pub struct ManagerView {
    pub allocations: Map<FiveTuple, AllocationView>,
    pub reservations: Map<Seq<char>, Reservation>,
}

impl ManagerView {
    /// Every allocation stands under its own five-tuple, is well-formed and
    /// open.
    pub open spec fn wf(self) -> bool {
        forall|k: FiveTuple| #[trigger]
            self.allocations.contains_key(k) ==> self.allocations[k].five_tuple == k
                && self.allocations[k].wf() && !self.allocations[k].closed
    }

    /// The manager that holds nothing.
    pub open spec fn empty() -> ManagerView {
        ManagerView { allocations: Map::empty(), reservations: Map::empty() }
    }

    /// The allocation of `five_tuple`, if it has one.
    pub open spec fn get_allocation(self, five_tuple: FiveTuple) -> Option<AllocationView> {
        if self.allocations.contains_key(five_tuple) {
            Some(self.allocations[five_tuple])
        } else {
            None
        }
    }

    /// Whether an allocation for `five_tuple` with `lifetime` may be made.
    pub open spec fn admission(self, five_tuple: FiveTuple, lifetime: u64) -> Result<(), Error> {
        if lifetime == 0 {
            Err(Error::LifetimeZero)
        } else if self.allocations.contains_key(five_tuple) {
            Err(Error::DuplicateFiveTuple)
        } else {
            Ok(())
        }
    }

    /// What a request for an allocation comes to, once the relay address
    /// generator has answered `granted`.
    pub open spec fn install_result(
        self,
        five_tuple: FiveTuple,
        granted: Result<SocketAddress, RelayFailure>,
        lifetime: u64,
        username: Seq<char>,
        now: u64,
    ) -> Result<AllocationView, Error> {
        match self.admission(five_tuple, lifetime) {
            Err(e) => Err(e),
            Ok(_) => match granted {
                Err(failure) => Err(Error::RelayAllocationFailed(failure)),
                Ok(relay_addr) => Ok(
                    AllocationView::new(five_tuple, username, relay_addr, lifetime, now),
                ),
            },
        }
    }

    /// The manager after that request.
    pub open spec fn install(
        self,
        five_tuple: FiveTuple,
        granted: Result<SocketAddress, RelayFailure>,
        lifetime: u64,
        username: Seq<char>,
        now: u64,
    ) -> ManagerView {
        match self.install_result(five_tuple, granted, lifetime, username, now) {
            Err(_) => self,
            Ok(allocation) => ManagerView {
                allocations: self.allocations.insert(five_tuple, allocation),
                ..self
            },
        }
    }

    /// The manager without the allocation of `five_tuple`.
    pub open spec fn delete_allocation(self, five_tuple: FiveTuple) -> ManagerView {
        ManagerView { allocations: self.allocations.remove(five_tuple), ..self }
    }

    /// The allocations that `name` asked for.
    pub open spec fn owned_by(self, name: Seq<char>) -> Map<FiveTuple, AllocationView> {
        Map::new(
            |k: FiveTuple| self.allocations.contains_key(k) && self.allocations[k].username == name,
            |k: FiveTuple| self.allocations[k],
        )
    }

    /// The manager without the allocations that `name` asked for.
    pub open spec fn delete_allocations_by_username(self, name: Seq<char>) -> ManagerView {
        ManagerView {
            allocations: Map::new(
                |k: FiveTuple|
                    self.allocations.contains_key(k) && self.allocations[k].username != name,
                |k: FiveTuple| self.allocations[k],
            ),
            ..self
        }
    }

    /// The manager without allocations. The reservations stay.
    pub open spec fn close(self) -> ManagerView {
        ManagerView { allocations: Map::empty(), ..self }
    }

    /// The allocations whose deadline has come at `now`.
    pub open spec fn expired(self, now: u64) -> Map<FiveTuple, AllocationView> {
        Map::new(
            |k: FiveTuple| self.allocations.contains_key(k) && self.allocations[k].deadline <= now,
            |k: FiveTuple| self.allocations[k],
        )
    }

    /// The manager after every timer that is due at `now` has fired: the
    /// allocations and reservations whose deadline has come are gone, and so
    /// are such permissions and channel bindings of the allocations that stay.
    pub open spec fn handle_timeout(self, now: u64) -> ManagerView {
        ManagerView {
            allocations: Map::new(
                |k: FiveTuple|
                    self.allocations.contains_key(k) && self.allocations[k].deadline > now,
                |k: FiveTuple| self.allocations[k].expire(now),
            ),
            reservations: Map::new(
                |t: Seq<char>|
                    self.reservations.contains_key(t) && self.reservations[t].deadline > now,
                |t: Seq<char>| self.reservations[t],
            ),
        }
    }

    /// The manager with `port` held back under `token` for 30 seconds from
    /// `now`.
    pub open spec fn create_reservation(self, token: Seq<char>, port: u16, now: u64) -> ManagerView {
        ManagerView {
            reservations: self.reservations.insert(
                token,
                Reservation { port, deadline: deadline_after(now, RESERVATION_LIFETIME) },
            ),
            ..self
        }
    }

    /// The port held back under `token`, if there is one.
    pub open spec fn get_reservation(self, token: Seq<char>) -> Option<u16> {
        if self.reservations.contains_key(token) {
            Some(self.reservations[token].port)
        } else {
            None
        }
    }

    /// The manager with `allocation` in the place of the one that has its
    /// five-tuple.
    pub open spec fn replace(self, allocation: AllocationView) -> ManagerView {
        ManagerView {
            allocations: self.allocations.insert(allocation.five_tuple, allocation),
            ..self
        }
    }
}

/// The allocations of `m`, each closed.
pub open spec fn closed_map(m: Map<FiveTuple, AllocationView>) -> Map<FiveTuple, AllocationView> {
    Map::new(|k: FiveTuple| m.contains_key(k), |k: FiveTuple| m[k].close())
}

/// `removed` holds the allocations of `m`, each once and closed.
pub open spec fn handed_back(removed: Seq<Allocation>, m: Map<FiveTuple, AllocationView>) -> bool {
    &&& distinct(allocation_keys(removed))
    &&& forall|i: int| 0 <= i < removed.len() ==> (#[trigger] removed[i]).wf()
    &&& allocation_map(removed) == closed_map(m)
}

/// What a manager is made from.
pub struct ManagerConfig<G: RelayAddressGenerator> {
    pub relay_addr_generator: G,
}

/// The table of the allocations that are open, and of the reservations.
pub struct Manager<G: RelayAddressGenerator> {
    allocations: Vec<Allocation>,
    reservations: Vec<ReservationEntry>,
    relay_addr_generator: G,
}

/// What a call returns, apart from how the allocation is stored.
pub open spec fn outcome(r: Result<&Allocation, Error>) -> Result<AllocationView, Error> {
    match r {
        Ok(allocation) => Ok(allocation@),
        Err(e) => Err(e),
    }
}

spec fn table_wf(s: Seq<Allocation>) -> bool {
    &&& distinct(allocation_keys(s))
    &&& forall|i: int| 0 <= i < s.len() ==> (#[trigger] s[i]).wf() && !s[i]@.closed
}

proof fn lemma_table_view(s: Seq<Allocation>)
    requires
        table_wf(s),
    ensures
        forall|k: FiveTuple| #[trigger]
            allocation_map(s).contains_key(k) ==> allocation_map(s)[k].five_tuple == k
                && allocation_map(s)[k].wf() && !allocation_map(s)[k].closed,
{
    assert forall|k: FiveTuple| #[trigger] allocation_map(s).contains_key(k) implies allocation_map(
        s,
    )[k].five_tuple == k && allocation_map(s)[k].wf() && !allocation_map(s)[k].closed by {
        lemma_assoc_key(allocation_keys(s), allocation_views(s), k);
        let p = crate::table::position(allocation_keys(s), k);
        assert(s[p].wf());
        s[p].lemma_wf();
    }
}

/// Putting another allocation with the same five-tuple in place `i` of a
/// table puts its view under that five-tuple.
proof fn lemma_replaced(before: Seq<Allocation>, after: Seq<Allocation>, i: int)
    requires
        table_wf(before),
        0 <= i < before.len(),
        after.len() == before.len(),
        forall|j: int| 0 <= j < before.len() && j != i ==> after[j] == before[j],
        after[i].wf(),
        !after[i]@.closed,
        after[i]@.five_tuple == before[i]@.five_tuple,
    ensures
        table_wf(after),
        allocation_map(after) == allocation_map(before).insert(
            before[i]@.five_tuple,
            after[i]@,
        ),
{
    assert(allocation_keys(after) =~= allocation_keys(before));
    assert(allocation_views(after) =~= allocation_views(before).update(i, after[i]@));
    lemma_assoc_update(allocation_keys(before), allocation_views(before), i, after[i]@);
    assert forall|j: int| 0 <= j < after.len() implies (#[trigger] after[j]).wf()
        && !after[j]@.closed by {
        if j != i {
            assert(after[j] == before[j]);
        }
    }
}

fn find_allocation(v: &Vec<Allocation>, five_tuple: &FiveTuple) -> (r: Option<usize>)
    requires
        distinct(allocation_keys(v@)),
    ensures
        match r {
            Some(i) => i < v@.len() && v@[i as int]@.five_tuple == *five_tuple && allocation_map(
                v@,
            ).contains_key(*five_tuple) && allocation_map(v@)[*five_tuple] == v@[i as int]@,
            None => !allocation_map(v@).contains_key(*five_tuple),
        },
{
    let mut i: usize = 0;
    while i < v.len()
        invariant
            i <= v@.len(),
            distinct(allocation_keys(v@)),
            forall|j: int| 0 <= j < i ==> v@[j]@.five_tuple != *five_tuple,
        decreases v@.len() - i,
    {
        if v[i].five_tuple() == *five_tuple {
            proof {
                lemma_assoc_at(allocation_keys(v@), allocation_views(v@), i as int);
            }
            return Some(i);
        }
        i += 1;
    }
    proof {
        lemma_assoc_absent(allocation_keys(v@), allocation_views(v@), *five_tuple);
    }
    None
}

/// Drops the permissions and bindings of every allocation whose deadline has
/// come at `now`.
fn expire_each(v: &mut Vec<Allocation>, now: u64)
    requires
        table_wf(old(v)@),
    ensures
        table_wf(final(v)@),
        allocation_keys(final(v)@) == allocation_keys(old(v)@),
        final(v)@.len() == old(v)@.len(),
        forall|j: int| 0 <= j < final(v)@.len() ==> (#[trigger] final(v)@[j])@ == old(v)@[j]@.expire(now),
{
    let ghost before = v@;
    let mut i: usize = 0;
    while i < v.len()
        invariant
            i <= v@.len(),
            v@.len() == before.len(),
            table_wf(before),
            forall|j: int| 0 <= j < v@.len() ==> (#[trigger] v@[j]).wf() && !v@[j]@.closed,
            forall|j: int| 0 <= j < i ==> (#[trigger] v@[j])@ == before[j]@.expire(now),
            forall|j: int| i <= j < v@.len() ==> (#[trigger] v@[j]) == before[j],
        decreases v@.len() - i,
    {
        let ghost held = v@;
        let mut allocation = v.remove(i);
        allocation.expire(now);
        v.insert(i, allocation);
        proof {
            assert forall|j: int| 0 <= j < v@.len() implies (#[trigger] v@[j]).wf()
                && !v@[j]@.closed by {
                if j != i {
                    assert(v@[j] == held[j]);
                }
            }
            assert forall|j: int| 0 <= j < i + 1 implies (#[trigger] v@[j])@ == before[j]@.expire(
                now,
            ) by {
                if j != i {
                    assert(v@[j] == held[j]);
                }
            }
            assert forall|j: int| i + 1 <= j < v@.len() implies (#[trigger] v@[j]) == before[j] by {
                assert(v@[j] == held[j]);
            }
        }
        i += 1;
    }
    proof {
        assert(allocation_keys(v@) =~= allocation_keys(before));
    }
}

fn find_reservation(v: &Vec<ReservationEntry>, token: &String) -> (r: Option<usize>)
    requires
        distinct(reservation_keys(v@)),
    ensures
        match r {
            Some(i) => i < v@.len() && v@[i as int].token@ == token@ && reservation_map(
                v@,
            ).contains_key(token@) && reservation_map(v@)[token@] == v@[i as int].reservation,
            None => !reservation_map(v@).contains_key(token@),
        },
{
    let mut i: usize = 0;
    while i < v.len()
        invariant
            i <= v@.len(),
            distinct(reservation_keys(v@)),
            forall|j: int| 0 <= j < i ==> v@[j].token@ != token@,
        decreases v@.len() - i,
    {
        if v[i].token == *token {
            proof {
                lemma_assoc_at(reservation_keys(v@), reservation_values(v@), i as int);
            }
            return Some(i);
        }
        i += 1;
    }
    proof {
        lemma_assoc_absent(reservation_keys(v@), reservation_values(v@), token@);
    }
    None
}

/// Drops the reservations whose deadline has come.
fn expire_reservations(v: &mut Vec<ReservationEntry>, now: u64)
    requires
        distinct(reservation_keys(old(v)@)),
    ensures
        distinct(reservation_keys(final(v)@)),
        reservation_map(final(v)@) == Map::new(
            |t: Seq<char>|
                reservation_map(old(v)@).contains_key(t) && reservation_map(old(v)@)[t].deadline
                    > now,
            |t: Seq<char>| reservation_map(old(v)@)[t],
        ),
{
    let ghost held = reservation_map(v@);
    let mut i: usize = 0;
    while i < v.len()
        invariant
            i <= v@.len(),
            distinct(reservation_keys(v@)),
            forall|j: int| 0 <= j < i ==> v@[j].reservation.deadline > now,
            forall|t: Seq<char>| #[trigger]
                reservation_map(v@).contains_key(t) ==> held.contains_key(t) && held[t]
                    == reservation_map(v@)[t],
            forall|t: Seq<char>| #[trigger]
                held.contains_key(t) && held[t].deadline > now ==> reservation_map(
                    v@,
                ).contains_key(t),
        decreases v@.len() - i,
    {
        if v[i].reservation.deadline <= now {
            let ghost before = v@;
            proof {
                lemma_assoc_at(reservation_keys(before), reservation_values(before), i as int);
            }
            v.remove(i);
            proof {
                assert(reservation_keys(v@) =~= reservation_keys(before).remove(i as int));
                assert(reservation_values(v@) =~= reservation_values(before).remove(i as int));
                lemma_assoc_remove(reservation_keys(before), reservation_values(before), i as int);
                assert forall|t: Seq<char>| #[trigger]
                    reservation_map(v@).contains_key(t) implies held.contains_key(t) && held[t]
                    == reservation_map(v@)[t] by {
                    assert(reservation_map(before).contains_key(t));
                }
                assert forall|t: Seq<char>| #[trigger]
                    held.contains_key(t) && held[t].deadline > now implies reservation_map(
                    v@,
                ).contains_key(t) by {
                    assert(reservation_map(before).contains_key(t));
                }
            }
        } else {
            i += 1;
        }
    }
    proof {
        assert forall|t: Seq<char>| #[trigger]
            reservation_map(v@).contains_key(t) implies held[t].deadline > now by {
            lemma_assoc_key(reservation_keys(v@), reservation_values(v@), t);
        }
        assert(reservation_map(v@) =~= Map::new(
            |t: Seq<char>| held.contains_key(t) && held[t].deadline > now,
            |t: Seq<char>| held[t],
        ));
    }
}

/// What sampling a port comes to, once the relay address generator has
/// answered `granted`.
pub open spec fn sampled_port(granted: Result<SocketAddress, RelayFailure>) -> Result<u16, Error> {
    match granted {
        Ok(relay_addr) => Ok(relay_addr.port),
        Err(failure) => Err(Error::RelayAllocationFailed(failure)),
    }
}

/// The port of the address that the relay address generator handed out, or
/// its refusal.
pub fn sample_port(granted: Result<SocketAddress, RelayFailure>) -> (r: Result<u16, Error>)
    ensures
        r == sampled_port(granted),
{
    match granted {
        Ok(relay_addr) => Ok(relay_addr.port),
        Err(failure) => Err(Error::RelayAllocationFailed(failure)),
    }
}

enum Selector<'a> {
    All,
    Username(&'a String),
    Expired(u64),
}

spec fn selects(selector: Selector, allocation: AllocationView) -> bool {
    match selector {
        Selector::All => true,
        Selector::Username(name) => allocation.username == name@,
        Selector::Expired(now) => allocation.deadline <= now,
    }
}

fn is_selected(selector: &Selector, allocation: &Allocation) -> (selected: bool)
    ensures
        selected == selects(*selector, allocation@),
{
    match selector {
        Selector::All => true,
        Selector::Username(name) => *allocation.username() == **name,
        Selector::Expired(now) => allocation.deadline() <= *now,
    }
}

/// Takes the allocations that `selector` picks out of `v`, and closes them.
fn remove_selected(v: &mut Vec<Allocation>, selector: Selector) -> (removed: Vec<Allocation>)
    requires
        table_wf(old(v)@),
    ensures
        table_wf(final(v)@),
        allocation_map(final(v)@) == Map::new(
            |k: FiveTuple|
                allocation_map(old(v)@).contains_key(k) && !selects(
                    selector,
                    allocation_map(old(v)@)[k],
                ),
            |k: FiveTuple| allocation_map(old(v)@)[k],
        ),
        handed_back(
            removed@,
            Map::new(
                |k: FiveTuple|
                    allocation_map(old(v)@).contains_key(k) && selects(
                        selector,
                        allocation_map(old(v)@)[k],
                    ),
                |k: FiveTuple| allocation_map(old(v)@)[k],
            ),
        ),
{
    let ghost held = allocation_map(v@);
    let mut removed: Vec<Allocation> = Vec::new();
    let mut i: usize = 0;
    proof {
        assert(allocation_keys(removed@) =~= Seq::<FiveTuple>::empty());
        assert(allocation_views(removed@) =~= Seq::<AllocationView>::empty());
        lemma_assoc_empty::<FiveTuple, AllocationView>();
    }
    while i < v.len()
        invariant
            i <= v@.len(),
            table_wf(v@),
            distinct(allocation_keys(removed@)),
            forall|j: int| 0 <= j < removed@.len() ==> (#[trigger] removed@[j]).wf(),
            forall|j: int| 0 <= j < i ==> !selects(selector, (#[trigger] v@[j])@),
            forall|k: FiveTuple| #[trigger]
                allocation_map(v@).contains_key(k) ==> held.contains_key(k) && held[k]
                    == allocation_map(v@)[k],
            forall|k: FiveTuple| #[trigger]
                allocation_map(removed@).contains_key(k) ==> held.contains_key(k) && selects(
                    selector,
                    held[k],
                ) && allocation_map(removed@)[k] == held[k].close() && !allocation_map(
                    v@,
                ).contains_key(k),
            forall|k: FiveTuple| #[trigger]
                held.contains_key(k) ==> allocation_map(v@).contains_key(k) || allocation_map(
                    removed@,
                ).contains_key(k),
        decreases v@.len() - i,
    {
        if is_selected(&selector, &v[i]) {
            let ghost before = v@;
            let ghost removed_before = removed@;
            proof {
                lemma_assoc_at(allocation_keys(before), allocation_views(before), i as int);
            }
            let mut allocation = v.remove(i);
            let ghost key = allocation@.five_tuple;
            let ghost open = allocation@;
            let _ = allocation.close();
            removed.push(allocation);
            proof {
                assert(allocation_keys(v@) =~= allocation_keys(before).remove(i as int));
                assert(allocation_views(v@) =~= allocation_views(before).remove(i as int));
                lemma_assoc_remove(allocation_keys(before), allocation_views(before), i as int);
                assert(allocation_keys(removed@) =~= allocation_keys(removed_before).push(key));
                assert(allocation_views(removed@) =~= allocation_views(removed_before).push(
                    open.close(),
                ));
                assert(allocation_map(before).contains_key(key));
                assert(!allocation_map(removed_before).contains_key(key));
                lemma_assoc_push(
                    allocation_keys(removed_before),
                    allocation_views(removed_before),
                    key,
                    open.close(),
                );
                assert forall|k: FiveTuple| #[trigger]
                    allocation_map(v@).contains_key(k) implies held.contains_key(k) && held[k]
                    == allocation_map(v@)[k] by {
                    assert(allocation_map(before).contains_key(k));
                }
                assert forall|k: FiveTuple| #[trigger]
                    allocation_map(removed@).contains_key(k) implies held.contains_key(k)
                    && selects(selector, held[k]) && allocation_map(removed@)[k] == held[k].close()
                    && !allocation_map(v@).contains_key(k) by {
                    if k != key {
                        assert(allocation_map(removed_before).contains_key(k));
                    }
                }
                assert forall|k: FiveTuple| #[trigger] held.contains_key(k) implies allocation_map(
                    v@,
                ).contains_key(k) || allocation_map(removed@).contains_key(k) by {
                    if k != key {
                        if allocation_map(before).contains_key(k) {
                            assert(allocation_map(v@).contains_key(k));
                        } else {
                            assert(allocation_map(removed_before).contains_key(k));
                            assert(allocation_map(removed@).contains_key(k));
                        }
                    }
                }
                assert forall|j: int| 0 <= j < v@.len() implies (#[trigger] v@[j]).wf()
                    && !v@[j]@.closed by {
                    if j < i {
                        assert(v@[j] == before[j]);
                    } else {
                        assert(v@[j] == before[j + 1]);
                    }
                }
            }
        } else {
            i += 1;
        }
    }
    proof {
        assert forall|k: FiveTuple| #[trigger] allocation_map(v@).contains_key(k) implies !selects(
            selector,
            held[k],
        ) by {
            lemma_assoc_key(allocation_keys(v@), allocation_views(v@), k);
        }
        assert(allocation_map(v@) =~= Map::new(
            |k: FiveTuple| held.contains_key(k) && !selects(selector, held[k]),
            |k: FiveTuple| held[k],
        ));
        assert(allocation_map(removed@) =~= closed_map(
            Map::new(
                |k: FiveTuple| held.contains_key(k) && selects(selector, held[k]),
                |k: FiveTuple| held[k],
            ),
        ));
    }
    removed
}

impl<G: RelayAddressGenerator> View for Manager<G> {
    type V = ManagerView;

    closed spec fn view(&self) -> ManagerView {
        ManagerView {
            allocations: allocation_map(self.allocations@),
            reservations: reservation_map(self.reservations@),
        }
    }
}

impl<G: RelayAddressGenerator> Manager<G> {
    /// What the stored manager keeps to: no five-tuple and no token occurs
    /// twice, and every allocation in the table is well-formed and open.
    pub closed spec fn wf(&self) -> bool {
        &&& table_wf(self.allocations@)
        &&& distinct(reservation_keys(self.reservations@))
    }

    /// A well-formed manager has a well-formed view.
    pub proof fn lemma_wf(&self)
        requires
            self.wf(),
        ensures
            self@.wf(),
    {
        lemma_table_view(self.allocations@);
    }

    /// A manager without allocations and without reservations.
    pub fn new(config: ManagerConfig<G>) -> (manager: Manager<G>)
        ensures
            manager.wf(),
            manager@ == ManagerView::empty(),
    {
        let manager = Manager {
            allocations: Vec::new(),
            reservations: Vec::new(),
            relay_addr_generator: config.relay_addr_generator,
        };
        proof {
            assert(allocation_keys(manager.allocations@) =~= Seq::<FiveTuple>::empty());
            assert(allocation_views(manager.allocations@) =~= Seq::<AllocationView>::empty());
            assert(reservation_keys(manager.reservations@) =~= Seq::<Seq<char>>::empty());
            assert(reservation_values(manager.reservations@) =~= Seq::<Reservation>::empty());
            lemma_assoc_empty::<FiveTuple, AllocationView>();
            lemma_assoc_empty::<Seq<char>, Reservation>();
            assert(manager@ =~= ManagerView::empty());
        }
        manager
    }

    /// The allocation of `five_tuple`, if it has one.
    pub fn get_allocation(&self, five_tuple: &FiveTuple) -> (r: Option<&Allocation>)
        requires
            self.wf(),
        ensures
            match r {
                Some(allocation) => self@.get_allocation(*five_tuple) == Some(allocation@)
                    && allocation.wf(),
                None => self@.get_allocation(*five_tuple) is None,
            },
    {
        match find_allocation(&self.allocations, five_tuple) {
            Some(i) => Some(&self.allocations[i]),
            None => None,
        }
    }

    /// Whether an allocation for `five_tuple` with `lifetime` may be made:
    /// the tests that come before a relay address is asked for.
    pub fn check_admission(&self, five_tuple: &FiveTuple, lifetime: u64) -> (r: Result<(), Error>)
        requires
            self.wf(),
        ensures
            r == self@.admission(*five_tuple, lifetime),
    {
        if lifetime == 0 {
            return Err(Error::LifetimeZero);
        }
        if find_allocation(&self.allocations, five_tuple).is_some() {
            return Err(Error::DuplicateFiveTuple);
        }
        Ok(())
    }

    /// Ends a request for an allocation with the answer `granted` of the
    /// relay address generator: on an address the allocation is made, lives
    /// for `lifetime` from `now` and enters the table.
    pub fn install_allocation(
        &mut self,
        five_tuple: FiveTuple,
        granted: Result<SocketAddress, RelayFailure>,
        lifetime: u64,
        username: String,
        now: u64,
    ) -> (r: Result<&Allocation, Error>)
        requires
            old(self).wf(),
        ensures
            final(self).wf(),
            final(self)@ == old(self)@.install(five_tuple, granted, lifetime, username@, now),
            outcome(r) == old(self)@.install_result(five_tuple, granted, lifetime, username@, now),
            r matches Ok(allocation) ==> allocation.wf(),
    {
        match self.check_admission(&five_tuple, lifetime) {
            Err(e) => {
                return Err(e);
            },
            Ok(_) => {},
        }
        let relay_addr = match granted {
            Err(failure) => {
                return Err(Error::RelayAllocationFailed(failure));
            },
            Ok(relay_addr) => relay_addr,
        };
        let allocation = Allocation::new(five_tuple, username, relay_addr, lifetime, now);
        let ghost before = self.allocations@;
        self.allocations.push(allocation);
        proof {
            assert(allocation_keys(self.allocations@) =~= allocation_keys(before).push(five_tuple));
            assert(allocation_views(self.allocations@) =~= allocation_views(before).push(
                allocation@,
            ));
            lemma_assoc_push(
                allocation_keys(before),
                allocation_views(before),
                five_tuple,
                allocation@,
            );
            assert(self@ =~= old(self)@.install(five_tuple, granted, lifetime, username@, now));
        }
        let n = self.allocations.len();
        Ok(&self.allocations[n - 1])
    }

    /// Makes the allocation of `five_tuple` on a relay address that the
    /// generator hands out for an even port, or for `requested_port` where
    /// that is not zero.
    pub fn create_allocation(
        &mut self,
        five_tuple: FiveTuple,
        requested_port: u16,
        lifetime: u64,
        username: String,
        now: u64,
    ) -> (r: Result<&Allocation, Error>)
        requires
            old(self).wf(),
        ensures
            final(self).wf(),
            old(self)@.admission(five_tuple, lifetime) matches Err(e) ==> r == Err::<
                &Allocation,
                Error,
            >(e) && final(self)@ == old(self)@,
            exists|granted: Result<SocketAddress, RelayFailure>|
                honours(true, requested_port, granted) && final(self)@ == old(self)@.install(
                    five_tuple,
                    granted,
                    lifetime,
                    username@,
                    now,
                ) && outcome(r) == old(self)@.install_result(
                    five_tuple,
                    granted,
                    lifetime,
                    username@,
                    now,
                ),
            r matches Ok(allocation) ==> allocation.wf(),
    {
        match self.check_admission(&five_tuple, lifetime) {
            Err(e) => {
                proof {
                    let refused = Err::<SocketAddress, RelayFailure>(RelayFailure::PortInUse);
                    assert(honours(true, requested_port, refused));
                    assert(self@ == old(self)@.install(
                        five_tuple,
                        refused,
                        lifetime,
                        username@,
                        now,
                    ));
                }
                return Err(e);
            },
            Ok(_) => {},
        }
        let granted = self.relay_addr_generator.allocate_conn(true, requested_port);
        self.install_allocation(five_tuple, granted, lifetime, username, now)
    }

    /// Takes the allocation of `five_tuple` out of the table and closes it.
    /// Without such an allocation nothing happens.
    pub fn delete_allocation(&mut self, five_tuple: &FiveTuple) -> (r: Option<Allocation>)
        requires
            old(self).wf(),
        ensures
            final(self).wf(),
            final(self)@ == old(self)@.delete_allocation(*five_tuple),
            match r {
                Some(allocation) => old(self)@.allocations.contains_key(*five_tuple)
                    && allocation@ == old(self)@.allocations[*five_tuple].close()
                    && allocation.wf(),
                None => !old(self)@.allocations.contains_key(*five_tuple),
            },
    {
        match find_allocation(&self.allocations, five_tuple) {
            Some(i) => {
                let ghost before = self.allocations@;
                let mut allocation = self.allocations.remove(i);
                let _ = allocation.close();
                proof {
                    assert(allocation_keys(self.allocations@) =~= allocation_keys(before).remove(
                        i as int,
                    ));
                    assert(allocation_views(self.allocations@) =~= allocation_views(
                        before,
                    ).remove(i as int));
                    lemma_assoc_remove(
                        allocation_keys(before),
                        allocation_views(before),
                        i as int,
                    );
                    assert(self@ =~= old(self)@.delete_allocation(*five_tuple));
                }
                Some(allocation)
            },
            None => {
                proof {
                    assert(self@ =~= old(self)@.delete_allocation(*five_tuple));
                }
                None
            },
        }
    }
}

impl<G: RelayAddressGenerator> Manager<G> {
    /// Takes the allocations that `name` asked for out of the table and
    /// closes them. The others stay as they are.
    pub fn delete_allocations_by_username(&mut self, name: &str) -> (removed: Vec<Allocation>)
        requires
            old(self).wf(),
        ensures
            final(self).wf(),
            final(self)@ == old(self)@.delete_allocations_by_username(name@),
            handed_back(removed@, old(self)@.owned_by(name@)),
    {
        let name = name.to_owned();
        let removed = remove_selected(&mut self.allocations, Selector::Username(&name));
        proof {
            assert(self@ =~= old(self)@.delete_allocations_by_username(name@));
            assert(old(self)@.owned_by(name@) =~= Map::new(
                |k: FiveTuple|
                    old(self)@.allocations.contains_key(k) && selects(
                        Selector::Username(&name),
                        old(self)@.allocations[k],
                    ),
                |k: FiveTuple| old(self)@.allocations[k],
            ));
        }
        removed
    }

    /// Lets every timer fire that is due at `now`. The allocations whose
    /// deadline has come leave the table and come back closed.
    pub fn handle_timeout(&mut self, now: u64) -> (removed: Vec<Allocation>)
        requires
            old(self).wf(),
        ensures
            final(self).wf(),
            final(self)@ == old(self)@.handle_timeout(now),
            handed_back(removed@, old(self)@.expired(now)),
    {
        let removed = remove_selected(&mut self.allocations, Selector::Expired(now));
        let ghost kept = self.allocations@;
        expire_each(&mut self.allocations, now);
        expire_reservations(&mut self.reservations, now);
        proof {
            assert(old(self)@.expired(now) =~= Map::new(
                |k: FiveTuple|
                    old(self)@.allocations.contains_key(k) && selects(
                        Selector::Expired(now),
                        old(self)@.allocations[k],
                    ),
                |k: FiveTuple| old(self)@.allocations[k],
            ));
            let held = old(self)@.allocations;
            let left = allocation_map(self.allocations@);
            assert forall|k: FiveTuple| left.contains_key(k) <==> held.contains_key(k)
                && held[k].deadline > now by {
                assert(left.contains_key(k) <==> allocation_map(kept).contains_key(k));
            }
            assert forall|k: FiveTuple| left.contains_key(k) implies left[k] == held[k].expire(
                now,
            ) by {
                assert(allocation_map(kept).contains_key(k));
                lemma_assoc_key(allocation_keys(kept), allocation_views(kept), k);
                lemma_assoc_key(
                    allocation_keys(self.allocations@),
                    allocation_views(self.allocations@),
                    k,
                );
            }
            assert(self@.allocations =~= old(self)@.handle_timeout(now).allocations);
            assert(self@ =~= old(self)@.handle_timeout(now));
        }
        removed
    }

    /// Holds `port` back under `reservation_token` for 30 seconds from `now`.
    /// What the token stood for before is forgotten.
    pub fn create_reservation(&mut self, reservation_token: String, port: u16, now: u64)
        requires
            old(self).wf(),
        ensures
            final(self).wf(),
            final(self)@ == old(self)@.create_reservation(reservation_token@, port, now),
    {
        let reservation = Reservation { port, deadline: deadline(now, RESERVATION_LIFETIME) };
        let ghost before = self.reservations@;
        let ghost token = reservation_token@;
        match find_reservation(&self.reservations, &reservation_token) {
            Some(i) => {
                self.reservations.set(i, ReservationEntry { token: reservation_token, reservation });
                proof {
                    assert(reservation_keys(self.reservations@) =~= reservation_keys(before));
                    assert(reservation_values(self.reservations@) =~= reservation_values(
                        before,
                    ).update(i as int, reservation));
                    lemma_assoc_update(
                        reservation_keys(before),
                        reservation_values(before),
                        i as int,
                        reservation,
                    );
                }
            },
            None => {
                self.reservations.push(ReservationEntry { token: reservation_token, reservation });
                proof {
                    assert(reservation_keys(self.reservations@) =~= reservation_keys(before).push(
                        token,
                    ));
                    assert(reservation_values(self.reservations@) =~= reservation_values(
                        before,
                    ).push(reservation));
                    lemma_assoc_push(
                        reservation_keys(before),
                        reservation_values(before),
                        token,
                        reservation,
                    );
                }
            },
        }
        proof {
            assert(self@ =~= old(self)@.create_reservation(token, port, now));
        }
    }

    /// The port held back under `reservation_token`, if there is one.
    pub fn get_reservation(&self, reservation_token: &str) -> (port: Option<u16>)
        requires
            self.wf(),
        ensures
            port == self@.get_reservation(reservation_token@),
    {
        let token = reservation_token.to_owned();
        match find_reservation(&self.reservations, &token) {
            Some(i) => Some(self.reservations[i].reservation.port),
            None => None,
        }
    }

    /// Asks the relay address generator for an even port and names it. The
    /// table does not change: the port is a sample, and whoever holds the
    /// generator's socket releases it.
    pub fn get_random_even_port(&mut self) -> (r: Result<u16, Error>)
        ensures
            old(self).wf() ==> final(self).wf(),
            final(self)@ == old(self)@,
            exists|granted: Result<SocketAddress, RelayFailure>|
                honours(true, 0, granted) && r == sampled_port(granted),
            r matches Ok(port) ==> port % 2 == 0,
    {
        let granted = self.relay_addr_generator.allocate_conn(true, 0);
        sample_port(granted)
    }

    /// The number of allocations in the table.
    pub fn allocation_count(&self) -> (n: usize)
        requires
            self.wf(),
        ensures
            self@.allocations.dom().finite(),
            n == self@.allocations.dom().len(),
    {
        proof {
            lemma_assoc_len(allocation_keys(self.allocations@), allocation_views(self.allocations@));
        }
        self.allocations.len()
    }

    /// Extends the life of the allocation of `five_tuple` to `lifetime` from
    /// `now`.
    pub fn refresh_allocation(&mut self, five_tuple: &FiveTuple, lifetime: u64, now: u64) -> (r:
        Result<(), Error>)
        requires
            old(self).wf(),
        ensures
            final(self).wf(),
            match old(self)@.get_allocation(*five_tuple) {
                Some(allocation) => r == Ok::<(), Error>(()) && final(self)@ == old(self)@.replace(
                    allocation.refresh(lifetime, now),
                ),
                None => r == Err::<(), Error>(Error::NoAllocationFound) && final(self)@ == old(
                    self,
                )@,
            },
    {
        match find_allocation(&self.allocations, five_tuple) {
            Some(i) => {
                let ghost before = self.allocations@;
                let mut allocation = self.allocations.remove(i);
                let r = allocation.refresh(lifetime, now);
                let ghost after = allocation@;
                self.allocations.insert(i, allocation);
                proof {
                    lemma_replaced(before, self.allocations@, i as int);
                    assert(self@ =~= old(self)@.replace(after));
                }
                r
            },
            None => Err(Error::NoAllocationFound),
        }
    }

    /// Installs or prolongs the permission of `peer_ip` on the allocation of
    /// `five_tuple`.
    pub fn add_permission(&mut self, five_tuple: &FiveTuple, peer_ip: IpAddress, now: u64) -> (r:
        Result<(), Error>)
        requires
            old(self).wf(),
        ensures
            final(self).wf(),
            match old(self)@.get_allocation(*five_tuple) {
                Some(allocation) => r == Ok::<(), Error>(()) && final(self)@ == old(self)@.replace(
                    allocation.add_permission(peer_ip, now),
                ),
                None => r == Err::<(), Error>(Error::NoAllocationFound) && final(self)@ == old(
                    self,
                )@,
            },
    {
        match find_allocation(&self.allocations, five_tuple) {
            Some(i) => {
                let ghost before = self.allocations@;
                let mut allocation = self.allocations.remove(i);
                let r = allocation.add_permission(peer_ip, now);
                let ghost after = allocation@;
                self.allocations.insert(i, allocation);
                proof {
                    lemma_replaced(before, self.allocations@, i as int);
                    assert(self@ =~= old(self)@.replace(after));
                }
                r
            },
            None => Err(Error::NoAllocationFound),
        }
    }

    /// Binds `number` to `peer` on the allocation of `five_tuple`, or
    /// prolongs that binding.
    pub fn add_channel_bind(
        &mut self,
        five_tuple: &FiveTuple,
        number: u16,
        peer: SocketAddress,
        lifetime: u64,
        now: u64,
    ) -> (r: Result<(), Error>)
        requires
            old(self).wf(),
        ensures
            final(self).wf(),
            match old(self)@.get_allocation(*five_tuple) {
                Some(allocation) => r == allocation.bind_result(number, peer) && final(self)@
                    == old(self)@.replace(
                    allocation.add_channel_bind(number, peer, lifetime, now),
                ),
                None => r == Err::<(), Error>(Error::NoAllocationFound) && final(self)@ == old(
                    self,
                )@,
            },
    {
        match find_allocation(&self.allocations, five_tuple) {
            Some(i) => {
                let ghost before = self.allocations@;
                let mut allocation = self.allocations.remove(i);
                let r = allocation.add_channel_bind(number, peer, lifetime, now);
                let ghost after = allocation@;
                self.allocations.insert(i, allocation);
                proof {
                    lemma_replaced(before, self.allocations@, i as int);
                    assert(self@ =~= old(self)@.replace(after));
                }
                r
            },
            None => Err(Error::NoAllocationFound),
        }
    }

    /// Closes every allocation and empties the table.
    pub fn close(&mut self) -> (removed: Vec<Allocation>)
        requires
            old(self).wf(),
        ensures
            final(self).wf(),
            final(self)@ == old(self)@.close(),
            handed_back(removed@, old(self)@.allocations),
    {
        let removed = remove_selected(&mut self.allocations, Selector::All);
        proof {
            assert(self@ =~= old(self)@.close());
            assert(old(self)@.allocations =~= Map::new(
                |k: FiveTuple|
                    old(self)@.allocations.contains_key(k) && selects(
                        Selector::All,
                        old(self)@.allocations[k],
                    ),
                |k: FiveTuple| old(self)@.allocations[k],
            ));
        }
        removed
    }
}

} // verus!
