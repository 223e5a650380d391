//! What holds of a manager over whole histories, stated over its view.

use crate::addr::SocketAddress;
use crate::allocation::allocation_manager::{allocation_keys, allocation_map, allocation_views,
    closed_map, handed_back, ManagerView};
use crate::allocation::five_tuple::FiveTuple;
use crate::allocation::{Allocation, AllocationView};
use crate::error::{Error, RelayFailure};
use crate::proto::lifetime::{deadline_after, RESERVATION_LIFETIME};
use crate::table::{lemma_assoc_at, lemma_assoc_key, position};
use vstd::prelude::*;

verus! {

/// One request for an allocation, with the answer that the relay address
/// generator gave or would have given.
pub struct CreateRequest {
    pub five_tuple: FiveTuple,
    pub granted: Result<SocketAddress, RelayFailure>,
    pub lifetime: u64,
    pub username: Seq<char>,
    pub now: u64,
}

/// The manager after `request`.
pub open spec fn after_request(m: ManagerView, request: CreateRequest) -> ManagerView {
    m.install(
        request.five_tuple,
        request.granted,
        request.lifetime,
        request.username,
        request.now,
    )
}

/// Whether `request` succeeds on `m`.
pub open spec fn succeeds(m: ManagerView, request: CreateRequest) -> bool {
    m.install_result(
        request.five_tuple,
        request.granted,
        request.lifetime,
        request.username,
        request.now,
    ) is Ok
}

/// The manager after the first `n` of `requests`, one after the other.
pub open spec fn after_requests(m: ManagerView, requests: Seq<CreateRequest>, n: nat) -> ManagerView
    decreases n,
{
    if n == 0 {
        m
    } else {
        after_request(after_requests(m, requests, (n - 1) as nat), requests[n - 1])
    }
}

/// Requests for allocations take no allocation out of the table.
pub proof fn lemma_requests_keep(
    m: ManagerView,
    requests: Seq<CreateRequest>,
    a: nat,
    b: nat,
    five_tuple: FiveTuple,
)
    requires
        a <= b,
        after_requests(m, requests, a).allocations.contains_key(five_tuple),
    ensures
        after_requests(m, requests, b).allocations.contains_key(five_tuple),
    decreases b,
{
    if a < b {
        lemma_requests_keep(m, requests, a, (b - 1) as nat, five_tuple);
    }
}

/// In a run of requests for allocations, at most one with a given five-tuple
/// succeeds: once request `i` has succeeded, a later request `j` for the same
/// five-tuple fails, and leaves the table as it was.
pub proof fn lemma_at_most_one_succeeds(
    m: ManagerView,
    requests: Seq<CreateRequest>,
    i: nat,
    j: nat,
)
    requires
        i < j < requests.len(),
        requests[i as int].five_tuple == requests[j as int].five_tuple,
        succeeds(after_requests(m, requests, i), requests[i as int]),
    ensures
        !succeeds(after_requests(m, requests, j), requests[j as int]),
        after_requests(m, requests, j + 1) == after_requests(m, requests, j),
        requests[j as int].lifetime != 0 ==> after_requests(m, requests, j).install_result(
            requests[j as int].five_tuple,
            requests[j as int].granted,
            requests[j as int].lifetime,
            requests[j as int].username,
            requests[j as int].now,
        ) == Err::<AllocationView, Error>(Error::DuplicateFiveTuple),
{
    let k = requests[i as int].five_tuple;
    assert(after_requests(m, requests, i + 1).allocations.contains_key(k));
    lemma_requests_keep(m, requests, i + 1, j, k);
}

/// While a five-tuple has an allocation, every request for one fails and
/// changes nothing.
pub proof fn lemma_held_five_tuple_refused(m: ManagerView, request: CreateRequest)
    requires
        m.allocations.contains_key(request.five_tuple),
    ensures
        !succeeds(m, request),
        after_request(m, request) == m,
{
}

/// Right after a request has succeeded, its five-tuple finds the allocation
/// that the request returned.
pub proof fn lemma_created_is_found(m: ManagerView, request: CreateRequest)
    requires
        succeeds(m, request),
    ensures
        after_request(m, request).get_allocation(request.five_tuple) == Some(
            m.install_result(
                request.five_tuple,
                request.granted,
                request.lifetime,
                request.username,
                request.now,
            )->Ok_0,
        ),
{
}

/// An allocation made at `now` with `lifetime` is out of the table once the
/// timers due at `later`, no earlier than `now + lifetime`, have fired; it is
/// among those handed back, closed, so that closing it again is an error.
pub proof fn lemma_allocation_expires(m: ManagerView, request: CreateRequest, later: u64)
    requires
        succeeds(m, request),
        later >= request.now + request.lifetime,
    ensures
        after_request(m, request).expired(later).contains_key(request.five_tuple),
        after_request(m, request).handle_timeout(later).get_allocation(request.five_tuple) is None,
        closed_map(after_request(m, request).expired(later))[request.five_tuple].close_result()
            == Err::<(), Error>(Error::AllocationClosed),
{
}

/// Before its deadline no timer takes an allocation out of the table.
pub proof fn lemma_allocation_lives(m: ManagerView, request: CreateRequest, later: u64)
    requires
        succeeds(m, request),
        later < deadline_after(request.now, request.lifetime),
    ensures
        after_request(m, request).handle_timeout(later).allocations.contains_key(
            request.five_tuple,
        ),
{
}

/// After the manager was closed no five-tuple has an allocation, and every
/// allocation that it held is handed back closed: closing it again is an
/// error.
pub proof fn lemma_close_closes_all(m: ManagerView, five_tuple: FiveTuple)
    ensures
        m.close().get_allocation(five_tuple) is None,
        m.allocations.contains_key(five_tuple) ==> closed_map(m.allocations).contains_key(
            five_tuple,
        ) && closed_map(m.allocations)[five_tuple].close_result() == Err::<(), Error>(
            Error::AllocationClosed,
        ),
{
}

/// Of a list of allocations that were handed back: each is one that was
/// held, closed, and closing it again is an error.
pub proof fn lemma_handed_back_closed(
    removed: Seq<Allocation>,
    held: Map<FiveTuple, AllocationView>,
    i: int,
)
    requires
        handed_back(removed, held),
        0 <= i < removed.len(),
    ensures
        held.contains_key(removed[i]@.five_tuple),
        removed[i]@ == held[removed[i]@.five_tuple].close(),
        removed[i]@.close_result() == Err::<(), Error>(Error::AllocationClosed),
{
    lemma_assoc_at(allocation_keys(removed), allocation_views(removed), i);
    assert(closed_map(held).contains_key(removed[i]@.five_tuple));
}

/// Of a list of allocations that were handed back: each one that was held is
/// in it.
pub proof fn lemma_handed_back_all(
    removed: Seq<Allocation>,
    held: Map<FiveTuple, AllocationView>,
    five_tuple: FiveTuple,
)
    requires
        handed_back(removed, held),
        held.contains_key(five_tuple),
    ensures
        0 <= position(allocation_keys(removed), five_tuple) < removed.len(),
        removed[position(allocation_keys(removed), five_tuple)]@ == held[five_tuple].close(),
{
    assert(closed_map(held).contains_key(five_tuple));
    lemma_assoc_key(allocation_keys(removed), allocation_views(removed), five_tuple);
}

/// After the allocations of `name` were deleted, every allocation that is
/// left belongs to another user, every one that `name` had is gone, and the
/// others are as they were.
pub proof fn lemma_username_partition(m: ManagerView, name: Seq<char>, five_tuple: FiveTuple)
    ensures
        m.delete_allocations_by_username(name).allocations.contains_key(five_tuple)
            ==> m.delete_allocations_by_username(name).allocations[five_tuple].username != name,
        m.allocations.contains_key(five_tuple) && m.allocations[five_tuple].username == name
            ==> m.delete_allocations_by_username(name).get_allocation(five_tuple) is None
            && m.owned_by(name).contains_key(five_tuple),
        m.allocations.contains_key(five_tuple) && m.allocations[five_tuple].username != name
            ==> m.delete_allocations_by_username(name).get_allocation(five_tuple) == Some(
            m.allocations[five_tuple],
        ),
{
}

/// A reservation made at `now` is gone once the timers due at `later`, no
/// earlier than 30 seconds after `now`, have fired.
pub proof fn lemma_reservation_expires(
    m: ManagerView,
    token: Seq<char>,
    port: u16,
    now: u64,
    later: u64,
)
    requires
        later >= now + RESERVATION_LIFETIME,
    ensures
        m.create_reservation(token, port, now).handle_timeout(later).get_reservation(token) is None,
{
}

/// Until then the token finds the port.
pub proof fn lemma_reservation_lives(
    m: ManagerView,
    token: Seq<char>,
    port: u16,
    now: u64,
    later: u64,
)
    requires
        later < deadline_after(now, RESERVATION_LIFETIME),
    ensures
        m.create_reservation(token, port, now).get_reservation(token) == Some(port),
        m.create_reservation(token, port, now).handle_timeout(later).get_reservation(token) == Some(
            port,
        ),
{
}

/// Once its allocation was deleted, a five-tuple can get a new one.
pub proof fn lemma_free_after_delete(m: ManagerView, request: CreateRequest)
    requires
        request.lifetime != 0,
        request.granted is Ok,
    ensures
        succeeds(m.delete_allocation(request.five_tuple), request),
{
}

/// Once its allocation has run out, a five-tuple can get a new one.
pub proof fn lemma_free_after_expiry(m: ManagerView, request: CreateRequest, later: u64)
    requires
        m.allocations.contains_key(request.five_tuple),
        m.allocations[request.five_tuple].deadline <= later,
        request.lifetime != 0,
        request.granted is Ok,
    ensures
        succeeds(m.handle_timeout(later), request),
{
}

/// Once the manager was closed, every five-tuple can get a new allocation.
pub proof fn lemma_free_after_close(m: ManagerView, request: CreateRequest)
    requires
        request.lifetime != 0,
        request.granted is Ok,
    ensures
        succeeds(m.close(), request),
{
}

/// Deleting twice is deleting once.
pub proof fn lemma_delete_twice(m: ManagerView, five_tuple: FiveTuple)
    ensures
        m.delete_allocation(five_tuple).delete_allocation(five_tuple) == m.delete_allocation(
            five_tuple,
        ),
        m.delete_allocation(five_tuple).get_allocation(five_tuple) is None,
{
    assert(m.delete_allocation(five_tuple).delete_allocation(five_tuple) =~= m.delete_allocation(
        five_tuple,
    ));
}

} // verus!
