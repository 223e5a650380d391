use crate::addr::IpAddress;
use crate::proto::lifetime::later;
use crate::table::{assoc, distinct, lemma_assoc_at, lemma_assoc_key, lemma_assoc_push,
    lemma_assoc_remove, lemma_assoc_update, lemma_assoc_absent, lemma_assoc_empty};
use vstd::prelude::*;

verus! {

/// The leave for one peer IP address to reach the relay, until `deadline`.
#[derive(Clone, Copy, Debug, PartialEq, Eq, Structural)]
pub struct Permission {
    pub peer_ip: IpAddress,
    pub deadline: u64,
}

/// The peer IP addresses of a list of permissions, in its order.
pub open spec fn permission_keys(s: Seq<Permission>) -> Seq<IpAddress> {
    Seq::new(s.len(), |i: int| s[i].peer_ip)
}

/// The permissions of a list, by peer IP address.
pub open spec fn permission_map(s: Seq<Permission>) -> Map<IpAddress, Permission> {
    assoc(permission_keys(s), s)
}

/// Every permission stands under its own peer IP address.
pub open spec fn permissions_keyed(m: Map<IpAddress, Permission>) -> bool {
    forall|ip: IpAddress| #[trigger] m.contains_key(ip) ==> m[ip].peer_ip == ip
}

/// `m` with a permission for `ip` that lasts until `until` at least, and as
/// long as the one that `m` held.
pub open spec fn grant(m: Map<IpAddress, Permission>, ip: IpAddress, until: u64) -> Map<
    IpAddress,
    Permission,
> {
    let deadline = if m.contains_key(ip) {
        later(m[ip].deadline, until)
    } else {
        until
    };
    m.insert(ip, Permission { peer_ip: ip, deadline })
}

/// The permissions of `m` whose deadline lies after `now`.
pub open spec fn live_permissions(m: Map<IpAddress, Permission>, now: u64) -> Map<
    IpAddress,
    Permission,
> {
    Map::new(|ip: IpAddress| m.contains_key(ip) && m[ip].deadline > now, |ip: IpAddress| m[ip])
}

pub proof fn lemma_permission_map_keyed(s: Seq<Permission>)
    ensures
        permissions_keyed(permission_map(s)),
{
    assert forall|ip: IpAddress| #[trigger]
        permission_map(s).contains_key(ip) implies permission_map(s)[ip].peer_ip == ip by {
        lemma_assoc_key(permission_keys(s), s, ip);
    }
}

pub(crate) fn find_permission(v: &Vec<Permission>, ip: IpAddress) -> (r: Option<usize>)
    requires
        distinct(permission_keys(v@)),
    ensures
        match r {
            Some(i) => i < v@.len() && v@[i as int].peer_ip == ip && permission_map(
                v@,
            ).contains_key(ip) && permission_map(v@)[ip] == v@[i as int],
            None => !permission_map(v@).contains_key(ip),
        },
{
    let mut i: usize = 0;
    while i < v.len()
        invariant
            i <= v@.len(),
            distinct(permission_keys(v@)),
            forall|j: int| 0 <= j < i ==> v@[j].peer_ip != ip,
        decreases v@.len() - i,
    {
        if v[i].peer_ip == ip {
            proof {
                lemma_assoc_at(permission_keys(v@), v@, i as int);
            }
            return Some(i);
        }
        i += 1;
    }
    proof {
        lemma_assoc_absent(permission_keys(v@), v@, ip);
    }
    None
}

/// Installs a permission for `ip`, or prolongs the one that is there.
pub(crate) fn grant_permission(v: &mut Vec<Permission>, ip: IpAddress, until: u64)
    requires
        distinct(permission_keys(old(v)@)),
    ensures
        distinct(permission_keys(final(v)@)),
        permission_map(final(v)@) == grant(permission_map(old(v)@), ip, until),
{
    match find_permission(v, ip) {
        Some(i) => {
            let held = v[i].deadline;
            let deadline = if held >= until {
                held
            } else {
                until
            };
            let ghost before = v@;
            v.set(i, Permission { peer_ip: ip, deadline });
            proof {
                assert(permission_keys(v@) =~= permission_keys(before));
                lemma_assoc_update(
                    permission_keys(before),
                    before,
                    i as int,
                    Permission { peer_ip: ip, deadline },
                );
            }
        },
        None => {
            let ghost before = v@;
            v.push(Permission { peer_ip: ip, deadline: until });
            proof {
                assert(permission_keys(v@) =~= permission_keys(before).push(ip));
                lemma_assoc_push(
                    permission_keys(before),
                    before,
                    ip,
                    Permission { peer_ip: ip, deadline: until },
                );
            }
        },
    }
}

/// Drops the permissions whose deadline has come.
pub(crate) fn expire_permissions(v: &mut Vec<Permission>, now: u64)
    requires
        distinct(permission_keys(old(v)@)),
    ensures
        distinct(permission_keys(final(v)@)),
        permission_map(final(v)@) == live_permissions(permission_map(old(v)@), now),
{
    let ghost held = permission_map(v@);
    let mut i: usize = 0;
    while i < v.len()
        invariant
            i <= v@.len(),
            distinct(permission_keys(v@)),
            forall|j: int| 0 <= j < i ==> v@[j].deadline > now,
            forall|ip: IpAddress| #[trigger]
                permission_map(v@).contains_key(ip) ==> held.contains_key(ip) && held[ip]
                    == permission_map(v@)[ip],
            forall|ip: IpAddress| #[trigger]
                held.contains_key(ip) && held[ip].deadline > now ==> permission_map(
                    v@,
                ).contains_key(ip),
        decreases v@.len() - i,
    {
        if v[i].deadline <= now {
            let ghost before = v@;
            proof {
                lemma_assoc_at(permission_keys(before), before, i as int);
            }
            v.remove(i);
            proof {
                assert(permission_keys(v@) =~= permission_keys(before).remove(i as int));
                lemma_assoc_remove(permission_keys(before), before, i as int);
                assert forall|ip: IpAddress| #[trigger]
                    permission_map(v@).contains_key(ip) implies held.contains_key(ip) && held[ip]
                    == permission_map(v@)[ip] by {
                    assert(permission_map(before).contains_key(ip));
                }
                assert forall|ip: IpAddress| #[trigger]
                    held.contains_key(ip) && held[ip].deadline > now implies permission_map(
                    v@,
                ).contains_key(ip) by {
                    assert(permission_map(before).contains_key(ip));
                }
            }
        } else {
            i += 1;
        }
    }
    proof {
        assert forall|ip: IpAddress| #[trigger]
            permission_map(v@).contains_key(ip) implies held[ip].deadline > now by {
            lemma_assoc_key(permission_keys(v@), v@, ip);
        }
        assert(permission_map(v@) =~= live_permissions(held, now));
    }
}

} // verus!
