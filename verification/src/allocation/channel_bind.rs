use crate::addr::SocketAddress;
use crate::table::{assoc, distinct, lemma_assoc_absent, lemma_assoc_at, lemma_assoc_key,
    lemma_assoc_push, lemma_assoc_remove, lemma_assoc_update};
use vstd::prelude::*;

verus! {

/// The least channel number that can be bound.
pub const MIN_CHANNEL_NUMBER: u16 = 0x4000;

/// The greatest channel number that can be bound.
pub const MAX_CHANNEL_NUMBER: u16 = 0x7FFF;

/// Whether `number` can be bound: it lies in 0x4000..=0x7FFF.
pub open spec fn valid_channel_number(number: u16) -> bool {
    0x4000 <= number <= 0x7FFF
}

pub fn is_valid_channel_number(number: u16) -> (valid: bool)
    ensures
        valid == valid_channel_number(number),
{
    MIN_CHANNEL_NUMBER <= number && number <= MAX_CHANNEL_NUMBER
}

/// A channel number that stands for a peer address, until `deadline`.
#[derive(Clone, Copy, Debug, PartialEq, Eq, Structural)]
pub struct ChannelBind {
    pub number: u16,
    pub peer: SocketAddress,
    pub deadline: u64,
}

/// The channel numbers of a list of bindings, in its order.
pub open spec fn channel_keys(s: Seq<ChannelBind>) -> Seq<u16> {
    Seq::new(s.len(), |i: int| s[i].number)
}

/// The channel bindings of a list, by channel number.
pub open spec fn channel_map(s: Seq<ChannelBind>) -> Map<u16, ChannelBind> {
    assoc(channel_keys(s), s)
}

/// Every binding stands under its own channel number.
pub open spec fn channels_keyed(m: Map<u16, ChannelBind>) -> bool {
    forall|n: u16| #[trigger] m.contains_key(n) ==> m[n].number == n
}

/// No peer address has two channel numbers.
pub open spec fn peers_unique(m: Map<u16, ChannelBind>) -> bool {
    forall|n1: u16, n2: u16|
        #[trigger] m.contains_key(n1) && #[trigger] m.contains_key(n2) && n1 != n2 ==> m[n1].peer
            != m[n2].peer
}

/// Whether `number` is the channel number of `peer` in `m`.
pub open spec fn binds(m: Map<u16, ChannelBind>, number: u16, peer: SocketAddress) -> bool {
    m.contains_key(number) && m[number].peer == peer
}

/// Whether `peer` has a channel number in `m`.
pub open spec fn peer_bound(m: Map<u16, ChannelBind>, peer: SocketAddress) -> bool {
    exists|n: u16| binds(m, n, peer)
}

/// The channel number of `peer` in `m`, where it has one.
pub open spec fn channel_of(m: Map<u16, ChannelBind>, peer: SocketAddress) -> u16 {
    choose|n: u16| binds(m, n, peer)
}

/// The bindings of `m` whose deadline lies after `now`.
pub open spec fn live_channels(m: Map<u16, ChannelBind>, now: u64) -> Map<u16, ChannelBind> {
    Map::new(|n: u16| m.contains_key(n) && m[n].deadline > now, |n: u16| m[n])
}

pub proof fn lemma_channel_map_keyed(s: Seq<ChannelBind>)
    ensures
        channels_keyed(channel_map(s)),
{
    assert forall|n: u16| #[trigger] channel_map(s).contains_key(n) implies channel_map(
        s,
    )[n].number == n by {
        lemma_assoc_key(channel_keys(s), s, n);
    }
}

pub(crate) fn find_channel(v: &Vec<ChannelBind>, number: u16) -> (r: Option<usize>)
    requires
        distinct(channel_keys(v@)),
    ensures
        match r {
            Some(i) => i < v@.len() && v@[i as int].number == number && channel_map(
                v@,
            ).contains_key(number) && channel_map(v@)[number] == v@[i as int],
            None => !channel_map(v@).contains_key(number),
        },
{
    let mut i: usize = 0;
    while i < v.len()
        invariant
            i <= v@.len(),
            distinct(channel_keys(v@)),
            forall|j: int| 0 <= j < i ==> v@[j].number != number,
        decreases v@.len() - i,
    {
        if v[i].number == number {
            proof {
                lemma_assoc_at(channel_keys(v@), v@, i as int);
            }
            return Some(i);
        }
        i += 1;
    }
    proof {
        lemma_assoc_absent(channel_keys(v@), v@, number);
    }
    None
}

pub(crate) fn find_peer(v: &Vec<ChannelBind>, peer: SocketAddress) -> (r: Option<usize>)
    requires
        distinct(channel_keys(v@)),
    ensures
        match r {
            Some(i) => i < v@.len() && v@[i as int].peer == peer && binds(
                channel_map(v@),
                v@[i as int].number,
                peer,
            ) && channel_map(v@)[v@[i as int].number] == v@[i as int],
            None => !peer_bound(channel_map(v@), peer),
        },
{
    let mut i: usize = 0;
    while i < v.len()
        invariant
            i <= v@.len(),
            distinct(channel_keys(v@)),
            forall|j: int| 0 <= j < i ==> v@[j].peer != peer,
        decreases v@.len() - i,
    {
        if v[i].peer == peer {
            proof {
                lemma_assoc_at(channel_keys(v@), v@, i as int);
            }
            return Some(i);
        }
        i += 1;
    }
    proof {
        assert forall|n: u16| !binds(channel_map(v@), n, peer) by {
            if channel_map(v@).contains_key(n) {
                lemma_assoc_key(channel_keys(v@), v@, n);
            }
        }
    }
    None
}

/// Binds `number` to `peer` until `deadline`, in place of what `number` stood
/// for.
pub(crate) fn bind_channel(
    v: &mut Vec<ChannelBind>,
    number: u16,
    peer: SocketAddress,
    deadline: u64,
)
    requires
        distinct(channel_keys(old(v)@)),
    ensures
        distinct(channel_keys(final(v)@)),
        channel_map(final(v)@) == channel_map(old(v)@).insert(
            number,
            ChannelBind { number, peer, deadline },
        ),
{
    let bind = ChannelBind { number, peer, deadline };
    let ghost before = v@;
    match find_channel(v, number) {
        Some(i) => {
            v.set(i, bind);
            proof {
                assert(channel_keys(v@) =~= channel_keys(before));
                lemma_assoc_update(channel_keys(before), before, i as int, bind);
            }
        },
        None => {
            v.push(bind);
            proof {
                assert(channel_keys(v@) =~= channel_keys(before).push(number));
                lemma_assoc_push(channel_keys(before), before, number, bind);
            }
        },
    }
}

/// Drops the bindings whose deadline has come.
pub(crate) fn expire_channels(v: &mut Vec<ChannelBind>, now: u64)
    requires
        distinct(channel_keys(old(v)@)),
    ensures
        distinct(channel_keys(final(v)@)),
        channel_map(final(v)@) == live_channels(channel_map(old(v)@), now),
{
    let ghost held = channel_map(v@);
    let mut i: usize = 0;
    while i < v.len()
        invariant
            i <= v@.len(),
            distinct(channel_keys(v@)),
            forall|j: int| 0 <= j < i ==> v@[j].deadline > now,
            forall|n: u16| #[trigger]
                channel_map(v@).contains_key(n) ==> held.contains_key(n) && held[n] == channel_map(
                    v@,
                )[n],
            forall|n: u16| #[trigger]
                held.contains_key(n) && held[n].deadline > now ==> channel_map(v@).contains_key(n),
        decreases v@.len() - i,
    {
        if v[i].deadline <= now {
            let ghost before = v@;
            proof {
                lemma_assoc_at(channel_keys(before), before, i as int);
            }
            v.remove(i);
            proof {
                assert(channel_keys(v@) =~= channel_keys(before).remove(i as int));
                lemma_assoc_remove(channel_keys(before), before, i as int);
                assert forall|n: u16| #[trigger]
                    channel_map(v@).contains_key(n) implies held.contains_key(n) && held[n]
                    == channel_map(v@)[n] by {
                    assert(channel_map(before).contains_key(n));
                }
                assert forall|n: u16| #[trigger]
                    held.contains_key(n) && held[n].deadline > now implies channel_map(
                    v@,
                ).contains_key(n) by {
                    assert(channel_map(before).contains_key(n));
                }
            }
        } else {
            i += 1;
        }
    }
    proof {
        assert forall|n: u16| #[trigger] channel_map(v@).contains_key(n) implies held[n].deadline
            > now by {
            lemma_assoc_key(channel_keys(v@), v@, n);
        }
        assert(channel_map(v@) =~= live_channels(held, now));
    }
}

} // verus!
