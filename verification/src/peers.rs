//! The peers that a node may push to and pull from: those that its table
//! knows and its ping cache finds verified.

use crate::crds::{Crds, CrdsEntry};
use crate::crds_data::{ContactInfo, CrdsData};
use crate::identity::Pubkey;
use crate::ping_pong::{
    checked_entry, entry_of, entry_state, sends_ping, with_entry, LivenessState, Ping, PingCache,
    PingEntry,
};
use crate::sampling::{draw, draw_at, stake_weight, weight_of};
use crate::stakes::StakeMap;
use vstd::prelude::*;

verus! {

/// Whether a record tells how to reach a node other than `self_pubkey`.
pub open spec fn is_peer_info(entry: CrdsEntry, self_pubkey: Pubkey) -> bool {
    entry.value.spec_data() is ContactInfo && entry.value.spec_pubkey() != self_pubkey
}

/// The contact infos of the other nodes among the first `n` records.
pub open spec fn peer_infos(
    records: Seq<CrdsEntry>,
    self_pubkey: Pubkey,
    n: nat,
) -> Seq<ContactInfo>
    decreases n,
{
    if n == 0 {
        Seq::empty()
    } else if is_peer_info(records[n - 1], self_pubkey) {
        peer_infos(records, self_pubkey, (n - 1) as nat).push(
            records[n - 1].value.spec_data()->ContactInfo_0,
        )
    } else {
        peer_infos(records, self_pubkey, (n - 1) as nat)
    }
}

/// The contact infos that the table holds of nodes other than
/// `self_pubkey`, in the order in which the table took them.
pub fn gossip_nodes(crds: &Crds, self_pubkey: &Pubkey) -> (nodes: Vec<ContactInfo>)
    ensures
        nodes@ == peer_infos(crds.records(), *self_pubkey, crds.records().len()),
{
    let mut nodes: Vec<ContactInfo> = Vec::new();
    let mut i: usize = 0;
    while i < crds.len()
        invariant
            i <= crds.records().len(),
            nodes@ == peer_infos(crds.records(), *self_pubkey, i as nat),
        decreases crds.records().len() - i,
    {
        let entry = crds.entry(i);
        match entry.value.data() {
            CrdsData::ContactInfo(info) => {
                if !info.pubkey.same(self_pubkey) {
                    nodes.push(info);
                }
            },
            _ => {},
        }
        i += 1;
    }
    nodes
}

/// What checking a list of nodes leaves: the entries of the cache, the nodes
/// found verified, and the challenges to send.
pub struct Checked {
    pub entries: Seq<PingEntry>,
    pub live: Seq<ContactInfo>,
    pub pings: Seq<Ping>,
}

/// The outcome of checking the first `n` of `nodes` in turn at time `now`,
/// the `i`-th with the `i`-th draw of `seed` for its challenge.
pub open spec fn check_peers(
    entries: Seq<PingEntry>,
    nodes: Seq<ContactInfo>,
    now: u64,
    ttl: u64,
    delay: u64,
    capacity: usize,
    seed: u64,
    n: nat,
) -> Checked
    decreases n,
{
    if n == 0 {
        Checked { entries, live: Seq::empty(), pings: Seq::empty() }
    } else {
        let prev = check_peers(entries, nodes, now, ttl, delay, capacity, seed, (n - 1) as nat);
        let info = nodes[n - 1];
        let entry = entry_of(prev.entries, info.pubkey, info.gossip);
        let nonce = draw(seed, (n - 1) as nat);
        Checked {
            entries: with_entry(
                prev.entries,
                checked_entry(entry, now, ttl, delay, nonce),
                capacity,
            ),
            live: if entry_state(entry, now, ttl) == LivenessState::Verified {
                prev.live.push(info)
            } else {
                prev.live
            },
            pings: if sends_ping(entry, now, ttl, delay) {
                prev.pings.push(Ping { node: info.pubkey, addr: info.gossip, nonce })
            } else {
                prev.pings
            },
        }
    }
}

/// Checks each of `nodes` against the cache at time `now`. Returns the nodes
/// that are verified, and the challenges to send to the others and to those
/// whose answer is getting old.
pub fn verified_peers(
    nodes: &Vec<ContactInfo>,
    ping_cache: &mut PingCache,
    now: u64,
    seed: u64,
) -> (result: (
    Vec<ContactInfo>,
    Vec<Ping>,
))
    ensures
        final(ping_cache).spec_ttl() == old(ping_cache).spec_ttl(),
        final(ping_cache).spec_rate_limit_delay() == old(ping_cache).spec_rate_limit_delay(),
        final(ping_cache).spec_capacity() == old(ping_cache).spec_capacity(),
        ({
            let checked = check_peers(
                old(ping_cache).spec_entries(),
                nodes@,
                now,
                old(ping_cache).spec_ttl(),
                old(ping_cache).spec_rate_limit_delay(),
                old(ping_cache).spec_capacity(),
                seed,
                nodes@.len(),
            );
            &&& final(ping_cache).spec_entries() == checked.entries
            &&& result.0@ == checked.live
            &&& result.1@ == checked.pings
        }),
{
    let mut live: Vec<ContactInfo> = Vec::new();
    let mut pings: Vec<Ping> = Vec::new();
    let ghost entries0 = ping_cache.spec_entries();
    let ghost ttl = ping_cache.spec_ttl();
    let ghost delay = ping_cache.spec_rate_limit_delay();
    let ghost capacity = ping_cache.spec_capacity();
    let mut i: usize = 0;
    while i < nodes.len()
        invariant
            i <= nodes@.len(),
            ping_cache.spec_ttl() == ttl,
            ping_cache.spec_rate_limit_delay() == delay,
            ping_cache.spec_capacity() == capacity,
            ({
                let checked = check_peers(entries0, nodes@, now, ttl, delay, capacity, seed, i as nat);
                &&& ping_cache.spec_entries() == checked.entries
                &&& live@ == checked.live
                &&& pings@ == checked.pings
            }),
        decreases nodes@.len() - i,
    {
        let info = nodes[i];
        let nonce = draw_at(seed, i);
        let (state, ping) = ping_cache.check(&info.pubkey, &info.gossip, now, nonce);
        if state == LivenessState::Verified {
            live.push(info);
        }
        match ping {
            Some(p) => {
                pings.push(p);
            },
            None => {},
        }
        i += 1;
    }
    (live, pings)
}

/// The weights with which the nodes are drawn by a node of stake
/// `self_stake`.
pub open spec fn peer_weights(
    nodes: Seq<ContactInfo>,
    stakes: StakeMap,
    self_stake: u64,
) -> Seq<u64> {
    Seq::new(nodes.len(), |i: int| stake_weight(stakes.spec_get(nodes[i].pubkey), self_stake))
}

pub fn weights_of(
    nodes: &Vec<ContactInfo>,
    stakes: &StakeMap,
    self_pubkey: &Pubkey,
) -> (weights: Vec<u64>)
    ensures
        weights@ == peer_weights(nodes@, *stakes, stakes.spec_get(*self_pubkey)),
        forall|i: int| 0 <= i < weights@.len() ==> 1 <= #[trigger] weights@[i] <= 4225,
{
    let self_stake = stakes.get(self_pubkey);
    let mut weights: Vec<u64> = Vec::new();
    let mut i: usize = 0;
    while i < nodes.len()
        invariant
            i <= nodes@.len(),
            weights@.len() == i,
            forall|j: int|
                0 <= j < i ==> #[trigger] weights@[j] == stake_weight(
                    stakes.spec_get(nodes@[j].pubkey),
                    self_stake,
                ) && 1 <= weights@[j] <= 4225,
        decreases nodes@.len() - i,
    {
        weights.push(weight_of(stakes.get(&nodes[i].pubkey), self_stake));
        i += 1;
    }
    assert(weights@ =~= peer_weights(nodes@, *stakes, self_stake));
    weights
}

} // verus!
