//! The pull side of a node: the filters that tell peers what the node
//! knows, the responses to the filters of peers, and the taking of
//! responses.

use crate::bloom::{all_set, bits_with, key_at, lemma_bits_with, Bloom};
use crate::crds::{
    count_route, insert_outcome, insert_records, Crds, CrdsEntry, CrdsStats, GossipRoute,
};
use crate::crds_data::{ContactInfo, CrdsData, CrdsValueLabel};
use crate::crds_value::CrdsValue;
use crate::error::CrdsGossipError;
use crate::identity;
use crate::identity::Pubkey;
use crate::peers::{check_peers, gossip_nodes, peer_infos, peer_weights, verified_peers, weights_of};
use crate::push::retained_by;
use crate::ping_pong::{
    checked_entry, entry_of, sends_ping, with_entry, Ping, PingCache, PingEntry,
};
use crate::sampling::{
    chosen, draw, draw_at, falls_on, lemma_falls_on_unique, lemma_weight_sum_monotone, weight_sum,
    weighted_index,
};
use crate::stakes::StakeMap;
use crate::timeouts::CrdsTimeouts;
use vstd::prelude::*;

verus! {

pub const CRDS_GOSSIP_PULL_CRDS_TIMEOUT_MS: u64 = 15000;

pub const CRDS_GOSSIP_NUM_PULL_REQUESTS: usize = 1024;

/// How many keys a filter has.
pub const FILTER_KEYS: usize = 8;

/// How many thousandths of a bit a filter spends on each hash it is meant
/// to hold.
pub const MILLIBITS_PER_ITEM: usize = 5773;

/// The most bits a filter may have.
pub const MAX_FILTER_BITS: usize = 0x100_0000;

/// A filter over the hashes of one part of the hash space: the part of
/// those hashes whose first eight bytes, as a number, leave `partition` when
/// divided by `num_partitions`.
#[derive(Debug)]
pub struct CrdsFilter {
    pub filter: Bloom,
    pub partition: u64,
    pub num_partitions: u64,
}

/// Whether `hash` lies in the part `partition` of `num_partitions`.
pub open spec fn in_partition(hash: identity::Hash, partition: u64, num_partitions: u64) -> bool {
    num_partitions > 0 && hash.spec_prefix() % (num_partitions as nat) == partition
}

/// The number of bits of a filter that is to take `max_bytes` bytes.
pub open spec fn filter_bits(max_bytes: usize) -> nat {
    if max_bytes == 0 {
        1
    } else if max_bytes * 8 > MAX_FILTER_BITS {
        MAX_FILTER_BITS as nat
    } else {
        (max_bytes * 8) as nat
    }
}

/// The number of hashes that a filter of `num_bits` bits is meant to hold.
pub open spec fn max_items(num_bits: nat) -> nat {
    if num_bits * 1000 / (MILLIBITS_PER_ITEM as nat) == 0 {
        1
    } else {
        num_bits * 1000 / (MILLIBITS_PER_ITEM as nat)
    }
}

/// Into how many parts the hash space is cut for `num_items` hashes and
/// filters of `max_bytes` bytes: as many as it takes for each filter to hold
/// no more than it is meant to, and one at least.
pub open spec fn partitions_for(num_items: nat, max_bytes: usize) -> nat {
    let per_filter = max_items(filter_bits(max_bytes));
    if num_items == 0 {
        1
    } else {
        ((num_items - 1) / (per_filter as int) + 1) as nat
    }
}

/// The bits of the filter for `partition` after the first `n` hashes were
/// offered to it: it takes those that lie in its part.
pub open spec fn filled(
    bits: Seq<bool>,
    keys: Seq<u64>,
    hashes: Seq<identity::Hash>,
    partition: u64,
    num_partitions: u64,
    n: nat,
) -> Seq<bool>
    decreases n,
{
    if n == 0 {
        bits
    } else {
        let prev = filled(bits, keys, hashes, partition, num_partitions, (n - 1) as nat);
        if in_partition(hashes[n - 1], partition, num_partitions) {
            bits_with(prev, keys, hashes[n - 1], keys.len())
        } else {
            prev
        }
    }
}

/// A filter that was filled holds every hash of its part that was offered
/// to it.
pub proof fn lemma_filled(
    bits: Seq<bool>,
    keys: Seq<u64>,
    hashes: Seq<identity::Hash>,
    partition: u64,
    num_partitions: u64,
    n: nat,
)
    requires
        bits.len() > 0,
        n <= hashes.len(),
    ensures
        filled(bits, keys, hashes, partition, num_partitions, n).len() == bits.len(),
        forall|i: int|
            0 <= i < n && in_partition(#[trigger] hashes[i], partition, num_partitions) ==> all_set(
                filled(bits, keys, hashes, partition, num_partitions, n),
                keys,
                hashes[i],
            ),
    decreases n,
{
    if n > 0 {
        lemma_filled(bits, keys, hashes, partition, num_partitions, (n - 1) as nat);
        let prev = filled(bits, keys, hashes, partition, num_partitions, (n - 1) as nat);
        let cur = filled(bits, keys, hashes, partition, num_partitions, n);
        if in_partition(hashes[n - 1], partition, num_partitions) {
            lemma_bits_with(prev, keys, hashes[n - 1], keys.len());
            assert forall|i: int|
                0 <= i < n && in_partition(
                    #[trigger] hashes[i],
                    partition,
                    num_partitions,
                ) implies all_set(cur, keys, hashes[i]) by {
                if i < n - 1 {
                    assert(all_set(prev, keys, hashes[i]));
                    assert forall|k: int| 0 <= k < keys.len() implies cur[#[trigger] crate::bloom::bit_position(
                        hashes[i],
                        keys[k],
                        cur.len(),
                    )] by {
                        let q = crate::bloom::bit_position(hashes[i], keys[k], prev.len());
                        assert(0 <= q < prev.len());
                        assert(prev[q]);
                    }
                }
            }
        }
    }
}

impl CrdsFilter {
    pub open spec fn wf(&self) -> bool {
        &&& self.filter.wf()
        &&& self.partition < self.num_partitions
    }

    /// Whether a peer that gets the filter is to take `hash` for known to
    /// the sender: the hash lies outside the filter's part, or the filter
    /// holds it. A filter for a part that is none takes every hash for
    /// known.
    pub open spec fn spec_holds(&self, hash: identity::Hash) -> bool {
        !in_partition(hash, self.partition, self.num_partitions) || self.filter.spec_contains(hash)
    }

    /// Whether the filter is the one for `partition` of `num_partitions`,
    /// of `num_bits` bits and with the keys of `seed`, filled with `hashes`.
    pub open spec fn built_from(
        &self,
        hashes: Seq<identity::Hash>,
        partition: u64,
        num_partitions: u64,
        num_bits: nat,
        seed: u64,
    ) -> bool {
        &&& self.partition == partition
        &&& self.num_partitions == num_partitions
        &&& self.filter.spec_keys() == Seq::new(FILTER_KEYS as nat, |k: int| key_at(seed, k as nat))
        &&& self.filter.spec_bits() == filled(
            Seq::new(
                if num_bits == 0 {
                    1
                } else {
                    num_bits
                },
                |p: int| false,
            ),
            self.filter.spec_keys(),
            hashes,
            partition,
            num_partitions,
            hashes.len(),
        )
    }

    pub fn holds(&self, hash: &identity::Hash) -> (b: bool)
        ensures
            b == self.spec_holds(*hash),
    {
        if self.num_partitions == 0 || hash.prefix() % self.num_partitions != self.partition {
            true
        } else {
            self.filter.contains(hash)
        }
    }

    /// The filter for `partition` of `num_partitions`, of `num_bits` bits, one
    /// at least, filled with those of `hashes` that lie in its part. The same
    /// hashes and numbers always give the same filter.
    pub fn build(
        hashes: &Vec<identity::Hash>,
        partition: u64,
        num_partitions: u64,
        num_bits: usize,
        seed: u64,
    ) -> (filter: CrdsFilter)
        ensures
            filter.wf() == (partition < num_partitions),
            filter.built_from(hashes@, partition, num_partitions, num_bits as nat, seed),
            forall|i: int| 0 <= i < hashes@.len() ==> filter.spec_holds(#[trigger] hashes@[i]),
    {
        let mut bloom = Bloom::new(num_bits, FILTER_KEYS, seed);
        let ghost bits0 = bloom.spec_bits();
        let ghost keys = bloom.spec_keys();
        assert(bits0 =~= Seq::new(
            if num_bits == 0 {
                1nat
            } else {
                num_bits as nat
            },
            |p: int| false,
        ));
        assert(keys =~= Seq::new(FILTER_KEYS as nat, |k: int| key_at(seed, k as nat)));
        let mut i: usize = 0;
        while i < hashes.len()
            invariant
                i <= hashes@.len(),
                bits0.len() > 0,
                bloom.spec_keys() == keys,
                bloom.spec_bits() == filled(bits0, keys, hashes@, partition, num_partitions, i as nat),
            decreases hashes@.len() - i,
        {
            let hash = hashes[i];
            if num_partitions > 0 && hash.prefix() % num_partitions == partition {
                bloom.add(&hash);
            }
            i += 1;
        }
        proof {
            lemma_filled(bits0, keys, hashes@, partition, num_partitions, hashes@.len());
        }
        CrdsFilter { filter: bloom, partition, num_partitions }
    }
}

/// The number of bits of a filter that is to take `max_bytes` bytes.
pub fn bits_for(max_bytes: usize) -> (num_bits: usize)
    ensures
        num_bits == filter_bits(max_bytes),
        0 < num_bits <= MAX_FILTER_BITS,
{
    if max_bytes == 0 {
        1
    } else if max_bytes > MAX_FILTER_BITS / 8 {
        MAX_FILTER_BITS
    } else {
        max_bytes * 8
    }
}

/// Into how many parts the hash space is cut for `num_items` hashes and
/// filters of `max_bytes` bytes.
pub fn num_partitions(num_items: usize, max_bytes: usize) -> (parts: u64)
    ensures
        parts == partitions_for(num_items as nat, max_bytes),
        parts >= 1,
{
    let num_bits = bits_for(max_bytes);
    let scaled: u64 = (num_bits as u64) * 1000 / (MILLIBITS_PER_ITEM as u64);
    let per_filter: u64 = if scaled == 0 {
        1
    } else {
        scaled
    };
    if num_items == 0 {
        1
    } else {
        let full: u64 = (num_items as u64 - 1) / per_filter;
        assert(full <= num_items - 1) by (nonlinear_arith)
            requires
                full == (num_items - 1) / (per_filter as int),
                num_items >= 1,
                per_filter >= 1,
        ;
        full + 1
    }
}

/// The limits of the pull side.
#[derive(Clone, Copy, Debug, PartialEq, Eq, Structural)]
pub struct PullConfig {
    /// How long records rest in the table of a node without stake, and how
    /// far ahead of the present the wallclock of a request may lie, in
    /// milliseconds.
    pub crds_timeout: u64,
    /// The most requests to make at a time.
    pub num_pull_requests: usize,
}

impl PullConfig {
    pub open spec fn spec_default() -> PullConfig {
        PullConfig {
            crds_timeout: CRDS_GOSSIP_PULL_CRDS_TIMEOUT_MS,
            num_pull_requests: CRDS_GOSSIP_NUM_PULL_REQUESTS,
        }
    }
}

impl Default for PullConfig {
    fn default() -> (config: PullConfig)
        ensures
            config == PullConfig::spec_default(),
    {
        PullConfig {
            crds_timeout: CRDS_GOSSIP_PULL_CRDS_TIMEOUT_MS,
            num_pull_requests: CRDS_GOSSIP_NUM_PULL_REQUESTS,
        }
    }
}

/// A request of a peer for the records it lacks.
#[derive(Debug)]
pub struct PullRequest {
    /// The peer that asks.
    pub pubkey: Pubkey,
    /// The time the peer gave the request.
    pub wallclock: u64,
    /// What the peer holds already.
    pub filter: CrdsFilter,
}

/// Counts of what became of the records of pull responses.
#[derive(Clone, Copy, Debug, PartialEq, Eq, Structural)]
pub struct ProcessPullStats {
    pub success: usize,
    pub failed_insert: usize,
    pub failed_timeout: usize,
}

impl Default for ProcessPullStats {
    fn default() -> (stats: ProcessPullStats)
        ensures
            stats == (ProcessPullStats { success: 0, failed_insert: 0, failed_timeout: 0 }),
    {
        ProcessPullStats { success: 0, failed_insert: 0, failed_timeout: 0 }
    }
}

/// The pull side of a node.
pub struct CrdsGossipPull {
    failed_inserts: Vec<(identity::Hash, u64)>,
    config: PullConfig,
}

/// The hashes that a node tells its peers it knows: those of the records
/// it holds, of the records it purged, and of the records it refused.
pub open spec fn known_hashes(
    records: Seq<CrdsEntry>,
    purged: Seq<(identity::Hash, u64)>,
    failed: Seq<(identity::Hash, u64)>,
) -> Seq<identity::Hash> {
    records.map_values(|entry: CrdsEntry| entry.value.spec_hash()) + purged.map_values(
        |pair: (identity::Hash, u64)| pair.0,
    ) + failed.map_values(|pair: (identity::Hash, u64)| pair.0)
}

/// The sum of `a` and `b`, as far as a `usize` can say.
pub open spec fn capped_sum(a: usize, b: nat) -> usize {
    if a + b > usize::MAX {
        usize::MAX
    } else {
        (a + b) as usize
    }
}

/// The part of the hash space that the `j`-th request is about, when the
/// first is about the part `start`.
pub open spec fn nth_partition(start: u64, j: nat, parts: u64) -> u64 {
    ((start + j) % (parts as int)) as u64
}

/// Whether `request` is the `j`-th request to make: it goes to the peer
/// that the draw after the `j`-th gives by the weights, with the filter for
/// the `j`-th part from the one that the first draw gives.
pub open spec fn request_matches(
    request: (ContactInfo, CrdsFilter),
    j: nat,
    live: Seq<ContactInfo>,
    weights: Seq<u64>,
    hashes: Seq<identity::Hash>,
    parts: u64,
    num_bits: nat,
    seed: u64,
) -> bool {
    &&& request.0 == live[chosen(weights, draw(seed, j + 1))]
    &&& request.1.wf()
    &&& request.1.built_from(
        hashes,
        nth_partition((draw(seed, 0) % parts) as u64, j, parts),
        parts,
        num_bits,
        seed,
    )
}

/// Whether `requests` are the requests to make of the verified peers
/// `live`: one for each of `count` parts of the hash space in a row.
pub open spec fn pull_requests_match(
    requests: Seq<(ContactInfo, CrdsFilter)>,
    live: Seq<ContactInfo>,
    weights: Seq<u64>,
    hashes: Seq<identity::Hash>,
    parts: u64,
    count: nat,
    num_bits: nat,
    seed: u64,
) -> bool {
    &&& requests.len() == count
    &&& forall|j: int|
        0 <= j < count ==> request_matches(
            #[trigger] requests[j],
            j as nat,
            live,
            weights,
            hashes,
            parts,
            num_bits,
            seed,
        )
}

/// The records to send on the first `n` records from the newest down, to a
/// peer whose filter is `filter`, `limit` at most: each record that the
/// filter does not hold and that the caller retains.
pub open spec fn response(
    records: Seq<CrdsEntry>,
    retain: Seq<bool>,
    filter: CrdsFilter,
    limit: nat,
    n: nat,
) -> Seq<CrdsValue>
    decreases n,
{
    if n == 0 {
        Seq::empty()
    } else {
        let prev = response(records, retain, filter, limit, (n - 1) as nat);
        let at = records.len() - n;
        if prev.len() < limit && retain[at] && !filter.spec_holds(records[at].value.spec_hash()) {
            prev.push(records[at].value)
        } else {
            prev
        }
    }
}

/// No record of a response has a hash that the filter holds; each is a
/// record of the table that the caller retains.
pub proof fn lemma_response_excludes_held(
    records: Seq<CrdsEntry>,
    retain: Seq<bool>,
    filter: CrdsFilter,
    limit: nat,
    n: nat,
)
    requires
        n <= records.len(),
    ensures
        response(records, retain, filter, limit, n).len() <= limit,
        response(records, retain, filter, limit, n).len() <= n,
        ({
            let out = response(records, retain, filter, limit, n);
            forall|k: int|
                #![trigger out[k]]
                0 <= k < out.len() ==> {
                    &&& !filter.spec_holds(out[k].spec_hash())
                    &&& exists|i: int|
                        0 <= i < records.len() && records[i].value == out[k] && retain[i]
                }
        }),
    decreases n,
{
    if n > 0 {
        lemma_response_excludes_held(records, retain, filter, limit, (n - 1) as nat);
        let prev = response(records, retain, filter, limit, (n - 1) as nat);
        let cur = response(records, retain, filter, limit, n);
        let at = records.len() - n;
        assert forall|k: int| #![trigger cur[k]] 0 <= k < cur.len() implies {
            let value = cur[k];
            &&& !filter.spec_holds(value.spec_hash())
            &&& exists|i: int| 0 <= i < records.len() && records[i].value == value && retain[i]
        } by {
            if k < prev.len() {
                assert(cur[k] == prev[k]);
            } else {
                assert(cur[k] == records[at].value);
                assert(records[at].value == cur[k] && retain[at]);
            }
        }
    }
}

/// Whether a request is taken: its wallclock lies less than `timeout` ahead
/// of `now`.
pub open spec fn request_in_time(wallclock: u64, now: u64, timeout: u64) -> bool {
    wallclock < now + timeout
}

/// What answering requests leaves: one response for each request, and how
/// many more records may be sent.
pub struct Responded {
    pub responses: Seq<Seq<CrdsValue>>,
    pub left: nat,
}

/// The outcome of answering the first `n` requests in turn, `limit` records
/// at most in all. A request that is not in time gets an empty response.
pub open spec fn respond_all(
    records: Seq<CrdsEntry>,
    retain: Seq<bool>,
    requests: Seq<PullRequest>,
    limit: nat,
    now: u64,
    timeout: u64,
    n: nat,
) -> Responded
    decreases n,
{
    if n == 0 {
        Responded { responses: Seq::empty(), left: limit }
    } else {
        let prev = respond_all(records, retain, requests, limit, now, timeout, (n - 1) as nat);
        let request = requests[n - 1];
        let out = if request_in_time(request.wallclock, now, timeout) {
            response(records, retain, request.filter, prev.left, records.len())
        } else {
            Seq::empty()
        };
        Responded { responses: prev.responses.push(out), left: (prev.left - out.len()) as nat }
    }
}

/// Whether a record of a response is young enough to be taken: its
/// wallclock lies no further behind `now` than its timeout allows.
pub open spec fn fresh(value: CrdsValue, now: u64, timeouts: CrdsTimeouts) -> bool {
    now <= value.spec_wallclock() + timeouts.spec_timeout(value.spec_label())
}

/// The state that taking pull responses works on: the table, the ping
/// cache, the challenges to send, and how many records were taken.
pub struct PullState {
    pub records: Seq<CrdsEntry>,
    pub next_ordinal: u64,
    pub stats: CrdsStats,
    pub entries: Seq<PingEntry>,
    pub pings: Seq<Ping>,
    pub success: nat,
}

/// The state after `value` was offered to the table at time `now`. Where
/// the table takes it and it tells how to reach a node, that node is checked
/// against the ping cache, with `nonce` for the challenge that may be due.
pub open spec fn take_response(
    state: PullState,
    value: CrdsValue,
    now: u64,
    ttl: u64,
    delay: u64,
    capacity: usize,
    nonce: u64,
) -> PullState {
    if insert_outcome(state.records, state.next_ordinal, value) is Ok {
        let taken = PullState {
            records: insert_records(state.records, state.next_ordinal, value, now),
            next_ordinal: (state.next_ordinal + 1) as u64,
            stats: count_route(state.stats, GossipRoute::PullResponse),
            success: state.success + 1,
            ..state
        };
        match value.spec_data() {
            CrdsData::ContactInfo(info) => {
                let entry = entry_of(state.entries, info.pubkey, info.gossip);
                PullState {
                    entries: with_entry(
                        state.entries,
                        checked_entry(entry, now, ttl, delay, nonce),
                        capacity,
                    ),
                    pings: if sends_ping(entry, now, ttl, delay) {
                        state.pings.push(Ping { node: info.pubkey, addr: info.gossip, nonce })
                    } else {
                        state.pings
                    },
                    ..taken
                }
            },
            _ => taken,
        }
    } else {
        state
    }
}

/// The state after the first `n` of `values` were offered in turn, the
/// `i`-th with the `i`-th draw of `seed`.
pub open spec fn take_responses(
    state: PullState,
    values: Seq<CrdsValue>,
    now: u64,
    ttl: u64,
    delay: u64,
    capacity: usize,
    seed: u64,
    n: nat,
) -> PullState
    decreases n,
{
    if n == 0 {
        state
    } else {
        take_response(
            take_responses(state, values, now, ttl, delay, capacity, seed, (n - 1) as nat),
            values[n - 1],
            now,
            ttl,
            delay,
            capacity,
            draw(seed, (n - 1) as nat),
        )
    }
}

impl CrdsGossipPull {
    /// The hashes of the records that the node refused, each with the time
    /// of the refusal.
    pub closed spec fn spec_failed_inserts(&self) -> Seq<(identity::Hash, u64)> {
        self.failed_inserts@
    }

    pub closed spec fn spec_config(&self) -> PullConfig {
        self.config
    }

    pub fn new(config: PullConfig) -> (pull: CrdsGossipPull)
        ensures
            pull.spec_config() == config,
            pull.spec_failed_inserts() == Seq::<(identity::Hash, u64)>::empty(),
    {
        CrdsGossipPull { failed_inserts: Vec::new(), config }
    }

    pub fn config(&self) -> (config: PullConfig)
        ensures
            config == self.spec_config(),
    {
        self.config
    }

    pub fn crds_timeout(&self) -> (timeout: u64)
        ensures
            timeout == self.spec_config().crds_timeout,
    {
        self.config.crds_timeout
    }

    pub fn num_failed_inserts(&self) -> (n: usize)
        ensures
            n == self.spec_failed_inserts().len(),
    {
        self.failed_inserts.len()
    }

    /// Forgets the refused records whose refusal is older than
    /// `min_timestamp`.
    pub fn trim_failed_inserts(&mut self, min_timestamp: u64)
        ensures
            final(self).spec_config() == old(self).spec_config(),
            final(self).spec_failed_inserts() == old(self).spec_failed_inserts().filter(
                |pair: (identity::Hash, u64)| pair.1 >= min_timestamp,
            ),
    {
        let ghost pred = |pair: (identity::Hash, u64)| pair.1 >= min_timestamp;
        let mut rest: Vec<(identity::Hash, u64)> = Vec::new();
        let mut i: usize = 0;
        proof {
            reveal(Seq::filter);
            assert(self.failed_inserts@.take(0) =~= Seq::<(identity::Hash, u64)>::empty());
        }
        while i < self.failed_inserts.len()
            invariant
                i <= self.failed_inserts@.len(),
                *self == *old(self),
                pred == |pair: (identity::Hash, u64)| pair.1 >= min_timestamp,
                rest@ == self.failed_inserts@.take(i as int).filter(pred),
            decreases self.failed_inserts@.len() - i,
        {
            let pair = self.failed_inserts[i];
            proof {
                reveal(Seq::filter);
                assert(self.failed_inserts@.take(i + 1).drop_last() =~= self.failed_inserts@.take(
                    i as int,
                ));
            }
            if pair.1 >= min_timestamp {
                rest.push(pair);
            }
            i += 1;
        }
        assert(self.failed_inserts@.take(self.failed_inserts@.len() as int)
            =~= self.failed_inserts@);
        self.failed_inserts = rest;
    }

    /// The hashes that the node tells its peers it knows.
    pub fn hashes(&self, crds: &Crds) -> (hashes: Vec<identity::Hash>)
        ensures
            hashes@ == known_hashes(
                crds.records(),
                crds.spec_purged(),
                self.spec_failed_inserts(),
            ),
    {
        let ghost of_record = |entry: CrdsEntry| entry.value.spec_hash();
        let ghost first = |pair: (identity::Hash, u64)| pair.0;
        let mut hashes: Vec<identity::Hash> = Vec::new();
        let mut i: usize = 0;
        while i < crds.len()
            invariant
                i <= crds.records().len(),
                of_record == |entry: CrdsEntry| entry.value.spec_hash(),
                hashes@ == crds.records().take(i as int).map_values(of_record),
            decreases crds.records().len() - i,
        {
            hashes.push(crds.entry(i).value.hash());
            assert(crds.records().take(i + 1).map_values(of_record) =~= crds.records().take(
                i as int,
            ).map_values(of_record).push(crds.records()[i as int].value.spec_hash()));
            i += 1;
        }
        assert(crds.records().take(crds.records().len() as int) =~= crds.records());
        let ghost held = hashes@;
        let mut p: usize = 0;
        while p < crds.num_purged()
            invariant
                p <= crds.spec_purged().len(),
                first == |pair: (identity::Hash, u64)| pair.0,
                hashes@ == held + crds.spec_purged().take(p as int).map_values(first),
            decreases crds.spec_purged().len() - p,
        {
            hashes.push(crds.purged_hash(p));
            assert(held + crds.spec_purged().take(p + 1).map_values(first) =~= (held
                + crds.spec_purged().take(p as int).map_values(first)).push(
                crds.spec_purged()[p as int].0,
            ));
            p += 1;
        }
        assert(crds.spec_purged().take(crds.spec_purged().len() as int) =~= crds.spec_purged());
        let ghost gone = hashes@;
        let mut f: usize = 0;
        while f < self.failed_inserts.len()
            invariant
                f <= self.failed_inserts@.len(),
                first == |pair: (identity::Hash, u64)| pair.0,
                hashes@ == gone + self.failed_inserts@.take(f as int).map_values(first),
            decreases self.failed_inserts@.len() - f,
        {
            hashes.push(self.failed_inserts[f].0);
            assert(gone + self.failed_inserts@.take(f + 1).map_values(first) =~= (gone
                + self.failed_inserts@.take(f as int).map_values(first)).push(
                self.failed_inserts@[f as int].0,
            ));
            f += 1;
        }
        assert(self.failed_inserts@.take(self.failed_inserts@.len() as int)
            =~= self.failed_inserts@);
        hashes
    }

    /// The requests to make of peers at time `now`: for each, the peer and
    /// the filter that tells what this node knows in one part of the hash
    /// space. The peers are those that the table knows and the ping cache
    /// finds verified; with them come the challenges to send, and the
    /// contact info of this node that the table holds, to go with each
    /// request. Fails with `NoPeers` where no peer is verified.
    pub fn new_pull_request(
        &self,
        crds: &Crds,
        self_pubkey: &Pubkey,
        now: u64,
        stakes: &StakeMap,
        max_filter_bytes: usize,
        ping_cache: &mut PingCache,
        seed: u64,
    ) -> (result: (
        Result<Vec<(ContactInfo, CrdsFilter)>, CrdsGossipError>,
        Vec<Ping>,
        Option<CrdsValue>,
    ))
        ensures
            result.2 == match crds.spec_get(CrdsValueLabel::ContactInfo(*self_pubkey)) {
                Some(entry) => Some(entry.value),
                None => None,
            },
            final(ping_cache).spec_ttl() == old(ping_cache).spec_ttl(),
            final(ping_cache).spec_rate_limit_delay() == old(ping_cache).spec_rate_limit_delay(),
            final(ping_cache).spec_capacity() == old(ping_cache).spec_capacity(),
            ({
                let nodes = peer_infos(crds.records(), *self_pubkey, crds.records().len());
                let checked = check_peers(
                    old(ping_cache).spec_entries(),
                    nodes,
                    now,
                    old(ping_cache).spec_ttl(),
                    old(ping_cache).spec_rate_limit_delay(),
                    old(ping_cache).spec_capacity(),
                    seed,
                    nodes.len(),
                );
                let hashes = known_hashes(
                    crds.records(),
                    crds.spec_purged(),
                    self.spec_failed_inserts(),
                );
                let parts = partitions_for(hashes.len(), max_filter_bytes);
                let count = if self.spec_config().num_pull_requests < parts {
                    self.spec_config().num_pull_requests as nat
                } else {
                    parts
                };
                &&& final(ping_cache).spec_entries() == checked.entries
                &&& result.1@ == checked.pings
                &&& match result.0 {
                    Ok(requests) => checked.live.len() > 0 && pull_requests_match(
                        requests@,
                        checked.live,
                        peer_weights(checked.live, *stakes, stakes.spec_get(*self_pubkey)),
                        hashes,
                        parts as u64,
                        count,
                        filter_bits(max_filter_bytes),
                        draw(seed, nodes.len()),
                    ),
                    Err(e) => e == CrdsGossipError::NoPeers && checked.live.len() == 0,
                }
            }),
    {
        let caller_info = match crds.get(&CrdsValueLabel::ContactInfo(*self_pubkey)) {
            Some(entry) => Some(entry.value),
            None => None,
        };
        let nodes = gossip_nodes(crds, self_pubkey);
        let (live, pings) = verified_peers(&nodes, ping_cache, now, seed);
        if live.len() == 0 {
            return (Err(CrdsGossipError::NoPeers), pings, caller_info);
        }
        let weights = weights_of(&live, stakes, self_pubkey);
        let hashes = self.hashes(crds);
        let num_bits = bits_for(max_filter_bytes);
        let parts = num_partitions(hashes.len(), max_filter_bytes);
        let pick_seed = draw_at(seed, nodes.len());
        let start = draw_at(pick_seed, 0) % parts;
        let count: usize = if (self.config.num_pull_requests as u64) < parts {
            self.config.num_pull_requests
        } else {
            parts as usize
        };
        proof {
            lemma_weight_sum_monotone(weights@, 1, weights@.len());
            assert(weight_sum(weights@, 1) == weight_sum(weights@, 0) + weights@[0] as nat);
        }
        let mut requests: Vec<(ContactInfo, CrdsFilter)> = Vec::new();
        let mut j: usize = 0;
        while j < count
            invariant
                j <= count,
                count <= parts,
                parts >= 1,
                start == draw(pick_seed, 0) % parts,
                num_bits > 0,
                weights@.len() == live@.len(),
                weight_sum(weights@, weights@.len()) > 0,
                requests@.len() == j,
                forall|t: int|
                    0 <= t < j ==> request_matches(
                        #[trigger] requests@[t],
                        t as nat,
                        live@,
                        weights@,
                        hashes@,
                        parts,
                        num_bits as nat,
                        pick_seed,
                    ),
            decreases count - j,
        {
            let partition = Self::partition_at(start, j, parts);
            let at = Self::pick_peer(&weights, draw_at(pick_seed, j + 1));
            let filter = CrdsFilter::build(&hashes, partition, parts, num_bits, pick_seed);
            let request = (live[at], filter);
            assert(request_matches(
                request,
                j as nat,
                live@,
                weights@,
                hashes@,
                parts,
                num_bits as nat,
                pick_seed,
            ));
            requests.push(request);
            j += 1;
        }
        (Ok(requests), pings, caller_info)
    }

    fn partition_at(start: u64, j: usize, parts: u64) -> (partition: u64)
        requires
            parts >= 1,
        ensures
            partition == nth_partition(start, j as nat, parts),
            partition < parts,
    {
        ((start as u128 + j as u128) % (parts as u128)) as u64
    }

    fn pick_peer(weights: &Vec<u64>, pick: u64) -> (at: usize)
        requires
            weight_sum(weights@, weights@.len()) > 0,
        ensures
            at == chosen(weights@, pick),
            at < weights@.len(),
    {
        let found = weighted_index(weights, pick);
        let at = match found {
            Some(i) => i,
            None => 0,
        };
        proof {
            let total = weight_sum(weights@, weights@.len());
            let c = chosen(weights@, pick);
            assert(falls_on(weights@, (pick as nat) % total, at as int));
            assert(falls_on(weights@, (pick as nat) % total, c));
            lemma_falls_on_unique(weights@, (pick as nat) % total, at as int, c);
        }
        at
    }

    fn in_time(wallclock: u64, now: u64, timeout: u64) -> (b: bool)
        ensures
            b == request_in_time(wallclock, now, timeout),
    {
        if timeout <= u64::MAX - now {
            wallclock < now + timeout
        } else {
            true
        }
    }

    /// Answers the requests of peers at time `now`: for each request the
    /// records of the table that the request's filter does not hold and that
    /// `should_retain` keeps, the newest first. The responses hold
    /// `output_size_limit` records at most in all. A request whose wallclock
    /// lies too far ahead gets an empty response.
    pub fn generate_pull_responses<F: Fn(&CrdsValue) -> bool>(
        &self,
        crds: &Crds,
        requests: &Vec<PullRequest>,
        output_size_limit: usize,
        now: u64,
        should_retain: F,
    ) -> (responses: Vec<Vec<CrdsValue>>)
        requires
            forall|value: &CrdsValue| should_retain.requires((value,)),
        ensures
            responses@.len() == requests@.len(),
            exists|retain: Seq<bool>|
                #![trigger retained_by(should_retain, crds.records(), retain)]
                retained_by(should_retain, crds.records(), retain) && forall|i: int|
                    0 <= i < requests@.len() ==> (#[trigger] responses@[i])@ == respond_all(
                        crds.records(),
                        retain,
                        requests@,
                        output_size_limit as nat,
                        now,
                        self.spec_config().crds_timeout,
                        requests@.len(),
                    ).responses[i],
    {
        let timeout = self.config.crds_timeout;
        let len = crds.len();
        let mut retain: Vec<bool> = Vec::new();
        let mut i: usize = 0;
        while i < len
            invariant
                i <= len,
                len == crds.records().len(),
                retain@.len() == i,
                forall|value: &CrdsValue| should_retain.requires((value,)),
                forall|k: int|
                    0 <= k < i ==> should_retain.ensures(
                        (&(#[trigger] crds.records()[k]).value,),
                        retain@[k],
                    ),
            decreases len - i,
        {
            let keep = should_retain(&crds.entry(i).value);
            retain.push(keep);
            i += 1;
        }
        let mut responses: Vec<Vec<CrdsValue>> = Vec::new();
        let mut left: usize = output_size_limit;
        let mut r: usize = 0;
        while r < requests.len()
            invariant
                r <= requests@.len(),
                len == crds.records().len(),
                retain@.len() == len,
                responses@.len() == r,
                ({
                    let done = respond_all(
                        crds.records(),
                        retain@,
                        requests@,
                        output_size_limit as nat,
                        now,
                        timeout,
                        r as nat,
                    );
                    &&& left == done.left
                    &&& done.responses.len() == r
                    &&& forall|i: int| 0 <= i < r ==> (#[trigger] responses@[i])@ == done.responses[i]
                }),
            decreases requests@.len() - r,
        {
            let ghost done = respond_all(
                crds.records(),
                retain@,
                requests@,
                output_size_limit as nat,
                now,
                timeout,
                r as nat,
            );
            let mut out: Vec<CrdsValue> = Vec::new();
            if Self::in_time(requests[r].wallclock, now, timeout) {
                let mut n: usize = 0;
                while n < len
                    invariant
                        n <= len,
                        r < requests@.len(),
                        len == crds.records().len(),
                        retain@.len() == len,
                        out@ == response(
                            crds.records(),
                            retain@,
                            requests@[r as int].filter,
                            left as nat,
                            n as nat,
                        ),
                        out@.len() <= n,
                    decreases len - n,
                {
                    let at = len - 1 - n;
                    let entry = crds.entry(at);
                    if out.len() < left && retain[at] && !requests[r].filter.holds(
                        &entry.value.hash(),
                    ) {
                        out.push(entry.value);
                    }
                    n += 1;
                }
                proof {
                    lemma_response_excludes_held(
                        crds.records(),
                        retain@,
                        requests@[r as int].filter,
                        left as nat,
                        len as nat,
                    );
                }
            }
            let ghost sent = out@;
            left = left - out.len();
            responses.push(out);
            proof {
                let next = respond_all(
                    crds.records(),
                    retain@,
                    requests@,
                    output_size_limit as nat,
                    now,
                    timeout,
                    (r + 1) as nat,
                );
                assert(next.responses == done.responses.push(sent));
                assert forall|i: int| 0 <= i < r + 1 implies (#[trigger] responses@[i])@
                    == next.responses[i] by {
                    if i < r {
                        assert(next.responses[i] == done.responses[i]);
                    }
                }
            }
            r += 1;
        }
        proof {
            assert(retained_by(should_retain, crds.records(), retain@));
        }
        responses
    }

    fn is_fresh(value: &CrdsValue, now: u64, timeouts: &CrdsTimeouts) -> (b: bool)
        ensures
            b == fresh(*value, now, *timeouts),
    {
        let timeout = timeouts.timeout(&value.label());
        let wallclock = value.wallclock();
        if timeout <= u64::MAX - wallclock {
            now <= wallclock + timeout
        } else {
            true
        }
    }

    /// Sorts the records of pull responses into three: those to take, those
    /// that the table would take but that are too old, and, by their hashes,
    /// those that the table refuses, for an invalid signature or because it
    /// holds a record for the label that they do not override.
    pub fn filter_pull_responses(
        crds: &Crds,
        timeouts: &CrdsTimeouts,
        responses: &Vec<CrdsValue>,
        now: u64,
    ) -> (result: (
        Vec<CrdsValue>,
        Vec<CrdsValue>,
        Vec<identity::Hash>,
    ))
        ensures
            result.0@ == responses@.filter(
                |value: CrdsValue|
                    insert_outcome(crds.records(), crds.spec_next_ordinal(), value) is Ok && fresh(
                        value,
                        now,
                        *timeouts,
                    ),
            ),
            result.1@ == responses@.filter(
                |value: CrdsValue|
                    insert_outcome(crds.records(), crds.spec_next_ordinal(), value) is Ok && !fresh(
                        value,
                        now,
                        *timeouts,
                    ),
            ),
            result.2@ == responses@.filter(
                |value: CrdsValue|
                    !(insert_outcome(crds.records(), crds.spec_next_ordinal(), value) is Ok),
            ).map_values(|value: CrdsValue| value.spec_hash()),
    {
        let ghost takes = |value: CrdsValue|
            insert_outcome(crds.records(), crds.spec_next_ordinal(), value) is Ok && fresh(
                value,
                now,
                *timeouts,
            );
        let ghost too_old = |value: CrdsValue|
            insert_outcome(crds.records(), crds.spec_next_ordinal(), value) is Ok && !fresh(
                value,
                now,
                *timeouts,
            );
        let ghost refused = |value: CrdsValue|
            !(insert_outcome(crds.records(), crds.spec_next_ordinal(), value) is Ok);
        let ghost to_hash = |value: CrdsValue| value.spec_hash();
        let mut accepted: Vec<CrdsValue> = Vec::new();
        let mut expired_values: Vec<CrdsValue> = Vec::new();
        let mut failed: Vec<identity::Hash> = Vec::new();
        let mut i: usize = 0;
        proof {
            reveal(Seq::filter);
            assert(responses@.take(0) =~= Seq::<CrdsValue>::empty());
            assert(responses@.take(0).filter(refused).map_values(to_hash) =~= Seq::<
                identity::Hash,
            >::empty());
        }
        while i < responses.len()
            invariant
                i <= responses@.len(),
                takes == |value: CrdsValue|
                    insert_outcome(crds.records(), crds.spec_next_ordinal(), value) is Ok && fresh(
                        value,
                        now,
                        *timeouts,
                    ),
                too_old == |value: CrdsValue|
                    insert_outcome(crds.records(), crds.spec_next_ordinal(), value) is Ok && !fresh(
                        value,
                        now,
                        *timeouts,
                    ),
                refused == |value: CrdsValue|
                    !(insert_outcome(crds.records(), crds.spec_next_ordinal(), value) is Ok),
                to_hash == |value: CrdsValue| value.spec_hash(),
                accepted@ == responses@.take(i as int).filter(takes),
                expired_values@ == responses@.take(i as int).filter(too_old),
                failed@ == responses@.take(i as int).filter(refused).map_values(to_hash),
            decreases responses@.len() - i,
        {
            let value = responses[i];
            proof {
                reveal(Seq::filter);
                assert(responses@.take(i + 1).drop_last() =~= responses@.take(i as int));
                assert(responses@.take(i + 1).last() == value);
            }
            if !crds.upserts(&value) {
                let ghost before = responses@.take(i as int).filter(refused);
                failed.push(value.hash());
                assert(before.push(value).map_values(to_hash) =~= before.map_values(to_hash).push(
                    value.spec_hash(),
                ));
            } else if Self::is_fresh(&value, now, timeouts) {
                accepted.push(value);
            } else {
                expired_values.push(value);
            }
            i += 1;
        }
        assert(responses@.take(responses@.len() as int) =~= responses@);
        (accepted, expired_values, failed)
    }

    fn add_capped(a: usize, b: usize) -> (sum: usize)
        ensures
            sum == capped_sum(a, b as nat),
    {
        if b > usize::MAX - a {
            usize::MAX
        } else {
            a + b
        }
    }

    /// Takes the sorted records of pull responses at time `now`. The
    /// records to take are offered to the table; each that the table takes
    /// and that tells how to reach a node has that node checked against the
    /// ping cache. The hashes of the refused records are remembered, so
    /// that peers are told not to send them again. Returns the challenges to
    /// send, and counts in `stats` what was taken, refused and too old.
    pub fn process_pull_responses(
        &mut self,
        crds: &mut Crds,
        ping_cache: &mut PingCache,
        accepted: &Vec<CrdsValue>,
        expired_values: &Vec<CrdsValue>,
        failed: &Vec<identity::Hash>,
        now: u64,
        stats: &mut ProcessPullStats,
        seed: u64,
    ) -> (pings: Vec<Ping>)
        ensures
            final(ping_cache).spec_ttl() == old(ping_cache).spec_ttl(),
            final(ping_cache).spec_rate_limit_delay() == old(ping_cache).spec_rate_limit_delay(),
            final(ping_cache).spec_capacity() == old(ping_cache).spec_capacity(),
            final(crds).spec_purged() == old(crds).spec_purged(),
            final(self).spec_config() == old(self).spec_config(),
            final(self).spec_failed_inserts() == old(self).spec_failed_inserts() + failed@.map_values(
                |hash: identity::Hash| (hash, now),
            ),
            ({
                let start = PullState {
                    records: old(crds).records(),
                    next_ordinal: old(crds).spec_next_ordinal(),
                    stats: old(crds).spec_stats(),
                    entries: old(ping_cache).spec_entries(),
                    pings: Seq::empty(),
                    success: 0,
                };
                let end = take_responses(
                    start,
                    accepted@,
                    now,
                    old(ping_cache).spec_ttl(),
                    old(ping_cache).spec_rate_limit_delay(),
                    old(ping_cache).spec_capacity(),
                    seed,
                    accepted@.len(),
                );
                &&& final(crds).records() == end.records
                &&& final(crds).spec_next_ordinal() == end.next_ordinal
                &&& final(crds).spec_stats() == end.stats
                &&& final(ping_cache).spec_entries() == end.entries
                &&& pings@ == end.pings
                &&& final(stats).success == capped_sum(old(stats).success, end.success)
            }),
            final(stats).failed_insert == capped_sum(old(stats).failed_insert, failed@.len()),
            final(stats).failed_timeout == capped_sum(
                old(stats).failed_timeout,
                expired_values@.len(),
            ),
    {
        let ghost start = PullState {
            records: crds.records(),
            next_ordinal: crds.spec_next_ordinal(),
            stats: crds.spec_stats(),
            entries: ping_cache.spec_entries(),
            pings: Seq::empty(),
            success: 0,
        };
        let ghost ttl = ping_cache.spec_ttl();
        let ghost delay = ping_cache.spec_rate_limit_delay();
        let ghost capacity = ping_cache.spec_capacity();
        let mut pings: Vec<Ping> = Vec::new();
        let mut success: usize = 0;
        let mut i: usize = 0;
        while i < accepted.len()
            invariant
                i <= accepted@.len(),
                ping_cache.spec_ttl() == ttl,
                ping_cache.spec_rate_limit_delay() == delay,
                ping_cache.spec_capacity() == capacity,
                crds.spec_purged() == old(crds).spec_purged(),
                success <= i,
                ({
                    let state = take_responses(
                        start,
                        accepted@,
                        now,
                        ttl,
                        delay,
                        capacity,
                        seed,
                        i as nat,
                    );
                    &&& crds.records() == state.records
                    &&& crds.spec_next_ordinal() == state.next_ordinal
                    &&& crds.spec_stats() == state.stats
                    &&& ping_cache.spec_entries() == state.entries
                    &&& pings@ == state.pings
                    &&& success == state.success
                }),
            decreases accepted@.len() - i,
        {
            let value = accepted[i];
            let nonce = draw_at(seed, i);
            match crds.insert(value, now, GossipRoute::PullResponse) {
                Ok(()) => {
                    success = success + 1;
                    match value.data() {
                        CrdsData::ContactInfo(info) => {
                            let (_, ping) = ping_cache.check(&info.pubkey, &info.gossip, now, nonce);
                            match ping {
                                Some(p) => {
                                    pings.push(p);
                                },
                                None => {},
                            }
                        },
                        _ => {},
                    }
                },
                Err(_) => {},
            }
            i += 1;
        }
        stats.success = Self::add_capped(stats.success, success);
        stats.failed_insert = Self::add_capped(stats.failed_insert, failed.len());
        stats.failed_timeout = Self::add_capped(stats.failed_timeout, expired_values.len());
        let ghost failed0 = self.failed_inserts@;
        let ghost stamp = |hash: identity::Hash| (hash, now);
        let mut f: usize = 0;
        while f < failed.len()
            invariant
                f <= failed@.len(),
                self.config == old(self).config,
                stamp == |hash: identity::Hash| (hash, now),
                self.failed_inserts@ == failed0 + failed@.take(f as int).map_values(stamp),
            decreases failed@.len() - f,
        {
            self.failed_inserts.push((failed[f], now));
            assert(failed0 + failed@.take(f + 1).map_values(stamp) =~= (failed0 + failed@.take(
                f as int,
            ).map_values(stamp)).push((failed@[f as int], now)));
            f += 1;
        }
        assert(failed@.take(failed@.len() as int) =~= failed@);
        pings
    }
}

} // verus!
