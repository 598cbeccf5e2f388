//! The gossip of a node as a whole, and what holds of push, pull and purge
//! together.

use crate::crds::{
    contains_label, holds_at, index_of, insert_outcome, lemma_index_of, purgeable, well_formed, Crds,
    CrdsEntry,
};
use crate::crds_data::{ContactInfo, CrdsValueLabel};
use crate::crds_value::CrdsValue;
use crate::error::CrdsGossipError;
use crate::identity;
use crate::identity::Pubkey;
use crate::peers::{check_peers, gossip_nodes, peer_infos, peer_weights, verified_peers, weights_of};
use crate::ping_pong::{Ping, PingCache};
use crate::pull::{
    capped_sum, filter_bits, fresh, known_hashes, lemma_filled, lemma_response_excludes_held,
    partitions_for, pull_requests_match, respond_all, response, take_responses, CrdsFilter,
    CrdsGossipPull, ProcessPullStats, PullConfig, PullRequest, PullState,
};
use crate::push::{
    groups_distinct, has_pair, least_cursor, lemma_plan_respects_prunes, lemma_with_origins,
    peer_plan, prune_origins, push_outcome, refreshed, retained_by, take_messages, with_pruned,
    CrdsGossipPush, PeerView, PushConfig, PushState, ReceivedView,
};
use crate::sampling::{draw, draw_at, sample};
use crate::stakes::StakeMap;
use crate::timeouts::CrdsTimeouts;
use vstd::prelude::*;

verus! {

/// How long the hashes of purged records are remembered, in timeouts of the
/// table.
pub const PURGED_RETENTION_TIMEOUTS: u64 = 5;

/// How long the hashes of refused records are remembered, in milliseconds.
pub const FAILED_INSERTS_RETENTION_MS: u64 = 20000;

/// The gossip of a node: its table of records, its push side and its pull
/// side.
pub struct CrdsGossip {
    pub crds: Crds,
    pub push: CrdsGossipPush,
    pub pull: CrdsGossipPull,
}

/// What `process_prune_msg` answers: the message has to be meant for this
/// node, and to have been received no later than `prune_timeout` after the
/// time it gives.
pub open spec fn prune_outcome(
    self_pubkey: Pubkey,
    destination: Pubkey,
    now: u64,
    receipt_time: u64,
    prune_timeout: u64,
) -> Result<(), CrdsGossipError> {
    if destination != self_pubkey {
        Err(CrdsGossipError::BadPruneDestination)
    } else if receipt_time > now + prune_timeout {
        Err(CrdsGossipError::PruneMessageTimeout)
    } else {
        Ok(())
    }
}

/// The nodes whose contact info is among `labels`.
pub open spec fn purged_nodes(labels: Seq<CrdsValueLabel>, n: nat) -> Seq<Pubkey>
    decreases n,
{
    if n == 0 {
        Seq::empty()
    } else {
        let prev = purged_nodes(labels, (n - 1) as nat);
        match labels[n - 1] {
            CrdsValueLabel::ContactInfo(node) => prev.push(node),
            _ => prev,
        }
    }
}

/// After a peer asked not to be sent the records of `origins`, no record
/// by one of them goes to that peer, whatever the table holds and whatever
/// the caller retains.
pub proof fn lemma_pruned_origins_are_not_pushed(
    active: Seq<PeerView>,
    peer: Pubkey,
    origins: Seq<Pubkey>,
    j: int,
    since: Seq<CrdsEntry>,
    retain: Seq<bool>,
    now: u64,
    msg_timeout: u64,
    max_bytes: usize,
)
    requires
        0 <= j < active.len(),
        active[j].node == peer,
        since.len() <= usize::MAX,
        retain.len() == since.len(),
    ensures
        ({
            let plan = peer_plan(
                since,
                retain,
                with_pruned(active, peer, origins)[j],
                now,
                msg_timeout,
                max_bytes,
                since.len(),
            );
            forall|k: int|
                0 <= k < plan.sent.len() ==> !origins.contains(
                    since[(#[trigger] plan.sent[k]) as int].value.spec_pubkey(),
                )
        }),
{
    let pruned_peer = with_pruned(active, peer, origins)[j];
    let plan = peer_plan(since, retain, pruned_peer, now, msg_timeout, max_bytes, since.len());
    lemma_plan_respects_prunes(since, retain, pruned_peer, now, msg_timeout, max_bytes, since.len());
    lemma_with_origins(active[j].pruned, origins, origins.len());
    assert forall|k: int| #![trigger plan.sent[k]] 0 <= k < plan.sent.len() implies !origins.contains(
        since[plan.sent[k] as int].value.spec_pubkey(),
    ) by {
        let origin = since[plan.sent[k] as int].value.spec_pubkey();
        if origins.contains(origin) {
            let i = choose|i: int| 0 <= i < origins.len() && origins[i] == origin;
            assert(pruned_peer.pruned.contains(origins[i]));
        }
    }
}

/// A record whose hash a node knows does not come back to it by pull: the
/// filter that the node builds over the hashes it knows holds the hash, so
/// no response to that filter carries the record.
pub proof fn lemma_known_record_is_not_pulled(
    hashes: Seq<identity::Hash>,
    filter: CrdsFilter,
    partition: u64,
    num_partitions: u64,
    num_bits: nat,
    seed: u64,
    value: CrdsValue,
    records: Seq<CrdsEntry>,
    retain: Seq<bool>,
    limit: nat,
)
    requires
        filter.built_from(hashes, partition, num_partitions, num_bits, seed),
        hashes.contains(value.spec_hash()),
    ensures
        filter.spec_holds(value.spec_hash()),
        !response(records, retain, filter, limit, records.len()).contains(value),
{
    let bits0 = Seq::new(
        if num_bits == 0 {
            1
        } else {
            num_bits
        },
        |p: int| false,
    );
    let keys = filter.filter.spec_keys();
    lemma_filled(bits0, keys, hashes, partition, num_partitions, hashes.len());
    let i = choose|i: int| 0 <= i < hashes.len() && hashes[i] == value.spec_hash();
    assert(hashes[i] == value.spec_hash());
    lemma_response_excludes_held(records, retain, filter, limit, records.len());
    let out = response(records, retain, filter, limit, records.len());
    if out.contains(value) {
        let k = choose|k: int| 0 <= k < out.len() && out[k] == value;
        assert(!filter.spec_holds(out[k].spec_hash()));
    }
}

/// A record that a node purged does not come back to it by pull while the
/// node remembers the purge: the hash of the record is among those that the
/// node tells its peers it knows, so no response to a filter over them
/// carries the record.
pub proof fn lemma_purged_record_is_not_pulled_back(
    records: Seq<CrdsEntry>,
    purged: Seq<(identity::Hash, u64)>,
    failed: Seq<(identity::Hash, u64)>,
    now: u64,
    timeouts: CrdsTimeouts,
    k: int,
    filter: CrdsFilter,
    partition: u64,
    num_partitions: u64,
    num_bits: nat,
    seed: u64,
    peer_records: Seq<CrdsEntry>,
    retain: Seq<bool>,
    limit: nat,
)
    requires
        0 <= k < records.len(),
        purgeable(records, records[k], now, timeouts),
        filter.built_from(
            known_hashes(
                records.filter(|entry: CrdsEntry| !purgeable(records, entry, now, timeouts)),
                purged + records.filter(
                    |entry: CrdsEntry| purgeable(records, entry, now, timeouts),
                ).map_values(|entry: CrdsEntry| (entry.value.spec_hash(), now)),
                failed,
            ),
            partition,
            num_partitions,
            num_bits,
            seed,
        ),
    ensures
        !response(peer_records, retain, filter, limit, peer_records.len()).contains(
            records[k].value,
        ),
{
    let gone = |entry: CrdsEntry| purgeable(records, entry, now, timeouts);
    let kept = records.filter(|entry: CrdsEntry| !purgeable(records, entry, now, timeouts));
    let stamped = records.filter(gone).map_values(|entry: CrdsEntry| (entry.value.spec_hash(), now));
    let remembered = purged + stamped;
    let hashes = known_hashes(kept, remembered, failed);
    let hash = records[k].value.spec_hash();
    records.lemma_filter_contains(gone, k);
    let i = choose|i: int| 0 <= i < records.filter(gone).len() && records.filter(gone)[i] == records[k];
    assert(stamped[i] == (hash, now));
    assert(remembered[purged.len() + i] == (hash, now));
    let held = kept.map_values(|entry: CrdsEntry| entry.value.spec_hash());
    let told = remembered.map_values(|pair: (identity::Hash, u64)| pair.0);
    assert(told[purged.len() + i] == hash);
    assert(hashes[held.len() + purged.len() + i] == hash);
    lemma_known_record_is_not_pulled(
        hashes,
        filter,
        partition,
        num_partitions,
        num_bits,
        seed,
        records[k].value,
        peer_records,
        retain,
        limit,
    );
}

/// A record that was purged may come back when its author writes it anew:
/// once the purge has removed the record under a label, the table takes any
/// verified record for that label.
pub proof fn lemma_purged_label_can_return(
    records: Seq<CrdsEntry>,
    next_ordinal: u64,
    now: u64,
    timeouts: CrdsTimeouts,
    k: int,
    value: CrdsValue,
)
    requires
        well_formed(records, next_ordinal),
        0 <= k < records.len(),
        purgeable(records, records[k], now, timeouts),
        value.spec_verified(),
        value.spec_label() == records[k].value.spec_label(),
        next_ordinal < u64::MAX,
    ensures
        insert_outcome(
            records.filter(|entry: CrdsEntry| !purgeable(records, entry, now, timeouts)),
            next_ordinal,
            value,
        ) is Ok,
{
    let keep = |entry: CrdsEntry| !purgeable(records, entry, now, timeouts);
    let kept = records.filter(keep);
    let label = value.spec_label();
    if contains_label(kept, label) {
        let i = index_of(kept, label);
        assert(holds_at(kept, label, i));
        records.lemma_filter_pred(keep, i);
        assert(kept.contains(kept[i]));
        records.lemma_filter_contains_rev(keep, kept[i]);
        let m = choose|m: int| 0 <= m < records.len() && records[m] == kept[i];
        assert(holds_at(records, label, m));
        assert(holds_at(records, label, k));
        lemma_index_of(records, next_ordinal, label, m);
        lemma_index_of(records, next_ordinal, label, k);
    }
}

impl CrdsGossip {
    /// A gossip with an empty table, and the limits given.
    pub fn new(push_config: PushConfig, pull_config: PullConfig) -> (gossip: CrdsGossip)
        ensures
            gossip.crds.records() == Seq::<CrdsEntry>::empty(),
            gossip.crds.spec_next_ordinal() == 0,
            gossip.push.active() == Seq::<PeerView>::empty(),
            gossip.push.received() == Seq::<ReceivedView>::empty(),
            gossip.push.spec_config() == push_config,
            gossip.pull.spec_config() == pull_config,
            gossip.pull.spec_failed_inserts() == Seq::<(identity::Hash, u64)>::empty(),
    {
        CrdsGossip {
            crds: Crds::new(),
            push: CrdsGossipPush::new(push_config),
            pull: CrdsGossipPull::new(pull_config),
        }
    }

    /// Takes a prune message: `peer` asks this node, at the time `now` and as
    /// `destination`, not to be sent the records of `origins`; the message
    /// arrived at `receipt_time`. A message meant for another node is
    /// answered with `BadPruneDestination`, one that arrived too late with
    /// `PruneMessageTimeout`; either leaves the node as it was.
    pub fn process_prune_msg(
        &mut self,
        self_pubkey: &Pubkey,
        peer: &Pubkey,
        destination: &Pubkey,
        origins: &Vec<Pubkey>,
        now: u64,
        receipt_time: u64,
    ) -> (result: Result<(), CrdsGossipError>)
        ensures
            result == prune_outcome(
                *self_pubkey,
                *destination,
                now,
                receipt_time,
                old(self).push.spec_config().prune_timeout,
            ),
            final(self).crds == old(self).crds,
            final(self).pull == old(self).pull,
            final(self).push.received() == old(self).push.received(),
            final(self).push.spec_cursor() == old(self).push.spec_cursor(),
            final(self).push.spec_config() == old(self).push.spec_config(),
            final(self).push.active() == if result is Ok {
                with_pruned(old(self).push.active(), *peer, origins@)
            } else {
                old(self).push.active()
            },
    {
        if !destination.same(self_pubkey) {
            return Err(CrdsGossipError::BadPruneDestination);
        }
        let timeout = self.push.prune_timeout();
        let late = if timeout <= u64::MAX - now {
            receipt_time > now + timeout
        } else {
            false
        };
        if late {
            return Err(CrdsGossipError::PruneMessageTimeout);
        }
        self.push.process_prune_msg(peer, origins);
        Ok(())
    }

    /// Draws the peers to push to anew, from the nodes that the table knows
    /// and the ping cache finds verified at time `now`, each in proportion
    /// to a weight that grows with its stake and is never zero. Returns the
    /// challenges to send.
    pub fn refresh_push_active_set(
        &mut self,
        self_pubkey: &Pubkey,
        stakes: &StakeMap,
        ping_cache: &mut PingCache,
        now: u64,
        seed: u64,
    ) -> (pings: Vec<Ping>)
        ensures
            final(ping_cache).spec_ttl() == old(ping_cache).spec_ttl(),
            final(ping_cache).spec_rate_limit_delay() == old(ping_cache).spec_rate_limit_delay(),
            final(ping_cache).spec_capacity() == old(ping_cache).spec_capacity(),
            final(self).crds == old(self).crds,
            final(self).pull == old(self).pull,
            final(self).push.received() == old(self).push.received(),
            final(self).push.spec_cursor() == old(self).push.spec_cursor(),
            final(self).push.spec_config() == old(self).push.spec_config(),
            ({
                let nodes = peer_infos(
                    old(self).crds.records(),
                    *self_pubkey,
                    old(self).crds.records().len(),
                );
                let checked = check_peers(
                    old(ping_cache).spec_entries(),
                    nodes,
                    now,
                    old(ping_cache).spec_ttl(),
                    old(ping_cache).spec_rate_limit_delay(),
                    old(ping_cache).spec_capacity(),
                    seed,
                    nodes.len(),
                );
                let picked = sample(
                    peer_weights(checked.live, *stakes, stakes.spec_get(*self_pubkey)),
                    draw(seed, nodes.len()),
                    old(self).push.spec_config().push_fanout as nat,
                ).picked;
                &&& final(ping_cache).spec_entries() == checked.entries
                &&& pings@ == checked.pings
                &&& final(self).push.active() == refreshed(
                    old(self).push.active(),
                    checked.live,
                    picked,
                    old(self).push.spec_cursor(),
                    picked.len(),
                )
            }),
    {
        let nodes = gossip_nodes(&self.crds, self_pubkey);
        let (live, pings) = verified_peers(&nodes, ping_cache, now, seed);
        let weights = weights_of(&live, stakes, self_pubkey);
        self.push.refresh(&live, weights, draw_at(seed, nodes.len()));
        pings
    }

    /// The timeouts by which the node `self_pubkey` purges its table.
    pub fn make_timeouts<'a>(
        &self,
        self_pubkey: Pubkey,
        stakes: &'a StakeMap,
        epoch_duration: u64,
    ) -> (timeouts: CrdsTimeouts<'a>)
        ensures
            timeouts.pubkey == self_pubkey,
            timeouts.stakes == stakes,
            timeouts.extended_timeout == if self.pull.spec_config().crds_timeout < epoch_duration {
                epoch_duration
            } else {
                self.pull.spec_config().crds_timeout
            },
            forall|kind: crate::crds_data::CrdsKind| #[trigger]
                timeouts.spec_kind_timeout(kind) == if stakes.spec_all_zero() {
                    timeouts.extended_timeout
                } else {
                    self.pull.spec_config().crds_timeout
                },
    {
        CrdsTimeouts::new(self_pubkey, self.pull.crds_timeout(), epoch_duration, stakes)
    }

    /// Purges the table at time `now`, and has the push side forget the
    /// nodes whose contact info was purged. The hashes of purged and of
    /// refused records are forgotten once they are old. Returns the labels
    /// of the purged records.
    pub fn purge(&mut self, now: u64, timeouts: &CrdsTimeouts) -> (labels: Vec<CrdsValueLabel>)
        ensures
            final(self).crds.records() == old(self).crds.records().filter(
                |entry: CrdsEntry| !purgeable(old(self).crds.records(), entry, now, *timeouts),
            ),
            labels@ == old(self).crds.records().filter(
                |entry: CrdsEntry| purgeable(old(self).crds.records(), entry, now, *timeouts),
            ).map_values(|entry: CrdsEntry| entry.value.spec_label()),
            final(self).crds.spec_next_ordinal() == old(self).crds.spec_next_ordinal(),
            final(self).crds.spec_stats() == old(self).crds.spec_stats(),
            ({
                let min_purged = if now >= PURGED_RETENTION_TIMEOUTS * old(
                    self,
                ).pull.spec_config().crds_timeout {
                    (now - PURGED_RETENTION_TIMEOUTS * old(self).pull.spec_config().crds_timeout) as u64
                } else {
                    0
                };
                final(self).crds.spec_purged() == (old(self).crds.spec_purged() + old(
                    self,
                ).crds.records().filter(
                    |entry: CrdsEntry| purgeable(old(self).crds.records(), entry, now, *timeouts),
                ).map_values(|entry: CrdsEntry| (entry.value.spec_hash(), now))).filter(
                    |pair: (identity::Hash, u64)| pair.1 >= min_purged,
                )
            }),
            final(self).pull.spec_config() == old(self).pull.spec_config(),
            final(self).pull.spec_failed_inserts() == old(self).pull.spec_failed_inserts().filter(
                |pair: (identity::Hash, u64)|
                    pair.1 >= if now >= FAILED_INSERTS_RETENTION_MS {
                        (now - FAILED_INSERTS_RETENTION_MS) as u64
                    } else {
                        0
                    },
            ),
            final(self).push.spec_cursor() == old(self).push.spec_cursor(),
            final(self).push.spec_config() == old(self).push.spec_config(),
            final(self).push.active() == old(self).push.active().filter(
                |peer: PeerView| !purged_nodes(labels@, labels@.len()).contains(peer.node),
            ),
            final(self).push.received() == old(self).push.received().filter(
                |entry: ReceivedView| !purged_nodes(labels@, labels@.len()).contains(entry.origin),
            ),
    {
        let labels = self.crds.purge(now, timeouts);
        let timeout = self.pull.crds_timeout();
        let min_purged: u64 = if (now as u128) >= (PURGED_RETENTION_TIMEOUTS as u128) * (
        timeout as u128) {
            (now as u128 - (PURGED_RETENTION_TIMEOUTS as u128) * (timeout as u128)) as u64
        } else {
            0
        };
        self.crds.trim_purged(min_purged);
        let min_failed: u64 = if now >= FAILED_INSERTS_RETENTION_MS {
            now - FAILED_INSERTS_RETENTION_MS
        } else {
            0
        };
        self.pull.trim_failed_inserts(min_failed);
        let mut nodes: Vec<Pubkey> = Vec::new();
        let mut i: usize = 0;
        while i < labels.len()
            invariant
                i <= labels@.len(),
                nodes@ == purged_nodes(labels@, i as nat),
            decreases labels@.len() - i,
        {
            match labels[i] {
                CrdsValueLabel::ContactInfo(node) => {
                    nodes.push(node);
                },
                _ => {},
            }
            i += 1;
        }
        self.push.forget_nodes(&nodes);
        labels
    }

    /// Takes the records that peers pushed; see
    /// `CrdsGossipPush::process_push_message`.
    pub fn process_push_message(
        &mut self,
        messages: &Vec<(Pubkey, Vec<CrdsValue>)>,
        now: u64,
    ) -> (origins: Vec<
        Pubkey,
    >)
        ensures
            final(self).pull == old(self).pull,
            final(self).push.active() == old(self).push.active(),
            final(self).push.spec_cursor() == old(self).push.spec_cursor(),
            final(self).push.spec_config() == old(self).push.spec_config(),
            final(self).crds.spec_purged() == old(self).crds.spec_purged(),
            ({
                let start = PushState {
                    records: old(self).crds.records(),
                    next_ordinal: old(self).crds.spec_next_ordinal(),
                    stats: old(self).crds.spec_stats(),
                    received: old(self).push.received(),
                    origins: Seq::empty(),
                };
                let end = take_messages(
                    start,
                    messages@,
                    now,
                    old(self).push.spec_config().msg_timeout,
                    messages@.len(),
                );
                &&& final(self).crds.records() == end.records
                &&& final(self).crds.spec_next_ordinal() == end.next_ordinal
                &&& final(self).crds.spec_stats() == end.stats
                &&& final(self).push.received() == end.received
                &&& origins@ == end.origins
            }),
    {
        self.push.process_push_message(&mut self.crds, messages, now)
    }

    /// The records to push, and to whom; see
    /// `CrdsGossipPush::new_push_messages`.
    pub fn new_push_messages<F: Fn(&CrdsValue) -> bool>(
        &mut self,
        now: u64,
        should_retain: F,
    ) -> (result: (
        Vec<CrdsValue>,
        Vec<(Pubkey, Vec<usize>)>,
        usize,
    ))
        requires
            forall|value: &CrdsValue| should_retain.requires((value,)),
        ensures
            final(self).crds == old(self).crds,
            final(self).pull == old(self).pull,
            final(self).push.received() == old(self).push.received(),
            final(self).push.spec_config() == old(self).push.spec_config(),
            final(self).push.spec_cursor() == old(self).crds.spec_next_ordinal(),
            ({
                let crds = old(self).crds;
                let least = least_cursor(
                    old(self).push.active(),
                    crds.spec_next_ordinal(),
                    old(self).push.active().len(),
                );
                let since = crds.records().filter(|entry: CrdsEntry| entry.ordinal >= least);
                &&& result.0@ == since.map_values(|entry: CrdsEntry| entry.value)
                &&& exists|retain: Seq<bool>|
                    #![trigger retained_by(should_retain, since, retain)]
                    retained_by(should_retain, since, retain) && push_outcome(
                        old(self).push.active(),
                        final(self).push.active(),
                        result.1@,
                        result.2,
                        since,
                        retain,
                        now,
                        old(self).push.spec_config(),
                        crds.spec_next_ordinal(),
                    )
            }),
    {
        self.push.new_push_messages(&self.crds, now, should_retain)
    }

    /// Tells which peers to ask to stop sending the records of which
    /// authors; see `CrdsGossipPush::prune_received_cache`.
    pub fn prune_received_cache(
        &mut self,
        self_pubkey: &Pubkey,
        origins: &Vec<Pubkey>,
        stakes: &StakeMap,
    ) -> (prunes: Vec<
        (Pubkey, Vec<Pubkey>),
    >)
        ensures
            final(self).crds == old(self).crds,
            final(self).pull == old(self).pull,
            final(self).push.active() == old(self).push.active(),
            final(self).push.spec_cursor() == old(self).push.spec_cursor(),
            final(self).push.spec_config() == old(self).push.spec_config(),
            groups_distinct(prunes@),
            ({
                let pruned = prune_origins(
                    old(self).push.received(),
                    origins@,
                    *stakes,
                    *self_pubkey,
                    origins@.len(),
                );
                &&& final(self).push.received() == pruned.received
                &&& forall|sender: Pubkey, origin: Pubkey|
                    #![trigger has_pair(prunes@, sender, origin)]
                    has_pair(prunes@, sender, origin) <==> pruned.pairs.contains((sender, origin))
            }),
    {
        self.push.prune_received_cache(self_pubkey, origins, stakes)
    }

    /// The requests to make of peers; see
    /// `CrdsGossipPull::new_pull_request`.
    pub fn new_pull_request(
        &self,
        self_pubkey: &Pubkey,
        now: u64,
        stakes: &StakeMap,
        max_filter_bytes: usize,
        ping_cache: &mut PingCache,
        seed: u64,
    ) -> (result: (
        Result<Vec<(ContactInfo, CrdsFilter)>, CrdsGossipError>,
        Vec<Ping>,
        Option<CrdsValue>,
    ))
        ensures
            result.2 == match self.crds.spec_get(CrdsValueLabel::ContactInfo(*self_pubkey)) {
                Some(entry) => Some(entry.value),
                None => None,
            },
            final(ping_cache).spec_ttl() == old(ping_cache).spec_ttl(),
            final(ping_cache).spec_rate_limit_delay() == old(ping_cache).spec_rate_limit_delay(),
            final(ping_cache).spec_capacity() == old(ping_cache).spec_capacity(),
            ({
                let nodes = peer_infos(self.crds.records(), *self_pubkey, self.crds.records().len());
                let checked = check_peers(
                    old(ping_cache).spec_entries(),
                    nodes,
                    now,
                    old(ping_cache).spec_ttl(),
                    old(ping_cache).spec_rate_limit_delay(),
                    old(ping_cache).spec_capacity(),
                    seed,
                    nodes.len(),
                );
                let hashes = known_hashes(
                    self.crds.records(),
                    self.crds.spec_purged(),
                    self.pull.spec_failed_inserts(),
                );
                let parts = partitions_for(hashes.len(), max_filter_bytes);
                let count = if self.pull.spec_config().num_pull_requests < parts {
                    self.pull.spec_config().num_pull_requests as nat
                } else {
                    parts
                };
                &&& final(ping_cache).spec_entries() == checked.entries
                &&& result.1@ == checked.pings
                &&& match result.0 {
                    Ok(requests) => checked.live.len() > 0 && pull_requests_match(
                        requests@,
                        checked.live,
                        peer_weights(checked.live, *stakes, stakes.spec_get(*self_pubkey)),
                        hashes,
                        parts as u64,
                        count,
                        filter_bits(max_filter_bytes),
                        draw(seed, nodes.len()),
                    ),
                    Err(e) => e == CrdsGossipError::NoPeers && checked.live.len() == 0,
                }
            }),
    {
        self.pull.new_pull_request(
            &self.crds,
            self_pubkey,
            now,
            stakes,
            max_filter_bytes,
            ping_cache,
            seed,
        )
    }

    /// Answers the requests of peers; see
    /// `CrdsGossipPull::generate_pull_responses`.
    pub fn generate_pull_responses<F: Fn(&CrdsValue) -> bool>(
        &self,
        requests: &Vec<PullRequest>,
        output_size_limit: usize,
        now: u64,
        should_retain: F,
    ) -> (responses: Vec<Vec<CrdsValue>>)
        requires
            forall|value: &CrdsValue| should_retain.requires((value,)),
        ensures
            responses@.len() == requests@.len(),
            exists|retain: Seq<bool>|
                #![trigger retained_by(should_retain, self.crds.records(), retain)]
                retained_by(should_retain, self.crds.records(), retain) && forall|i: int|
                    0 <= i < requests@.len() ==> (#[trigger] responses@[i])@ == respond_all(
                        self.crds.records(),
                        retain,
                        requests@,
                        output_size_limit as nat,
                        now,
                        self.pull.spec_config().crds_timeout,
                        requests@.len(),
                    ).responses[i],
    {
        self.pull.generate_pull_responses(
            &self.crds,
            requests,
            output_size_limit,
            now,
            should_retain,
        )
    }

    /// Sorts the records of pull responses; see
    /// `CrdsGossipPull::filter_pull_responses`.
    pub fn filter_pull_responses(
        &self,
        timeouts: &CrdsTimeouts,
        responses: &Vec<CrdsValue>,
        now: u64,
    ) -> (result: (
        Vec<CrdsValue>,
        Vec<CrdsValue>,
        Vec<identity::Hash>,
    ))
        ensures
            result.0@ == responses@.filter(
                |value: CrdsValue|
                    insert_outcome(self.crds.records(), self.crds.spec_next_ordinal(), value) is Ok
                        && fresh(value, now, *timeouts),
            ),
            result.1@ == responses@.filter(
                |value: CrdsValue|
                    insert_outcome(self.crds.records(), self.crds.spec_next_ordinal(), value) is Ok
                        && !fresh(value, now, *timeouts),
            ),
            result.2@ == responses@.filter(
                |value: CrdsValue|
                    !(insert_outcome(self.crds.records(), self.crds.spec_next_ordinal(), value)
                        is Ok),
            ).map_values(|value: CrdsValue| value.spec_hash()),
    {
        CrdsGossipPull::filter_pull_responses(&self.crds, timeouts, responses, now)
    }

    /// Takes the sorted records of pull responses; see
    /// `CrdsGossipPull::process_pull_responses`.
    pub fn process_pull_responses(
        &mut self,
        ping_cache: &mut PingCache,
        accepted: &Vec<CrdsValue>,
        expired_values: &Vec<CrdsValue>,
        failed: &Vec<identity::Hash>,
        now: u64,
        stats: &mut ProcessPullStats,
        seed: u64,
    ) -> (pings: Vec<Ping>)
        ensures
            final(ping_cache).spec_ttl() == old(ping_cache).spec_ttl(),
            final(ping_cache).spec_rate_limit_delay() == old(ping_cache).spec_rate_limit_delay(),
            final(ping_cache).spec_capacity() == old(ping_cache).spec_capacity(),
            final(self).push == old(self).push,
            final(self).crds.spec_purged() == old(self).crds.spec_purged(),
            final(self).pull.spec_config() == old(self).pull.spec_config(),
            final(self).pull.spec_failed_inserts() == old(self).pull.spec_failed_inserts()
                + failed@.map_values(|hash: identity::Hash| (hash, now)),
            ({
                let start = PullState {
                    records: old(self).crds.records(),
                    next_ordinal: old(self).crds.spec_next_ordinal(),
                    stats: old(self).crds.spec_stats(),
                    entries: old(ping_cache).spec_entries(),
                    pings: Seq::empty(),
                    success: 0,
                };
                let end = take_responses(
                    start,
                    accepted@,
                    now,
                    old(ping_cache).spec_ttl(),
                    old(ping_cache).spec_rate_limit_delay(),
                    old(ping_cache).spec_capacity(),
                    seed,
                    accepted@.len(),
                );
                &&& final(self).crds.records() == end.records
                &&& final(self).crds.spec_next_ordinal() == end.next_ordinal
                &&& final(self).crds.spec_stats() == end.stats
                &&& final(ping_cache).spec_entries() == end.entries
                &&& pings@ == end.pings
                &&& final(stats).success == capped_sum(old(stats).success, end.success)
            }),
            final(stats).failed_insert == capped_sum(old(stats).failed_insert, failed@.len()),
            final(stats).failed_timeout == capped_sum(
                old(stats).failed_timeout,
                expired_values@.len(),
            ),
    {
        self.pull.process_pull_responses(
            &mut self.crds,
            ping_cache,
            accepted,
            expired_values,
            failed,
            now,
            stats,
            seed,
        )
    }
}

impl Default for CrdsGossip {
    fn default() -> (gossip: CrdsGossip)
        ensures
            gossip.crds.records() == Seq::<CrdsEntry>::empty(),
            gossip.push.active() == Seq::<PeerView>::empty(),
            gossip.push.spec_config() == PushConfig::spec_default(),
            gossip.pull.spec_config() == PullConfig::spec_default(),
    {
        CrdsGossip::new(PushConfig::default(), PullConfig::default())
    }
}

} // verus!
