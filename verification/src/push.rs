//! The push side of a node: the peers it pushes to, what goes to each, who
//! delivered what, and which deliveries are asked to stop.

use crate::crds::{
    count_route, insert_outcome, insert_records, Crds, CrdsEntry, CrdsError, CrdsStats, GossipRoute,
};
use crate::crds_data::ContactInfo;
use crate::crds_value::CrdsValue;
use crate::identity::{lemma_bytes_less_asymmetric, lemma_bytes_less_transitive, Pubkey};
use crate::sampling::{sample, sample_indices};
use crate::stakes::StakeMap;
use vstd::prelude::*;

verus! {

pub const CRDS_GOSSIP_PUSH_FANOUT: usize = 9;

pub const CRDS_GOSSIP_PUSH_MSG_TIMEOUT_MS: u64 = 30000;

pub const CRDS_GOSSIP_PRUNE_MSG_TIMEOUT_MS: u64 = 500;

pub const PUSH_MESSAGE_MAX_PAYLOAD_SIZE: usize = 1188;

pub const RECEIVED_CACHE_CAPACITY: usize = 2048;

pub const RECEIVED_CACHE_SENDERS: usize = 50;

/// How many of the best senders of an author are never pruned.
pub const MIN_INGRESS_NODES: usize = 2;

/// The share of stake, in hundredths, that the senders kept for an author
/// have to hold together.
pub const PRUNE_STAKE_THRESHOLD_PCT: u64 = 15;

/// A peer that this node pushes to.
#[derive(Debug)]
pub struct ActivePeer {
    pub node: Pubkey,
    /// The authors whose records the peer asked not to be sent.
    pub pruned: Vec<Pubkey>,
    /// The ordinal from which on records are still to be pushed to the peer.
    pub cursor: u64,
}

/// An `ActivePeer` as a plain value.
pub struct PeerView {
    pub node: Pubkey,
    pub pruned: Seq<Pubkey>,
    pub cursor: u64,
}

impl View for ActivePeer {
    type V = PeerView;

    open spec fn view(&self) -> PeerView {
        PeerView { node: self.node, pruned: self.pruned@, cursor: self.cursor }
    }
}

/// How often a peer was the first to deliver a record of some author.
#[derive(Clone, Copy, Debug)]
pub struct SenderScore {
    pub node: Pubkey,
    pub score: u64,
}

/// The peers that delivered records of one author.
#[derive(Debug)]
pub struct ReceivedEntry {
    pub origin: Pubkey,
    pub senders: Vec<SenderScore>,
    /// How many records of the author were taken.
    pub num_upserts: u64,
}

/// A `ReceivedEntry` as a plain value.
pub struct ReceivedView {
    pub origin: Pubkey,
    pub senders: Seq<SenderScore>,
    pub num_upserts: u64,
}

impl View for ReceivedEntry {
    type V = ReceivedView;

    open spec fn view(&self) -> ReceivedView {
        ReceivedView { origin: self.origin, senders: self.senders@, num_upserts: self.num_upserts }
    }
}

/// The push side of a node: the peers it pushes to, and who delivered what
/// to it.
pub struct CrdsGossipPush {
    active_set: Vec<ActivePeer>,
    received_cache: Vec<ReceivedEntry>,
    cursor: u64,
    config: PushConfig,
}

/// The limits of the push side.
#[derive(Clone, Copy, Debug, PartialEq, Eq, Structural)]
pub struct PushConfig {
    /// The most peers to push to.
    pub push_fanout: usize,
    /// How far a record's wallclock may lie from the present for the record
    /// to be pushed or taken, in milliseconds.
    pub msg_timeout: u64,
    /// How old a prune message may be, in milliseconds.
    pub prune_timeout: u64,
    /// The most bytes of records in one message.
    pub max_bytes: usize,
}

impl PushConfig {
    pub open spec fn spec_default() -> PushConfig {
        PushConfig {
            push_fanout: CRDS_GOSSIP_PUSH_FANOUT,
            msg_timeout: CRDS_GOSSIP_PUSH_MSG_TIMEOUT_MS,
            prune_timeout: CRDS_GOSSIP_PRUNE_MSG_TIMEOUT_MS,
            max_bytes: PUSH_MESSAGE_MAX_PAYLOAD_SIZE,
        }
    }
}

impl Default for PushConfig {
    fn default() -> (config: PushConfig)
        ensures
            config == PushConfig::spec_default(),
    {
        PushConfig {
            push_fanout: CRDS_GOSSIP_PUSH_FANOUT,
            msg_timeout: CRDS_GOSSIP_PUSH_MSG_TIMEOUT_MS,
            prune_timeout: CRDS_GOSSIP_PRUNE_MSG_TIMEOUT_MS,
            max_bytes: PUSH_MESSAGE_MAX_PAYLOAD_SIZE,
        }
    }
}

/// Whether a wallclock lies within `msg_timeout` of `now`.
pub open spec fn in_window(wallclock: u64, now: u64, msg_timeout: u64) -> bool {
    now - msg_timeout <= wallclock <= now + msg_timeout
}

/// Whether a record is to be pushed to a peer: it was taken at or after the
/// peer's cursor, its wallclock is near the present, the caller retains
/// it, the peer did not write it, and did not prune its author.
pub open spec fn wanted_by(
    peer: PeerView,
    entry: CrdsEntry,
    retained: bool,
    now: u64,
    msg_timeout: u64,
) -> bool {
    &&& entry.ordinal >= peer.cursor
    &&& in_window(entry.value.spec_wallclock(), now, msg_timeout)
    &&& retained
    &&& entry.value.spec_pubkey() != peer.node
    &&& !peer.pruned.contains(entry.value.spec_pubkey())
}

/// What goes to one peer: the places of the records, their bytes, and, where
/// the message was full, the ordinal of the record that did not fit.
pub struct PeerPlan {
    pub sent: Seq<usize>,
    pub bytes: nat,
    pub stopped_at: Option<u64>,
}

/// What of the first `n` records goes to `peer`: every record it wants, in
/// order, up to the first that would take the message over `max_bytes`.
pub open spec fn peer_plan(
    since: Seq<CrdsEntry>,
    retain: Seq<bool>,
    peer: PeerView,
    now: u64,
    msg_timeout: u64,
    max_bytes: usize,
    n: nat,
) -> PeerPlan
    decreases n,
{
    if n == 0 {
        PeerPlan { sent: Seq::empty(), bytes: 0, stopped_at: None }
    } else {
        let prev = peer_plan(since, retain, peer, now, msg_timeout, max_bytes, (n - 1) as nat);
        let entry = since[n - 1];
        if prev.stopped_at.is_some() || !wanted_by(peer, entry, retain[n - 1], now, msg_timeout) {
            prev
        } else if prev.bytes + entry.value.spec_serialized_size() > max_bytes {
            PeerPlan { stopped_at: Some(entry.ordinal), ..prev }
        } else {
            PeerPlan {
                sent: prev.sent.push((n - 1) as usize),
                bytes: prev.bytes + entry.value.spec_serialized_size(),
                stopped_at: None,
            }
        }
    }
}

/// The peer after the plan was carried out: its cursor stands at the record
/// that did not fit, or past the last record of the table.
pub open spec fn peer_after(peer: PeerView, plan: PeerPlan, next_ordinal: u64) -> PeerView {
    PeerView {
        cursor: match plan.stopped_at {
            Some(ordinal) => ordinal,
            None => next_ordinal,
        },
        ..peer
    }
}

/// The least cursor among the peers, `next_ordinal` where there is none.
pub open spec fn least_cursor(active: Seq<PeerView>, next_ordinal: u64, n: nat) -> u64
    decreases n,
{
    if n == 0 {
        next_ordinal
    } else {
        let rest = least_cursor(active, next_ordinal, (n - 1) as nat);
        if active[n - 1].cursor < rest {
            active[n - 1].cursor
        } else {
            rest
        }
    }
}

/// How many records go out to the first `n` peers together.
pub open spec fn total_sent(
    since: Seq<CrdsEntry>,
    retain: Seq<bool>,
    active: Seq<PeerView>,
    now: u64,
    msg_timeout: u64,
    max_bytes: usize,
    n: nat,
) -> nat
    decreases n,
{
    if n == 0 {
        0
    } else {
        total_sent(since, retain, active, now, msg_timeout, max_bytes, (n - 1) as nat) + peer_plan(
            since,
            retain,
            active[n - 1],
            now,
            msg_timeout,
            max_bytes,
            since.len(),
        ).sent.len()
    }
}

/// The authors of `before`, then those of the first `n` of `origins` that
/// were not named yet, in order.
pub open spec fn with_origins(before: Seq<Pubkey>, origins: Seq<Pubkey>, n: nat) -> Seq<Pubkey>
    decreases n,
{
    if n == 0 {
        before
    } else {
        let prev = with_origins(before, origins, (n - 1) as nat);
        if prev.contains(origins[n - 1]) {
            prev
        } else {
            prev.push(origins[n - 1])
        }
    }
}

/// `with_origins` names every author it was given, and keeps those it held.
pub proof fn lemma_with_origins(before: Seq<Pubkey>, origins: Seq<Pubkey>, n: nat)
    requires
        n <= origins.len(),
    ensures
        forall|i: int| 0 <= i < n ==> with_origins(before, origins, n).contains(#[trigger] origins[i]),
        forall|key: Pubkey| before.contains(key) ==> with_origins(before, origins, n).contains(key),
        forall|key: Pubkey|
            with_origins(before, origins, n).contains(key) ==> before.contains(key) || exists|
                i: int,
            |
                0 <= i < n && origins[i] == key,
    decreases n,
{
    if n > 0 {
        lemma_with_origins(before, origins, (n - 1) as nat);
        let prev = with_origins(before, origins, (n - 1) as nat);
        let cur = with_origins(before, origins, n);
        if prev.contains(origins[n - 1]) {
        } else {
            assert(cur[prev.len() as int] == origins[n - 1]);
            assert forall|key: Pubkey| prev.contains(key) implies cur.contains(key) by {
                let k = choose|k: int| 0 <= k < prev.len() && prev[k] == key;
                assert(cur[k] == key);
            }
            assert forall|key: Pubkey| cur.contains(key) implies before.contains(key) || exists|
                i: int,
            |
                0 <= i < n && origins[i] == key by {
                let k = choose|k: int| 0 <= k < cur.len() && cur[k] == key;
                if k < prev.len() {
                    assert(prev[k] == key);
                    assert(prev.contains(key));
                } else {
                    assert(origins[n - 1] == key);
                }
            }
        }
        assert forall|i: int| 0 <= i < n implies cur.contains(#[trigger] origins[i]) by {
            if i < n - 1 {
                assert(prev.contains(origins[i]));
            }
        }
    }
}

/// The peers after `peer` asked not to be sent the records of `origins`.
pub open spec fn with_pruned(
    active: Seq<PeerView>,
    peer: Pubkey,
    origins: Seq<Pubkey>,
) -> Seq<PeerView> {
    Seq::new(
        active.len(),
        |i: int|
            if active[i].node == peer {
                PeerView {
                    pruned: with_origins(active[i].pruned, origins, origins.len()),
                    ..active[i]
                }
            } else {
                active[i]
            },
    )
}

/// Whether no node stands twice among the peers.
pub open spec fn peers_distinct(active: Seq<PeerView>) -> bool {
    forall|i: int, j: int|
        #![trigger active[i], active[j]]
        0 <= i < j < active.len() ==> active[i].node != active[j].node
}

/// No record that goes to a peer is by an author the peer has pruned, or by
/// the peer itself; each was taken at or after the peer's cursor.
pub proof fn lemma_plan_respects_prunes(
    since: Seq<CrdsEntry>,
    retain: Seq<bool>,
    peer: PeerView,
    now: u64,
    msg_timeout: u64,
    max_bytes: usize,
    n: nat,
)
    requires
        n <= since.len() <= usize::MAX,
        retain.len() == since.len(),
    ensures
        ({
            let plan = peer_plan(since, retain, peer, now, msg_timeout, max_bytes, n);
            forall|k: int|
                #![trigger plan.sent[k]]
                0 <= k < plan.sent.len() ==> {
                    let i = plan.sent[k];
                    &&& i < n
                    &&& !peer.pruned.contains(since[i as int].value.spec_pubkey())
                    &&& since[i as int].value.spec_pubkey() != peer.node
                    &&& since[i as int].ordinal >= peer.cursor
                    &&& retain[i as int]
                }
        }),
    decreases n,
{
    if n > 0 {
        lemma_plan_respects_prunes(since, retain, peer, now, msg_timeout, max_bytes, (n - 1) as nat);
        let prev = peer_plan(since, retain, peer, now, msg_timeout, max_bytes, (n - 1) as nat);
        let cur = peer_plan(since, retain, peer, now, msg_timeout, max_bytes, n);
        assert forall|k: int| #![trigger cur.sent[k]] 0 <= k < cur.sent.len() implies {
            let i = cur.sent[k];
            &&& i < n
            &&& !peer.pruned.contains(since[i as int].value.spec_pubkey())
            &&& since[i as int].value.spec_pubkey() != peer.node
            &&& since[i as int].ordinal >= peer.cursor
            &&& retain[i as int]
        } by {
            if k < prev.sent.len() {
                assert(cur.sent[k] == prev.sent[k]);
            } else {
                assert(cur.sent[k] == (n - 1) as usize);
                assert(wanted_by(peer, since[n - 1], retain[n - 1], now, msg_timeout));
            }
        }
    }
}

/// Whether `retain` tells, record by record, what the caller's predicate
/// answered.
pub open spec fn retained_by<F: Fn(&CrdsValue) -> bool>(
    should_retain: F,
    since: Seq<CrdsEntry>,
    retain: Seq<bool>,
) -> bool {
    &&& retain.len() == since.len()
    &&& forall|i: int|
        0 <= i < since.len() ==> should_retain.ensures((&(#[trigger] since[i]).value,), retain[i])
}

/// Whether `lists`, `num_pushed` and the peers `after` are what pushing the
/// records `since` to the peers `before` gives: to each peer the records of
/// its plan, each peer's cursor moved on, and the count of all that goes
/// out, as far as a `usize` can say.
pub open spec fn push_outcome(
    before: Seq<PeerView>,
    after: Seq<PeerView>,
    lists: Seq<(Pubkey, Vec<usize>)>,
    num_pushed: usize,
    since: Seq<CrdsEntry>,
    retain: Seq<bool>,
    now: u64,
    config: PushConfig,
    next_ordinal: u64,
) -> bool {
    &&& after.len() == before.len()
    &&& lists.len() == before.len()
    &&& forall|j: int|
        #![trigger before[j]]
        0 <= j < before.len() ==> {
            let plan = peer_plan(
                since,
                retain,
                before[j],
                now,
                config.msg_timeout,
                config.max_bytes,
                since.len(),
            );
            &&& lists[j].0 == before[j].node
            &&& lists[j].1@ == plan.sent
            &&& after[j] == peer_after(before[j], plan, next_ordinal)
        }
    &&& num_pushed == ({
        let total = total_sent(
            since,
            retain,
            before,
            now,
            config.msg_timeout,
            config.max_bytes,
            before.len(),
        );
        if total > usize::MAX {
            usize::MAX as nat
        } else {
            total
        }
    })
}

pub open spec fn origin_at(received: Seq<ReceivedView>, origin: Pubkey, k: int) -> bool {
    0 <= k < received.len() && received[k].origin == origin
}

pub open spec fn has_origin(received: Seq<ReceivedView>, origin: Pubkey) -> bool {
    exists|k: int| origin_at(received, origin, k)
}

pub open spec fn origin_index(received: Seq<ReceivedView>, origin: Pubkey) -> int {
    choose|k: int| origin_at(received, origin, k)
}

pub open spec fn sender_at(senders: Seq<SenderScore>, node: Pubkey, k: int) -> bool {
    0 <= k < senders.len() && senders[k].node == node
}

pub open spec fn has_sender(senders: Seq<SenderScore>, node: Pubkey) -> bool {
    exists|k: int| sender_at(senders, node, k)
}

pub open spec fn sender_index(senders: Seq<SenderScore>, node: Pubkey) -> int {
    choose|k: int| sender_at(senders, node, k)
}

/// The senders of an author after `sender` delivered one of its records:
/// a first delivery raises the sender's score, a repeated one only lists the
/// sender; a sender is newly listed while there is room.
pub open spec fn senders_with(
    senders: Seq<SenderScore>,
    sender: Pubkey,
    first: bool,
) -> Seq<SenderScore> {
    if has_sender(senders, sender) {
        let k = sender_index(senders, sender);
        if first && senders[k].score < u64::MAX {
            senders.update(k, SenderScore { node: sender, score: (senders[k].score + 1) as u64 })
        } else {
            senders
        }
    } else if senders.len() < RECEIVED_CACHE_SENDERS {
        senders.push(
            SenderScore {
                node: sender,
                score: if first {
                    1
                } else {
                    0
                },
            },
        )
    } else {
        senders
    }
}

/// The entry of an author after `sender` delivered one of its records.
pub open spec fn with_delivery(entry: ReceivedView, sender: Pubkey, first: bool) -> ReceivedView {
    ReceivedView {
        origin: entry.origin,
        senders: senders_with(entry.senders, sender, first),
        num_upserts: if first && entry.num_upserts < u64::MAX {
            (entry.num_upserts + 1) as u64
        } else {
            entry.num_upserts
        },
    }
}

/// The cache after `sender` delivered a record of `origin`, for the first
/// time or not. An author that is new to a full cache takes the place of the
/// one that has been in it longest.
pub open spec fn record_delivery(
    received: Seq<ReceivedView>,
    origin: Pubkey,
    sender: Pubkey,
    first: bool,
) -> Seq<
    ReceivedView,
> {
    if has_origin(received, origin) {
        let k = origin_index(received, origin);
        received.update(k, with_delivery(received[k], sender, first))
    } else {
        let fresh = with_delivery(
            ReceivedView { origin, senders: Seq::empty(), num_upserts: 0 },
            sender,
            first,
        );
        if received.len() >= RECEIVED_CACHE_CAPACITY {
            received.drop_first().push(fresh)
        } else {
            received.push(fresh)
        }
    }
}

/// The state that taking pushed records works on: the table, the cache of
/// deliveries, and the authors of the records taken so far.
pub struct PushState {
    pub records: Seq<CrdsEntry>,
    pub next_ordinal: u64,
    pub stats: CrdsStats,
    pub received: Seq<ReceivedView>,
    pub origins: Seq<Pubkey>,
}

/// The state after `from` pushed `value` at time `now`. A record whose
/// wallclock is far from `now` is passed over. A record that the table takes
/// counts as a first delivery of its author by `from`, and its author is
/// noted; one that the table holds already counts as a repeated delivery.
pub open spec fn take_value(
    state: PushState,
    from: Pubkey,
    value: CrdsValue,
    now: u64,
    msg_timeout: u64,
) -> PushState {
    let origin = value.spec_pubkey();
    if !in_window(value.spec_wallclock(), now, msg_timeout) {
        state
    } else {
        match insert_outcome(state.records, state.next_ordinal, value) {
            Ok(()) => PushState {
                records: insert_records(state.records, state.next_ordinal, value, now),
                next_ordinal: (state.next_ordinal + 1) as u64,
                stats: count_route(state.stats, GossipRoute::PushMessage(from)),
                received: record_delivery(state.received, origin, from, true),
                origins: if state.origins.contains(origin) {
                    state.origins
                } else {
                    state.origins.push(origin)
                },
            },
            Err(CrdsError::Duplicate) => PushState {
                received: record_delivery(state.received, origin, from, false),
                ..state
            },
            Err(_) => state,
        }
    }
}

/// The state after `from` pushed the first `n` of `values`.
pub open spec fn take_values(
    state: PushState,
    from: Pubkey,
    values: Seq<CrdsValue>,
    now: u64,
    msg_timeout: u64,
    n: nat,
) -> PushState
    decreases n,
{
    if n == 0 {
        state
    } else {
        take_value(
            take_values(state, from, values, now, msg_timeout, (n - 1) as nat),
            from,
            values[n - 1],
            now,
            msg_timeout,
        )
    }
}

/// The state after the first `n` messages were taken, each the records that
/// one peer pushed.
pub open spec fn take_messages(
    state: PushState,
    messages: Seq<(Pubkey, Vec<CrdsValue>)>,
    now: u64,
    msg_timeout: u64,
    n: nat,
) -> PushState
    decreases n,
{
    if n == 0 {
        state
    } else {
        take_values(
            take_messages(state, messages, now, msg_timeout, (n - 1) as nat),
            messages[n - 1].0,
            messages[n - 1].1@,
            now,
            msg_timeout,
            messages[n - 1].1@.len(),
        )
    }
}

/// Whether sender `a` is the better one of `a` and `b`: the one that was
/// first more often, then the one with more stake, then the one with the
/// lesser key.
pub open spec fn outranks(a: SenderScore, b: SenderScore, stakes: StakeMap) -> bool {
    ||| a.score > b.score
    ||| (a.score == b.score && stakes.spec_get(a.node) > stakes.spec_get(b.node))
    ||| (a.score == b.score && stakes.spec_get(a.node) == stakes.spec_get(b.node)
        && a.node.spec_less(b.node))
}

/// How many of the first `n` senders are better than `s`.
pub open spec fn rank(senders: Seq<SenderScore>, stakes: StakeMap, s: SenderScore, n: nat) -> nat
    decreases n,
{
    if n == 0 {
        0
    } else {
        rank(senders, stakes, s, (n - 1) as nat) + if outranks(senders[n - 1], s, stakes) {
            1nat
        } else {
            0nat
        }
    }
}

/// The stake that those of the first `n` senders hold that are better than
/// `s`.
pub open spec fn stake_ahead(
    senders: Seq<SenderScore>,
    stakes: StakeMap,
    s: SenderScore,
    n: nat,
) -> nat
    decreases n,
{
    if n == 0 {
        0
    } else {
        stake_ahead(senders, stakes, s, (n - 1) as nat) + if outranks(senders[n - 1], s, stakes) {
            stakes.spec_get(senders[n - 1].node) as nat
        } else {
            0nat
        }
    }
}

/// The stake that the senders kept for `origin` have to hold together.
pub open spec fn min_ingress_stake(stakes: StakeMap, self_pubkey: Pubkey, origin: Pubkey) -> nat {
    let own = stakes.spec_get(self_pubkey);
    let other = stakes.spec_get(origin);
    let least = if own < other {
        own
    } else {
        other
    };
    ((least as nat) * (PRUNE_STAKE_THRESHOLD_PCT as nat)) / 100
}

/// Whether the `k`-th sender of the entry is one to prune: at least
/// `MIN_INGRESS_NODES` senders are better, and those hold stake enough.
pub open spec fn is_redundant(
    entry: ReceivedView,
    stakes: StakeMap,
    self_pubkey: Pubkey,
    k: int,
) -> bool {
    let s = entry.senders[k];
    &&& rank(entry.senders, stakes, s, entry.senders.len()) >= MIN_INGRESS_NODES
    &&& stake_ahead(entry.senders, stakes, s, entry.senders.len()) >= min_ingress_stake(
        stakes,
        self_pubkey,
        entry.origin,
    )
}

/// The senders to prune among the first `n` of the entry, each with the
/// entry's author, in the order of the entry.
pub open spec fn redundant_pairs(
    entry: ReceivedView,
    stakes: StakeMap,
    self_pubkey: Pubkey,
    n: nat,
) -> Seq<
    (Pubkey, Pubkey),
>
    decreases n,
{
    if n == 0 {
        Seq::empty()
    } else {
        let prev = redundant_pairs(entry, stakes, self_pubkey, (n - 1) as nat);
        if is_redundant(entry, stakes, self_pubkey, n - 1) {
            prev.push((entry.senders[n - 1].node, entry.origin))
        } else {
            prev
        }
    }
}

/// What pruning leaves: the pairs of a sender and an author to prune, and
/// the cache.
pub struct Pruned {
    pub pairs: Seq<(Pubkey, Pubkey)>,
    pub received: Seq<ReceivedView>,
}

/// The outcome of pruning the first `n` of `origins` in turn. An author
/// with more than `MIN_INGRESS_NODES` senders gives up its redundant
/// senders and leaves the cache, to be observed afresh.
pub open spec fn prune_origins(
    received: Seq<ReceivedView>,
    origins: Seq<Pubkey>,
    stakes: StakeMap,
    self_pubkey: Pubkey,
    n: nat,
) -> Pruned
    decreases n,
{
    if n == 0 {
        Pruned { pairs: Seq::empty(), received }
    } else {
        let prev = prune_origins(received, origins, stakes, self_pubkey, (n - 1) as nat);
        let origin = origins[n - 1];
        if has_origin(prev.received, origin) && prev.received[origin_index(
            prev.received,
            origin,
        )].senders.len() > MIN_INGRESS_NODES {
            let k = origin_index(prev.received, origin);
            let entry = prev.received[k];
            Pruned {
                pairs: prev.pairs + redundant_pairs(entry, stakes, self_pubkey, entry.senders.len()),
                received: prev.received.remove(k),
            }
        } else {
            prev
        }
    }
}

pub open spec fn pair_at(
    groups: Seq<(Pubkey, Vec<Pubkey>)>,
    sender: Pubkey,
    origin: Pubkey,
    i: int,
    j: int,
) -> bool {
    &&& 0 <= i < groups.len()
    &&& groups[i].0 == sender
    &&& 0 <= j < groups[i].1@.len()
    &&& groups[i].1@[j] == origin
}

/// Whether the groups pair `sender` with `origin`.
pub open spec fn has_pair(
    groups: Seq<(Pubkey, Vec<Pubkey>)>,
    sender: Pubkey,
    origin: Pubkey,
) -> bool {
    exists|i: int, j: int| pair_at(groups, sender, origin, i, j)
}

/// Whether no sender heads two groups.
pub open spec fn groups_distinct(groups: Seq<(Pubkey, Vec<Pubkey>)>) -> bool {
    forall|i: int, j: int|
        #![trigger groups[i], groups[j]]
        0 <= i < j < groups.len() ==> groups[i].0 != groups[j].0
}

/// `outranks` orders the senders: it is transitive and never holds both
/// ways.
pub proof fn lemma_outranks_order(a: SenderScore, b: SenderScore, c: SenderScore, stakes: StakeMap)
    ensures
        outranks(a, b, stakes) && outranks(b, c, stakes) ==> outranks(a, c, stakes),
        !(outranks(a, b, stakes) && outranks(b, a, stakes)),
        !outranks(a, a, stakes),
{
    lemma_bytes_less_asymmetric(a.node.bytes@, b.node.bytes@);
    lemma_bytes_less_asymmetric(a.node.bytes@, a.node.bytes@);
    if a.node.spec_less(b.node) && b.node.spec_less(c.node) {
        lemma_bytes_less_transitive(a.node.bytes@, b.node.bytes@, c.node.bytes@);
    }
}

proof fn lemma_rank_ahead(
    senders: Seq<SenderScore>,
    stakes: StakeMap,
    a: SenderScore,
    b: SenderScore,
    ka: int,
    n: nat,
)
    requires
        outranks(a, b, stakes),
        0 <= ka < senders.len(),
        senders[ka] == a,
        n <= senders.len(),
    ensures
        rank(senders, stakes, b, n) >= rank(senders, stakes, a, n) + if ka < n {
            1nat
        } else {
            0nat
        },
        stake_ahead(senders, stakes, b, n) >= stake_ahead(senders, stakes, a, n),
    decreases n,
{
    if n > 0 {
        lemma_rank_ahead(senders, stakes, a, b, ka, (n - 1) as nat);
        lemma_outranks_order(senders[n - 1], a, b, stakes);
        lemma_outranks_order(a, a, b, stakes);
    }
}

/// Pruning prefers the worse senders: a sender that is pruned is never
/// better than one of the same author that is kept. So of two senders that
/// were first equally often, the one kept has at least the stake of the one
/// pruned.
pub proof fn lemma_prune_keeps_the_better(
    entry: ReceivedView,
    stakes: StakeMap,
    self_pubkey: Pubkey,
    pruned: int,
    kept: int,
)
    requires
        0 <= pruned < entry.senders.len(),
        0 <= kept < entry.senders.len(),
        is_redundant(entry, stakes, self_pubkey, pruned),
        !is_redundant(entry, stakes, self_pubkey, kept),
    ensures
        !outranks(entry.senders[pruned], entry.senders[kept], stakes),
        entry.senders[pruned].score == entry.senders[kept].score ==> stakes.spec_get(
            entry.senders[pruned].node,
        ) <= stakes.spec_get(entry.senders[kept].node),
        entry.senders[pruned].score <= entry.senders[kept].score,
{
    let a = entry.senders[pruned];
    let b = entry.senders[kept];
    if outranks(a, b, stakes) {
        lemma_rank_ahead(entry.senders, stakes, a, b, pruned, entry.senders.len());
    }
}

pub open spec fn peer_at(active: Seq<PeerView>, node: Pubkey, k: int) -> bool {
    0 <= k < active.len() && active[k].node == node
}

pub open spec fn has_peer(active: Seq<PeerView>, node: Pubkey) -> bool {
    exists|k: int| peer_at(active, node, k)
}

pub open spec fn peer_index(active: Seq<PeerView>, node: Pubkey) -> int {
    choose|k: int| peer_at(active, node, k)
}

/// The active set made of the first `n` of the nodes `picked` among
/// `nodes`, each once: a node that was in the set `before` stays as it was,
/// a new one starts with nothing pruned and its cursor at `cursor`. A place
/// that is none among `nodes` is passed over.
pub open spec fn refreshed(
    before: Seq<PeerView>,
    nodes: Seq<ContactInfo>,
    picked: Seq<usize>,
    cursor: u64,
    n: nat,
) -> Seq<PeerView>
    decreases n,
{
    if n == 0 {
        Seq::empty()
    } else {
        let prev = refreshed(before, nodes, picked, cursor, (n - 1) as nat);
        let node = nodes[picked[n - 1] as int].pubkey;
        if picked[n - 1] >= nodes.len() || has_peer(prev, node) {
            prev
        } else if has_peer(before, node) {
            prev.push(before[peer_index(before, node)])
        } else {
            prev.push(PeerView { node, pruned: Seq::empty(), cursor })
        }
    }
}

/// The peers as plain values.
pub open spec fn peer_views(set: Seq<ActivePeer>) -> Seq<PeerView> {
    Seq::new(set.len(), |i: int| set[i]@)
}

/// The entries of the cache as plain values.
pub open spec fn received_views(cache: Seq<ReceivedEntry>) -> Seq<ReceivedView> {
    Seq::new(cache.len(), |i: int| cache[i]@)
}

impl CrdsGossipPush {
    /// The peers that the node pushes to.
    pub closed spec fn active(&self) -> Seq<PeerView> {
        peer_views(self.active_set@)
    }

    /// Who delivered what, the author heard of longest ago first.
    pub closed spec fn received(&self) -> Seq<ReceivedView> {
        received_views(self.received_cache@)
    }

    /// The cursor that a peer starts with when it joins the active set.
    pub closed spec fn spec_cursor(&self) -> u64 {
        self.cursor
    }

    pub closed spec fn spec_config(&self) -> PushConfig {
        self.config
    }

    /// Whether no node stands twice in the active set, which is no larger
    /// than the fanout allows, and the cache of deliveries is well formed.
    /// Every push side is so.
    #[verifier::type_invariant]
    pub open spec fn wf(&self) -> bool {
        &&& peers_distinct(self.active())
        &&& self.active().len() <= self.spec_config().push_fanout
        &&& received_wf(self.received())
    }

    /// A push side without peers, with the limits of `config`.
    pub fn new(config: PushConfig) -> (push: CrdsGossipPush)
        ensures
            push.active() == Seq::<PeerView>::empty(),
            push.received() == Seq::<ReceivedView>::empty(),
            push.spec_cursor() == 0,
            push.spec_config() == config,
    {
        let push = CrdsGossipPush {
            active_set: Vec::new(),
            received_cache: Vec::new(),
            cursor: 0,
            config,
        };
        assert(push.active() =~= Seq::<PeerView>::empty());
        assert(push.received() =~= Seq::<ReceivedView>::empty());
        push
    }

    pub fn config(&self) -> (config: PushConfig)
        ensures
            config == self.spec_config(),
    {
        self.config
    }

    /// How old a prune message may be, in milliseconds.
    pub fn prune_timeout(&self) -> (timeout: u64)
        ensures
            timeout == self.spec_config().prune_timeout,
    {
        self.config.prune_timeout
    }

    /// The nodes of the active set, in order.
    pub fn active_nodes(&self) -> (nodes: Vec<Pubkey>)
        ensures
            nodes@.len() == self.active().len(),
            forall|i: int| 0 <= i < nodes@.len() ==> nodes@[i] == self.active()[i].node,
    {
        let mut nodes: Vec<Pubkey> = Vec::new();
        let mut i: usize = 0;
        while i < self.active_set.len()
            invariant
                i <= self.active_set@.len(),
                nodes@.len() == i,
                forall|j: int| 0 <= j < i ==> nodes@[j] == self.active_set@[j].node,
            decreases self.active_set@.len() - i,
        {
            nodes.push(self.active_set[i].node);
            i += 1;
        }
        nodes
    }

    /// Notes that `peer` asked not to be sent the records of `origins`.
    pub fn process_prune_msg(&mut self, peer: &Pubkey, origins: &Vec<Pubkey>)
        ensures
            final(self).active() == with_pruned(old(self).active(), *peer, origins@),
            final(self).received() == old(self).received(),
            final(self).spec_cursor() == old(self).spec_cursor(),
            final(self).spec_config() == old(self).spec_config(),
    {
        proof {
            use_type_invariant(&*self);
        }
        let ghost active0 = self.active();
        let ghost target = with_pruned(active0, *peer, origins@);
        let mut set: Vec<ActivePeer> = Vec::new();
        std::mem::swap(&mut set, &mut self.active_set);
        let mut i: usize = 0;
        while i < set.len()
            invariant
                i <= set@.len(),
                set@.len() == active0.len(),
                active0 == old(self).active(),
                target == with_pruned(active0, *peer, origins@),
                forall|j: int| 0 <= j < i ==> (#[trigger] set@[j])@ == target[j],
                forall|j: int|
                    i <= j < active0.len() ==> (#[trigger] set@[j])@ == active0[j],
                self.received_cache == old(self).received_cache,
                self.cursor == old(self).cursor,
                self.config == old(self).config,
            decreases set@.len() - i,
        {
            if set[i].node.same(peer) {
                let ghost before = set@[i as int].pruned@;
                let mut k: usize = 0;
                while k < origins.len()
                    invariant
                        k <= origins@.len(),
                        i < set@.len(),
                        set@.len() == active0.len(),
                        set@[i as int].node == active0[i as int].node,
                        set@[i as int].cursor == active0[i as int].cursor,
                        set@[i as int].pruned@ == with_origins(
                            before,
                            origins@,
                            k as nat,
                        ),
                        forall|j: int|
                            0 <= j < i ==> (#[trigger] set@[j])@ == target[j],
                        forall|j: int|
                            i < j < active0.len() ==> (#[trigger] set@[j])@
                                == active0[j],
                        self.received_cache == old(self).received_cache,
                        self.cursor == old(self).cursor,
                        self.config == old(self).config,
                    decreases origins@.len() - k,
                {
                    let origin = origins[k];
                    if !contains_key(&set[i].pruned, &origin) {
                        set[i].pruned.push(origin);
                    }
                    k += 1;
                }
            }
            i += 1;
        }
        proof {
            assert(peer_views(set@) =~= target);
            assert(peers_distinct(target)) by {
                assert forall|a: int, b: int|
                    #![trigger target[a], target[b]]
                    0 <= a < b < target.len() implies target[a].node != target[b].node by {
                    assert(active0[a].node != active0[b].node);
                }
            }
        }
        self.active_set = set;
    }

    fn least_active_cursor(set: &Vec<ActivePeer>, next_ordinal: u64) -> (least: u64)
        ensures
            least == least_cursor(peer_views(set@), next_ordinal, set@.len()),
    {
        let mut least = next_ordinal;
        let mut i: usize = 0;
        while i < set.len()
            invariant
                i <= set@.len(),
                least == least_cursor(peer_views(set@), next_ordinal, i as nat),
            decreases set@.len() - i,
        {
            assert(peer_views(set@)[i as int] == set@[i as int]@);
            if set[i].cursor < least {
                least = set[i].cursor;
            }
            i += 1;
        }
        least
    }

    fn within_window(wallclock: u64, now: u64, msg_timeout: u64) -> (b: bool)
        ensures
            b == in_window(wallclock, now, msg_timeout),
    {
        let low = if now >= msg_timeout {
            now - msg_timeout
        } else {
            0
        };
        let high = if msg_timeout <= u64::MAX - now {
            now + msg_timeout
        } else {
            u64::MAX
        };
        low <= wallclock && wallclock <= high
    }

    /// The records to push, and to whom. Returns the records taken since the
    /// least cursor of the active peers, for each peer the places in that
    /// list of the records that go to it, and the number of records that go
    /// out in all. A record goes to a peer when it was taken at or after the
    /// peer's cursor, its wallclock is near `now`, `should_retain` keeps it,
    /// and the peer neither wrote it nor pruned its author; a peer's message
    /// ends before the record that would overfill it, and its cursor moves
    /// to that record, or past the table.
    pub fn new_push_messages<F: Fn(&CrdsValue) -> bool>(
        &mut self,
        crds: &Crds,
        now: u64,
        should_retain: F,
    ) -> (result: (
        Vec<CrdsValue>,
        Vec<(Pubkey, Vec<usize>)>,
        usize,
    ))
        requires
            forall|value: &CrdsValue| should_retain.requires((value,)),
        ensures
            final(self).received() == old(self).received(),
            final(self).spec_config() == old(self).spec_config(),
            final(self).spec_cursor() == crds.spec_next_ordinal(),
            ({
                let least = least_cursor(
                    old(self).active(),
                    crds.spec_next_ordinal(),
                    old(self).active().len(),
                );
                let since = crds.records().filter(|entry: CrdsEntry| entry.ordinal >= least);
                &&& result.0@ == since.map_values(|entry: CrdsEntry| entry.value)
                &&& exists|retain: Seq<bool>|
                    #![trigger retained_by(should_retain, since, retain)]
                    retained_by(should_retain, since, retain) && push_outcome(
                        old(self).active(),
                        final(self).active(),
                        result.1@,
                        result.2,
                        since,
                        retain,
                        now,
                        old(self).spec_config(),
                        crds.spec_next_ordinal(),
                    )
            }),
    {
        proof {
            use_type_invariant(&*self);
        }
        let ghost before = self.active();
        let mut set: Vec<ActivePeer> = Vec::new();
        std::mem::swap(&mut set, &mut self.active_set);
        let next = crds.next_ordinal();
        let least = Self::least_active_cursor(&set, next);
        let since = crds.get_records_since(least);
        let config = self.config;
        let mut entries: Vec<CrdsValue> = Vec::new();
        let mut retain: Vec<bool> = Vec::new();
        let mut i: usize = 0;
        while i < since.len()
            invariant
                i <= since@.len(),
                entries@.len() == i,
                retain@.len() == i,
                forall|value: &CrdsValue| should_retain.requires((value,)),
                forall|k: int| 0 <= k < i ==> entries@[k] == (#[trigger] since@[k]).value,
                forall|k: int|
                    0 <= k < i ==> should_retain.ensures((&(#[trigger] since@[k]).value,), retain@[k]),
            decreases since@.len() - i,
        {
            let value = since[i].value;
            let keep = should_retain(&since[i].value);
            entries.push(value);
            retain.push(keep);
            i += 1;
        }
        assert(entries@ =~= since@.map_values(|entry: CrdsEntry| entry.value));
        let mut lists: Vec<(Pubkey, Vec<usize>)> = Vec::new();
        let mut num_pushed: usize = 0;
        let mut j: usize = 0;
        while j < set.len()
            invariant
                j <= set@.len(),
                set@.len() == before.len(),
                retain@.len() == since@.len(),
                lists@.len() == j,
                self.config == config,
                self.received_cache == old(self).received_cache,
                forall|k: int|
                    #![trigger before[k]]
                    0 <= k < j ==> {
                        let plan = peer_plan(
                            since@,
                            retain@,
                            before[k],
                            now,
                            config.msg_timeout,
                            config.max_bytes,
                            since@.len(),
                        );
                        &&& lists@[k].0 == before[k].node
                        &&& lists@[k].1@ == plan.sent
                        &&& set@[k]@ == peer_after(before[k], plan, next)
                    },
                forall|k: int| j <= k < before.len() ==> (#[trigger] set@[k])@ == before[k],
                num_pushed == ({
                    let total = total_sent(
                        since@,
                        retain@,
                        before,
                        now,
                        config.msg_timeout,
                        config.max_bytes,
                        j as nat,
                    );
                    if total > usize::MAX {
                        usize::MAX as nat
                    } else {
                        total
                    }
                }),
            decreases set@.len() - j,
        {
            let ghost peer = before[j as int];
            let node = set[j].node;
            let cursor = set[j].cursor;
            let mut sent: Vec<usize> = Vec::new();
            let mut bytes: usize = 0;
            let mut stopped_at: Option<u64> = None;
            let mut n: usize = 0;
            while n < since.len()
                invariant
                    n <= since@.len(),
                    j < set@.len(),
                    retain@.len() == since@.len(),
                    set@[j as int]@ == peer,
                    node == peer.node,
                    cursor == peer.cursor,
                    bytes <= config.max_bytes,
                    ({
                        let plan = peer_plan(
                            since@,
                            retain@,
                            peer,
                            now,
                            config.msg_timeout,
                            config.max_bytes,
                            n as nat,
                        );
                        &&& sent@ == plan.sent
                        &&& bytes == plan.bytes
                        &&& stopped_at == plan.stopped_at
                    }),
                decreases since@.len() - n,
            {
                let entry = since[n];
                let origin = entry.value.pubkey();
                if stopped_at.is_none() && entry.ordinal >= cursor && Self::within_window(
                    entry.value.wallclock(),
                    now,
                    config.msg_timeout,
                ) && retain[n] && !origin.same(&node) && !contains_key(
                    &set[j].pruned,
                    &origin,
                ) {
                    let size = entry.value.serialized_size();
                    if size > config.max_bytes - bytes {
                        stopped_at = Some(entry.ordinal);
                    } else {
                        sent.push(n);
                        bytes = bytes + size;
                    }
                }
                n += 1;
            }
            let count = sent.len();
            num_pushed = if count > usize::MAX - num_pushed {
                usize::MAX
            } else {
                num_pushed + count
            };
            set[j].cursor = match stopped_at {
                Some(ordinal) => ordinal,
                None => next,
            };
            lists.push((node, sent));
            j += 1;
        }
        proof {
            let ghost after = peer_views(set@);
            assert forall|k: int| #![trigger before[k]] 0 <= k < before.len() implies {
                let plan = peer_plan(
                    since@,
                    retain@,
                    before[k],
                    now,
                    config.msg_timeout,
                    config.max_bytes,
                    since@.len(),
                );
                &&& lists@[k].0 == before[k].node
                &&& lists@[k].1@ == plan.sent
                &&& after[k] == peer_after(before[k], plan, next)
            } by {
                assert(after[k] == set@[k]@);
            }
            assert(peers_distinct(after)) by {
                assert forall|a: int, b: int|
                    #![trigger after[a], after[b]]
                    0 <= a < b < after.len() implies after[a].node != after[b].node by {
                    assert(before[a].node != before[b].node);
                    assert(after[a] == set@[a]@ && after[b] == set@[b]@);
                }
            }
            assert(retained_by(should_retain, since@, retain@));
            assert(push_outcome(before, after, lists@, num_pushed, since@, retain@, now, config, next));
        }
        self.cursor = next;
        self.active_set = set;
        (entries, lists, num_pushed)
    }

    fn find_origin(cache: &Vec<ReceivedEntry>, origin: &Pubkey) -> (found: Option<usize>)
        requires
            received_wf(received_views(cache@)),
        ensures
            match found {
                Some(k) => origin_at(received_views(cache@), *origin, k as int) && has_origin(
                    received_views(cache@),
                    *origin,
                ) && origin_index(received_views(cache@), *origin) == k,
                None => !has_origin(received_views(cache@), *origin),
            },
    {
        let ghost received = received_views(cache@);
        let mut i: usize = 0;
        while i < cache.len()
            invariant
                i <= cache@.len(),
                received == received_views(cache@),
                received_wf(received),
                received.len() == cache@.len(),
                forall|j: int| 0 <= j < i ==> received[j].origin != *origin,
            decreases cache@.len() - i,
        {
            assert(received[i as int] == cache@[i as int]@);
            if cache[i].origin.same(origin) {
                proof {
                    let c = origin_index(received, *origin);
                    assert(origin_at(received, *origin, i as int));
                    assert(origin_at(received, *origin, c));
                    if c < i {
                        assert(received[c].origin != received[i as int].origin);
                    } else if i < c {
                        assert(received[i as int].origin != received[c].origin);
                    }
                }
                return Some(i);
            }
            i += 1;
        }
        assert(!has_origin(received, *origin)) by {
            if has_origin(received, *origin) {
                let k = origin_index(received, *origin);
                assert(origin_at(received, *origin, k));
            }
        }
        None
    }

    /// Notes that `sender` delivered a record of `origin`, for the first time
    /// or not.
    fn record(cache: &mut Vec<ReceivedEntry>, origin: Pubkey, sender: Pubkey, first: bool)
        requires
            received_wf(received_views(old(cache)@)),
        ensures
            received_wf(received_views(final(cache)@)),
            received_views(final(cache)@) == record_delivery(
                received_views(old(cache)@),
                origin,
                sender,
                first,
            ),
    {
        let ghost received0 = received_views(cache@);
        match Self::find_origin(cache, &origin) {
            Some(k) => {
                let ghost entry0 = received0[k as int];
                assert(entry0 == cache@[k as int]@);
                assert(senders_distinct(entry0.senders));
                if first && cache[k].num_upserts < u64::MAX {
                    cache[k].num_upserts = cache[k].num_upserts + 1;
                }
                let found = find_sender(&cache[k].senders, &sender);
                match found {
                    Some(idx) => {
                        let score = cache[k].senders[idx].score;
                        if first && score < u64::MAX {
                            cache[k].senders[idx] = SenderScore {
                                node: sender,
                                score: score + 1,
                            };
                        }
                    },
                    None => {
                        if cache[k].senders.len() < RECEIVED_CACHE_SENDERS {
                            cache[k].senders.push(
                                SenderScore {
                                    node: sender,
                                    score: if first {
                                        1
                                    } else {
                                        0
                                    },
                                },
                            );
                        }
                    },
                }
                proof {
                    let target = record_delivery(received0, origin, sender, first);
                    let entry1 = with_delivery(entry0, sender, first);
                    assert(cache@[k as int]@.senders =~= entry1.senders);
                    assert(cache@[k as int]@ == entry1);
                    assert(received_views(cache@) =~= target) by {
                        assert forall|i: int| 0 <= i < target.len() implies received_views(cache@)[i]
                            == target[i] by {
                            assert(received_views(cache@)[i] == cache@[i]@);
                            if i != k {
                                assert(cache@[i] == old(cache)@[i]);
                                assert(received0[i] == old(cache)@[i]@);
                            }
                        }
                    }
                    lemma_senders_with(entry0.senders, sender, first);
                    assert(received_wf(target)) by {
                        assert forall|a: int, b: int|
                            #![trigger target[a], target[b]]
                            0 <= a < b < target.len() implies target[a].origin
                            != target[b].origin by {
                            assert(received0[a].origin != received0[b].origin);
                        }
                        assert forall|a: int| 0 <= a < target.len() implies senders_distinct(
                            #[trigger] target[a].senders,
                        ) by {
                            if a != k {
                                assert(senders_distinct(received0[a].senders));
                            }
                        }
                    }
                }
            },
            None => {
                let mut senders: Vec<SenderScore> = Vec::new();
                senders.push(
                    SenderScore {
                        node: sender,
                        score: if first {
                            1
                        } else {
                            0
                        },
                    },
                );
                let fresh = ReceivedEntry {
                    origin,
                    senders,
                    num_upserts: if first {
                        1
                    } else {
                        0
                    },
                };
                let ghost blank = ReceivedView { origin, senders: Seq::empty(), num_upserts: 0 };
                proof {
                    assert(!has_sender(blank.senders, sender)) by {
                        if has_sender(blank.senders, sender) {
                            let c = sender_index(blank.senders, sender);
                            assert(sender_at(blank.senders, sender, c));
                        }
                    }
                    assert(fresh@.senders =~= with_delivery(blank, sender, first).senders);
                    assert(fresh@ == with_delivery(blank, sender, first));
                }
                let full = cache.len() >= RECEIVED_CACHE_CAPACITY;
                if full {
                    cache.remove(0);
                }
                cache.push(fresh);
                proof {
                    let target = record_delivery(received0, origin, sender, first);
                    let shift: int = if full {
                        1
                    } else {
                        0
                    };
                    assert(received_views(cache@) =~= target) by {
                        assert forall|i: int| 0 <= i < target.len() implies received_views(cache@)[i]
                            == target[i] by {
                            assert(received_views(cache@)[i] == cache@[i]@);
                            if i < target.len() - 1 {
                                assert(cache@[i] == old(cache)@[i
                                    + shift]);
                                assert(received0[i + shift] == old(cache)@[i
                                    + shift]@);
                            }
                        }
                    }
                    assert(received_wf(target)) by {
                        assert forall|a: int, b: int|
                            #![trigger target[a], target[b]]
                            0 <= a < b < target.len() implies target[a].origin
                            != target[b].origin by {
                            assert(target[a] == received0[a + shift]);
                            if b < target.len() - 1 {
                                assert(target[b] == received0[b + shift]);
                                assert(received0[a + shift].origin != received0[b + shift].origin);
                            } else {
                                if received0[a + shift].origin == origin {
                                    assert(origin_at(received0, origin, a + shift));
                                }
                            }
                        }
                        assert forall|a: int| 0 <= a < target.len() implies senders_distinct(
                            #[trigger] target[a].senders,
                        ) by {
                            if a < target.len() - 1 {
                                assert(target[a] == received0[a + shift]);
                                assert(senders_distinct(received0[a + shift].senders));
                            }
                        }
                    }
                }
            },
        }
    }

    /// Takes the records that peers pushed: `messages` pairs each peer with
    /// its records. Each record whose wallclock is near `now` is offered to
    /// the table, and who delivered it is noted. Returns the authors of the
    /// records that the table took, each once, in the order of taking.
    pub fn process_push_message(
        &mut self,
        crds: &mut Crds,
        messages: &Vec<(Pubkey, Vec<CrdsValue>)>,
        now: u64,
    ) -> (origins: Vec<
        Pubkey,
    >)
        ensures
            final(self).active() == old(self).active(),
            final(self).spec_cursor() == old(self).spec_cursor(),
            final(self).spec_config() == old(self).spec_config(),
            final(crds).spec_purged() == old(crds).spec_purged(),
            ({
                let start = PushState {
                    records: old(crds).records(),
                    next_ordinal: old(crds).spec_next_ordinal(),
                    stats: old(crds).spec_stats(),
                    received: old(self).received(),
                    origins: Seq::empty(),
                };
                let end = take_messages(
                    start,
                    messages@,
                    now,
                    old(self).spec_config().msg_timeout,
                    messages@.len(),
                );
                &&& final(crds).records() == end.records
                &&& final(crds).spec_next_ordinal() == end.next_ordinal
                &&& final(crds).spec_stats() == end.stats
                &&& final(self).received() == end.received
                &&& origins@ == end.origins
            }),
    {
        proof {
            use_type_invariant(&*self);
        }
        let ghost start = PushState {
            records: crds.records(),
            next_ordinal: crds.spec_next_ordinal(),
            stats: crds.spec_stats(),
            received: self.received(),
            origins: Seq::empty(),
        };
        let msg_timeout = self.config.msg_timeout;
        let mut cache: Vec<ReceivedEntry> = Vec::new();
        std::mem::swap(&mut cache, &mut self.received_cache);
        let mut origins: Vec<Pubkey> = Vec::new();
        let mut m: usize = 0;
        while m < messages.len()
            invariant
                m <= messages@.len(),
                received_wf(received_views(cache@)),
                crds.spec_purged() == old(crds).spec_purged(),
                ({
                    let state = take_messages(start, messages@, now, msg_timeout, m as nat);
                    &&& crds.records() == state.records
                    &&& crds.spec_next_ordinal() == state.next_ordinal
                    &&& crds.spec_stats() == state.stats
                    &&& received_views(cache@) == state.received
                    &&& origins@ == state.origins
                }),
            decreases messages@.len() - m,
        {
            let from = messages[m].0;
            let ghost values = messages@[m as int].1@;
            let ghost state0 = take_messages(start, messages@, now, msg_timeout, m as nat);
            let mut v: usize = 0;
            while v < messages[m].1.len()
                invariant
                    m < messages@.len(),
                    v <= values.len(),
                    values == messages@[m as int].1@,
                    from == messages@[m as int].0,
                    received_wf(received_views(cache@)),
                    crds.spec_purged() == old(crds).spec_purged(),
                    ({
                        let state = take_values(state0, from, values, now, msg_timeout, v as nat);
                        &&& crds.records() == state.records
                        &&& crds.spec_next_ordinal() == state.next_ordinal
                        &&& crds.spec_stats() == state.stats
                        &&& received_views(cache@) == state.received
                        &&& origins@ == state.origins
                    }),
                decreases values.len() - v,
            {
                let value = messages[m].1[v];
                if Self::within_window(value.wallclock(), now, msg_timeout) {
                    let origin = value.pubkey();
                    match crds.insert(value, now, GossipRoute::PushMessage(from)) {
                        Ok(()) => {
                            Self::record(&mut cache, origin, from, true);
                            if !contains_key(&origins, &origin) {
                                origins.push(origin);
                            }
                        },
                        Err(CrdsError::Duplicate) => {
                            Self::record(&mut cache, origin, from, false);
                        },
                        Err(_) => {},
                    }
                }
                v += 1;
            }
            m += 1;
        }
        self.received_cache = cache;
        proof {
            use_type_invariant(&*crds);
        }
        origins
    }

    /// For each of `origins`, tells which of the peers that deliver its
    /// records to stop: where more than `MIN_INGRESS_NODES` peers delivered
    /// them, all but the best senders that together hold stake enough.
    /// Returns the authors to prune for each sender; each sender heads one
    /// group. An author that was pruned leaves the cache.
    pub fn prune_received_cache(
        &mut self,
        self_pubkey: &Pubkey,
        origins: &Vec<Pubkey>,
        stakes: &StakeMap,
    ) -> (prunes: Vec<
        (Pubkey, Vec<Pubkey>),
    >)
        ensures
            final(self).active() == old(self).active(),
            final(self).spec_cursor() == old(self).spec_cursor(),
            final(self).spec_config() == old(self).spec_config(),
            groups_distinct(prunes@),
            ({
                let pruned = prune_origins(
                    old(self).received(),
                    origins@,
                    *stakes,
                    *self_pubkey,
                    origins@.len(),
                );
                &&& final(self).received() == pruned.received
                &&& forall|sender: Pubkey, origin: Pubkey|
                    #![trigger has_pair(prunes@, sender, origin)]
                    has_pair(prunes@, sender, origin) <==> pruned.pairs.contains((sender, origin))
            }),
    {
        proof {
            use_type_invariant(&*self);
        }
        let ghost received0 = self.received();
        let mut cache: Vec<ReceivedEntry> = Vec::new();
        std::mem::swap(&mut cache, &mut self.received_cache);
        let mut pairs: Vec<(Pubkey, Pubkey)> = Vec::new();
        let own_stake = stakes.get(self_pubkey);
        let mut n: usize = 0;
        while n < origins.len()
            invariant
                n <= origins@.len(),
                received_wf(received_views(cache@)),
                own_stake == stakes.spec_get(*self_pubkey),
                ({
                    let pruned = prune_origins(received0, origins@, *stakes, *self_pubkey, n as nat);
                    &&& received_views(cache@) == pruned.received
                    &&& pairs@ == pruned.pairs
                }),
            decreases origins@.len() - n,
        {
            let origin = origins[n];
            let ghost before = received_views(cache@);
            let ghost pairs_before = pairs@;
            match Self::find_origin(&cache, &origin) {
                Some(k) => {
                    assert(before[k as int] == cache@[k as int]@);
                    if cache[k].senders.len() > MIN_INGRESS_NODES {
                        let ghost entry = before[k as int];
                        let origin_stake = stakes.get(&origin);
                        let least = if own_stake < origin_stake {
                            own_stake
                        } else {
                            origin_stake
                        };
                        let min_stake: u128 = (least as u128) * (PRUNE_STAKE_THRESHOLD_PCT as u128)
                            / 100;
                        let sender_stakes = stakes_of(&cache[k].senders, stakes);
                        let mut i: usize = 0;
                        while i < cache[k].senders.len()
                            invariant
                                k < cache@.len(),
                                cache@[k as int]@ == entry,
                                i <= entry.senders.len(),
                                entry.senders.len() <= usize::MAX,
                                entry.origin == origin,
                                sender_stakes@.len() == entry.senders.len(),
                                forall|j: int|
                                    0 <= j < entry.senders.len() ==> #[trigger] sender_stakes@[j]
                                        == stakes.spec_get(entry.senders[j].node),
                                min_stake == min_ingress_stake(*stakes, *self_pubkey, origin),
                                pairs@ == pairs_before + redundant_pairs(
                                    entry,
                                    *stakes,
                                    *self_pubkey,
                                    i as nat,
                                ),
                            decreases entry.senders.len() - i,
                        {
                            if redundant(
                                &cache[k].senders,
                                &sender_stakes,
                                stakes,
                                min_stake,
                                i,
                            ) {
                                pairs.push((cache[k].senders[i].node, origin));
                                assert(pairs@ =~= pairs_before + redundant_pairs(
                                    entry,
                                    *stakes,
                                    *self_pubkey,
                                    (i + 1) as nat,
                                ));
                            }
                            i += 1;
                        }
                        cache.remove(k);
                        proof {
                            let target = before.remove(k as int);
                            assert(received_views(cache@) =~= target) by {
                                assert forall|t: int| 0 <= t < target.len() implies received_views(cache@)[t]
                                    == target[t] by {
                                    assert(received_views(cache@)[t] == cache@[t]@);
                                }
                            }
                            assert(received_wf(target)) by {
                                assert forall|a: int, b: int|
                                    #![trigger target[a], target[b]]
                                    0 <= a < b < target.len() implies target[a].origin
                                    != target[b].origin by {
                                    let sa = if a < k {
                                        a
                                    } else {
                                        a + 1
                                    };
                                    let sb = if b < k {
                                        b
                                    } else {
                                        b + 1
                                    };
                                    assert(before[sa].origin != before[sb].origin);
                                }
                                assert forall|a: int| 0 <= a < target.len() implies senders_distinct(
                                    #[trigger] target[a].senders,
                                ) by {
                                    let sa = if a < k {
                                        a
                                    } else {
                                        a + 1
                                    };
                                    assert(senders_distinct(before[sa].senders));
                                }
                            }
                        }
                    }
                },
                None => {},
            }
            n += 1;
        }
        self.received_cache = cache;
        group_pairs(&pairs)
    }

    fn find_peer(set: &Vec<ActivePeer>, node: &Pubkey) -> (found: Option<usize>)
        requires
            peers_distinct(peer_views(set@)),
        ensures
            match found {
                Some(k) => {
                    let active = peer_views(set@);
                    peer_at(active, *node, k as int) && has_peer(active, *node) && peer_index(
                        active,
                        *node,
                    ) == k
                },
                None => !has_peer(peer_views(set@), *node),
            },
    {
        let ghost active = peer_views(set@);
        let mut i: usize = 0;
        while i < set.len()
            invariant
                i <= set@.len(),
                active == peer_views(set@),
                peers_distinct(active),
                forall|j: int| 0 <= j < i ==> active[j].node != *node,
            decreases set@.len() - i,
        {
            assert(active[i as int] == set@[i as int]@);
            if set[i].node.same(node) {
                proof {
                    let c = peer_index(active, *node);
                    assert(peer_at(active, *node, i as int));
                    assert(peer_at(active, *node, c));
                    if c < i {
                        assert(active[c].node != active[i as int].node);
                    } else if i < c {
                        assert(active[i as int].node != active[c].node);
                    }
                }
                return Some(i);
            }
            i += 1;
        }
        assert(!has_peer(active, *node)) by {
            if has_peer(active, *node) {
                let k = peer_index(active, *node);
                assert(peer_at(active, *node, k));
            }
        }
        None
    }

    /// Draws the active set anew from `nodes`, which have the weights
    /// `weights`: up to `push_fanout` nodes are drawn without putting back,
    /// each in proportion to its weight, with the draws that `seed` gives.
    /// A node that stays in the set keeps what it pruned and its cursor.
    pub fn refresh(&mut self, nodes: &Vec<ContactInfo>, weights: Vec<u64>, seed: u64)
        ensures
            final(self).received() == old(self).received(),
            final(self).spec_cursor() == old(self).spec_cursor(),
            final(self).spec_config() == old(self).spec_config(),
            ({
                let picked = sample(
                    weights@,
                    seed,
                    old(self).spec_config().push_fanout as nat,
                ).picked;
                final(self).active() == refreshed(
                    old(self).active(),
                    nodes@,
                    picked,
                    old(self).spec_cursor(),
                    picked.len(),
                )
            }),
    {
        proof {
            use_type_invariant(&*self);
        }
        let ghost before = self.active();
        let picked = sample_indices(weights, seed, self.config.push_fanout);
        let cursor = self.cursor;
        let mut set: Vec<ActivePeer> = Vec::new();
        let mut n: usize = 0;
        assert(peer_views(set@) =~= Seq::<PeerView>::empty());
        while n < picked.len()
            invariant
                n <= picked@.len(),
                picked@.len() <= self.config.push_fanout,
                peers_distinct(before),
                before == self.active(),
                cursor == self.cursor,
                *self == *old(self),
                peer_views(set@) == refreshed(
                    before,
                    nodes@,
                    picked@,
                    cursor,
                    n as nat,
                ),
                peers_distinct(peer_views(set@)),
                set@.len() <= n,
            decreases picked@.len() - n,
        {
            let ghost prev = peer_views(set@);
            let at = picked[n];
            if at < nodes.len() && Self::find_peer(&set, &nodes[at].pubkey).is_none() {
                let node = nodes[at].pubkey;
                let peer = match Self::find_peer(&self.active_set, &node) {
                    Some(q) => {
                        assert(before[q as int] == self.active_set@[q as int]@);
                        ActivePeer {
                            node,
                            pruned: copy_keys(&self.active_set[q].pruned),
                            cursor: self.active_set[q].cursor,
                        }
                    },
                    None => ActivePeer { node, pruned: Vec::new(), cursor },
                };
                let ghost view = peer@;
                set.push(peer);
                proof {
                    let next = peer_views(set@);
                    assert(next =~= prev.push(view));
                    assert forall|a: int, b: int|
                        #![trigger next[a], next[b]]
                        0 <= a < b < next.len() implies next[a].node != next[b].node by {
                        if b < prev.len() {
                            assert(prev[a].node != prev[b].node);
                        } else {
                            if prev[a].node == node {
                                assert(peer_at(prev, node, a));
                            }
                        }
                    }
                }
            }
            n += 1;
        }
        self.active_set = set;
    }

    /// How many records of the table are still to be pushed to some peer of
    /// the active set.
    pub fn num_pending(&self, crds: &Crds) -> (pending: usize)
        ensures
            pending == crds.records().filter(
                |entry: CrdsEntry|
                    entry.ordinal >= least_cursor(
                        self.active(),
                        crds.spec_next_ordinal(),
                        self.active().len(),
                    ),
            ).len(),
    {
        let least = Self::least_active_cursor(&self.active_set, crds.next_ordinal());
        crds.get_records_since(least).len()
    }

    /// Forgets the nodes `nodes`: they leave the active set, and what was
    /// noted of the deliveries of their records is dropped.
    pub fn forget_nodes(&mut self, nodes: &Vec<Pubkey>)
        ensures
            final(self).spec_cursor() == old(self).spec_cursor(),
            final(self).spec_config() == old(self).spec_config(),
            final(self).active() == old(self).active().filter(
                |peer: PeerView| !nodes@.contains(peer.node),
            ),
            final(self).received() == old(self).received().filter(
                |entry: ReceivedView| !nodes@.contains(entry.origin),
            ),
    {
        proof {
            use_type_invariant(&*self);
        }
        let ghost active0 = self.active();
        let ghost received0 = self.received();
        let fanout = self.config.push_fanout;
        let mut set: Vec<ActivePeer> = Vec::new();
        std::mem::swap(&mut set, &mut self.active_set);
        let mut cache: Vec<ReceivedEntry> = Vec::new();
        std::mem::swap(&mut cache, &mut self.received_cache);
        let ghost keep_peer = |peer: PeerView| !nodes@.contains(peer.node);
        let ghost keep_entry = |entry: ReceivedView| !nodes@.contains(entry.origin);
        let ghost mut done: int = 0;
        let mut i: usize = 0;
        proof {
            reveal(Seq::filter);
            assert(active0.take(0) =~= Seq::<PeerView>::empty());
            assert(active0.take(0).filter(keep_peer) + active0.skip(0) =~= active0);
        }
        while i < set.len()
            invariant
                0 <= done <= active0.len(),
                i <= set@.len(),
                keep_peer == |peer: PeerView| !nodes@.contains(peer.node),
                peer_views(set@) == active0.take(done).filter(keep_peer) + active0.skip(done),
                i == active0.take(done).filter(keep_peer).len(),
                peers_distinct(peer_views(set@)),
                peer_views(set@).len() <= fanout,
                peer_views(set@).len() == set@.len(),
            decreases active0.len() - done,
        {
            let ghost before = peer_views(set@);
            let ghost prefix = active0.take(done).filter(keep_peer);
            proof {
                reveal(Seq::filter);
                assert(active0.take(done + 1).drop_last() =~= active0.take(done));
                assert(before[i as int] == active0.skip(done)[0]);
                assert(before[i as int] == set@[i as int]@);
            }
            if contains_key(nodes, &set[i].node) {
                set.remove(i);
                proof {
                    let after = peer_views(set@);
                    assert(after =~= before.remove(i as int));
                    assert(after =~= prefix + active0.skip(done + 1));
                    assert forall|a: int, b: int|
                        #![trigger after[a], after[b]]
                        0 <= a < b < after.len() implies after[a].node != after[b].node by {
                        let sa = if a < i {
                            a
                        } else {
                            a + 1
                        };
                        let sb = if b < i {
                            b
                        } else {
                            b + 1
                        };
                        assert(before[sa].node != before[sb].node);
                    }
                }
            } else {
                proof {
                    assert(prefix.push(active0[done]) + active0.skip(done + 1) =~= prefix
                        + active0.skip(done));
                }
                i += 1;
            }
            proof {
                done = done + 1;
            }
        }
        proof {
            assert(active0.skip(done) =~= Seq::<PeerView>::empty()) by {
                assert(peer_views(set@).len() == i);
            }
            assert(active0.take(done) =~= active0);
            assert(peer_views(set@) =~= active0.filter(keep_peer));
        }
        let ghost mut seen: int = 0;
        let mut k: usize = 0;
        proof {
            reveal(Seq::filter);
            assert(received0.take(0) =~= Seq::<ReceivedView>::empty());
            assert(received0.take(0).filter(keep_entry) + received0.skip(0) =~= received0);
        }
        while k < cache.len()
            invariant
                0 <= seen <= received0.len(),
                k <= cache@.len(),
                keep_entry == |entry: ReceivedView| !nodes@.contains(entry.origin),
                received_views(cache@) == received0.take(seen).filter(keep_entry) + received0.skip(seen),
                k == received0.take(seen).filter(keep_entry).len(),
                received_wf(received_views(cache@)),
                received_views(cache@).len() == cache@.len(),
            decreases received0.len() - seen,
        {
            let ghost before = received_views(cache@);
            let ghost prefix = received0.take(seen).filter(keep_entry);
            proof {
                reveal(Seq::filter);
                assert(received0.take(seen + 1).drop_last() =~= received0.take(seen));
                assert(before[k as int] == received0.skip(seen)[0]);
                assert(before[k as int] == cache@[k as int]@);
            }
            if contains_key(nodes, &cache[k].origin) {
                cache.remove(k);
                proof {
                    let after = received_views(cache@);
                    assert(after =~= before.remove(k as int));
                    assert(after =~= prefix + received0.skip(seen + 1));
                    assert forall|a: int, b: int|
                        #![trigger after[a], after[b]]
                        0 <= a < b < after.len() implies after[a].origin != after[b].origin by {
                        let sa = if a < k {
                            a
                        } else {
                            a + 1
                        };
                        let sb = if b < k {
                            b
                        } else {
                            b + 1
                        };
                        assert(before[sa].origin != before[sb].origin);
                    }
                    assert forall|a: int| 0 <= a < after.len() implies senders_distinct(
                        #[trigger] after[a].senders,
                    ) by {
                        let sa = if a < k {
                            a
                        } else {
                            a + 1
                        };
                        assert(senders_distinct(before[sa].senders));
                    }
                }
            } else {
                proof {
                    assert(prefix.push(received0[seen]) + received0.skip(seen + 1) =~= prefix
                        + received0.skip(seen));
                }
                k += 1;
            }
            proof {
                seen = seen + 1;
            }
        }
        proof {
            assert(received0.skip(seen) =~= Seq::<ReceivedView>::empty()) by {
                assert(received_views(cache@).len() == k);
            }
            assert(received0.take(seen) =~= received0);
            assert(received_views(cache@) =~= received0.filter(keep_entry));
        }
        self.active_set = set;
        self.received_cache = cache;
    }
}

/// Whether `keys` holds `key`.
pub fn contains_key(keys: &Vec<Pubkey>, key: &Pubkey) -> (found: bool)
    ensures
        found == keys@.contains(*key),
{
    let mut i: usize = 0;
    while i < keys.len()
        invariant
            i <= keys@.len(),
            forall|j: int| 0 <= j < i ==> keys@[j] != *key,
        decreases keys@.len() - i,
    {
        if keys[i].same(key) {
            return true;
        }
        i += 1;
    }
    false
}

/// Whether no author stands twice in the cache, and no peer twice among the
/// senders of an author.
pub open spec fn received_wf(received: Seq<ReceivedView>) -> bool {
    &&& forall|i: int, j: int|
        #![trigger received[i], received[j]]
        0 <= i < j < received.len() ==> received[i].origin != received[j].origin
    &&& forall|i: int| 0 <= i < received.len() ==> senders_distinct(#[trigger] received[i].senders)
}

pub open spec fn senders_distinct(senders: Seq<SenderScore>) -> bool {
    forall|i: int, j: int|
        #![trigger senders[i], senders[j]]
        0 <= i < j < senders.len() ==> senders[i].node != senders[j].node
}

fn find_sender(senders: &Vec<SenderScore>, node: &Pubkey) -> (found: Option<usize>)
    requires
        senders_distinct(senders@),
    ensures
        match found {
            Some(k) => sender_at(senders@, *node, k as int) && has_sender(senders@, *node)
                && sender_index(senders@, *node) == k,
            None => !has_sender(senders@, *node),
        },
{
    let mut i: usize = 0;
    while i < senders.len()
        invariant
            i <= senders@.len(),
            senders_distinct(senders@),
            forall|j: int| 0 <= j < i ==> senders@[j].node != *node,
        decreases senders@.len() - i,
    {
        if senders[i].node.same(node) {
            proof {
                let c = sender_index(senders@, *node);
                assert(sender_at(senders@, *node, i as int));
                assert(sender_at(senders@, *node, c));
                if c < i {
                    assert(senders@[c].node != senders@[i as int].node);
                } else if i < c {
                    assert(senders@[i as int].node != senders@[c].node);
                }
            }
            return Some(i);
        }
        i += 1;
    }
    assert(!has_sender(senders@, *node)) by {
        if has_sender(senders@, *node) {
            let k = sender_index(senders@, *node);
            assert(sender_at(senders@, *node, k));
        }
    }
    None
}

/// Noting a delivery lists no sender twice.
pub proof fn lemma_senders_with(senders: Seq<SenderScore>, sender: Pubkey, first: bool)
    requires
        senders_distinct(senders),
    ensures
        senders_distinct(senders_with(senders, sender, first)),
{
    let after = senders_with(senders, sender, first);
    if has_sender(senders, sender) {
        let k = sender_index(senders, sender);
        assert(sender_at(senders, sender, k));
        assert forall|i: int, j: int|
            #![trigger after[i], after[j]]
            0 <= i < j < after.len() implies after[i].node != after[j].node by {
            assert(senders[i].node != senders[j].node);
        }
    } else {
        assert forall|i: int, j: int|
            #![trigger after[i], after[j]]
            0 <= i < j < after.len() implies after[i].node != after[j].node by {
            if j < senders.len() {
                assert(senders[i].node != senders[j].node);
            } else {
                if senders[i].node == sender {
                    assert(sender_at(senders, sender, i));
                }
            }
        }
    }
}

fn stakes_of(senders: &Vec<SenderScore>, stakes: &StakeMap) -> (out: Vec<u64>)
    ensures
        out@.len() == senders@.len(),
        forall|j: int|
            0 <= j < senders@.len() ==> #[trigger] out@[j] == stakes.spec_get(senders@[j].node),
{
    let mut out: Vec<u64> = Vec::new();
    let mut i: usize = 0;
    while i < senders.len()
        invariant
            i <= senders@.len(),
            out@.len() == i,
            forall|j: int| 0 <= j < i ==> #[trigger] out@[j] == stakes.spec_get(senders@[j].node),
        decreases senders@.len() - i,
    {
        out.push(stakes.get(&senders[i].node));
        i += 1;
    }
    out
}

fn redundant(
    senders: &Vec<SenderScore>,
    sender_stakes: &Vec<u64>,
    stakes: &StakeMap,
    min_stake: u128,
    k: usize,
) -> (b: bool)
    requires
        k < senders@.len(),
        sender_stakes@.len() == senders@.len(),
        forall|j: int|
            0 <= j < senders@.len() ==> #[trigger] sender_stakes@[j] == stakes.spec_get(
                senders@[j].node,
            ),
    ensures
        b == (rank(senders@, *stakes, senders@[k as int], senders@.len()) >= MIN_INGRESS_NODES
            && stake_ahead(senders@, *stakes, senders@[k as int], senders@.len()) >= min_stake),
{
    let s = senders[k];
    let own = sender_stakes[k];
    let mut better: usize = 0;
    let mut ahead: u128 = 0;
    let mut i: usize = 0;
    while i < senders.len()
        invariant
            i <= senders@.len(),
            k < senders@.len(),
            s == senders@[k as int],
            own == stakes.spec_get(s.node),
            sender_stakes@.len() == senders@.len(),
            forall|j: int|
                0 <= j < senders@.len() ==> #[trigger] sender_stakes@[j] == stakes.spec_get(
                    senders@[j].node,
                ),
            better == rank(senders@, *stakes, s, i as nat),
            ahead == stake_ahead(senders@, *stakes, s, i as nat),
            better <= i,
            ahead <= i * u64::MAX,
        decreases senders@.len() - i,
    {
        let t = senders[i];
        let stake = sender_stakes[i];
        let outranking = t.score > s.score || (t.score == s.score && (stake > own || (stake == own
            && t.node.less(&s.node))));
        assert(outranking == outranks(t, s, *stakes));
        assert(i * u64::MAX + u64::MAX <= usize::MAX * u64::MAX) by (nonlinear_arith)
            requires
                i < usize::MAX,
        ;
        assert(usize::MAX * u64::MAX < u128::MAX) by (nonlinear_arith)
            requires
                usize::MAX <= u64::MAX,
        ;
        if outranking {
            better = better + 1;
            ahead = ahead + stake as u128;
        }
        i += 1;
    }
    better >= MIN_INGRESS_NODES && ahead >= min_stake
}

/// Gathers pairs of a sender and an author by sender: each sender heads one
/// group, which holds the authors it was paired with.
pub fn group_pairs(pairs: &Vec<(Pubkey, Pubkey)>) -> (groups: Vec<(Pubkey, Vec<Pubkey>)>)
    ensures
        groups_distinct(groups@),
        forall|sender: Pubkey, origin: Pubkey|
            #![trigger has_pair(groups@, sender, origin)]
            has_pair(groups@, sender, origin) <==> pairs@.contains((sender, origin)),
{
    let mut groups: Vec<(Pubkey, Vec<Pubkey>)> = Vec::new();
    let mut n: usize = 0;
    assert forall|sender: Pubkey, origin: Pubkey| !has_pair(groups@, sender, origin) by {
        if has_pair(groups@, sender, origin) {
            let (i, j) = choose|i: int, j: int| pair_at(groups@, sender, origin, i, j);
            assert(pair_at(groups@, sender, origin, i, j));
        }
    }
    while n < pairs.len()
        invariant
            n <= pairs@.len(),
            groups_distinct(groups@),
            forall|sender: Pubkey, origin: Pubkey|
                #![trigger has_pair(groups@, sender, origin)]
                has_pair(groups@, sender, origin) <==> pairs@.take(n as int).contains(
                    (sender, origin),
                ),
        decreases pairs@.len() - n,
    {
        let (sender, origin) = pairs[n];
        let ghost before = groups@;
        let mut found: Option<usize> = None;
        let mut g: usize = 0;
        while g < groups.len()
            invariant
                g <= groups@.len(),
                groups@ == before,
                match found {
                    Some(at) => at < groups@.len() && groups@[at as int].0 == sender,
                    None => forall|t: int| 0 <= t < g ==> groups@[t].0 != sender,
                },
            decreases groups@.len() - g,
        {
            if found.is_none() && groups[g].0.same(&sender) {
                found = Some(g);
            }
            g += 1;
        }
        match found {
            Some(at) => {
                groups[at].1.push(origin);
                proof {
                    let after = groups@;
                    assert(after.len() == before.len());
                    assert forall|t: int| 0 <= t < after.len() implies (#[trigger] after[t]).0
                        == before[t].0 by {}
                    assert(after[at as int].1@ == before[at as int].1@.push(origin));
                    assert forall|t: int| 0 <= t < after.len() && t != at implies (
                    #[trigger] after[t]).1@ == before[t].1@ by {}
                    lemma_group_extended(before, after, at as int, sender, origin);
                }
            },
            None => {
                let mut only: Vec<Pubkey> = Vec::new();
                only.push(origin);
                groups.push((sender, only));
                proof {
                    let after = groups@;
                    lemma_group_added(before, after, sender, origin);
                }
            },
        }
        proof {
            let prefix = pairs@.take(n as int);
            let next = pairs@.take(n + 1);
            assert(next =~= prefix.push((sender, origin)));
            assert forall|s: Pubkey, o: Pubkey|
                #![trigger has_pair(groups@, s, o)]
                has_pair(groups@, s, o) <==> next.contains((s, o)) by {
                if next.contains((s, o)) {
                    let t = choose|t: int| 0 <= t < next.len() && next[t] == (s, o);
                    if t < prefix.len() {
                        assert(prefix[t] == (s, o));
                        assert(prefix.contains((s, o)));
                    }
                }
                if prefix.contains((s, o)) {
                    let t = choose|t: int| 0 <= t < prefix.len() && prefix[t] == (s, o);
                    assert(next[t] == (s, o));
                }
                assert(next[n as int] == (sender, origin));
            }
        }
        n += 1;
    }
    assert(pairs@.take(pairs@.len() as int) =~= pairs@);
    groups
}

proof fn lemma_group_extended(
    before: Seq<(Pubkey, Vec<Pubkey>)>,
    after: Seq<(Pubkey, Vec<Pubkey>)>,
    at: int,
    sender: Pubkey,
    origin: Pubkey,
)
    requires
        groups_distinct(before),
        0 <= at < before.len(),
        after.len() == before.len(),
        before[at].0 == sender,
        forall|t: int| 0 <= t < after.len() ==> (#[trigger] after[t]).0 == before[t].0,
        after[at].1@ == before[at].1@.push(origin),
        forall|t: int| 0 <= t < after.len() && t != at ==> (#[trigger] after[t]).1@ == before[t].1@,
    ensures
        groups_distinct(after),
        forall|s: Pubkey, o: Pubkey|
            #![trigger has_pair(after, s, o)]
            has_pair(after, s, o) <==> has_pair(before, s, o) || (s == sender && o == origin),
{
    assert forall|i: int, j: int|
        #![trigger after[i], after[j]]
        0 <= i < j < after.len() implies after[i].0 != after[j].0 by {
        assert(before[i].0 != before[j].0);
    }
    assert forall|s: Pubkey, o: Pubkey|
        #![trigger has_pair(after, s, o)]
        has_pair(after, s, o) <==> has_pair(before, s, o) || (s == sender && o == origin) by {
        if has_pair(after, s, o) {
            let (i, j) = choose|i: int, j: int| pair_at(after, s, o, i, j);
            assert(pair_at(after, s, o, i, j));
            if i == at && j == before[at].1@.len() {
            } else {
                assert(pair_at(before, s, o, i, j));
            }
        }
        if has_pair(before, s, o) {
            let (i, j) = choose|i: int, j: int| pair_at(before, s, o, i, j);
            assert(pair_at(before, s, o, i, j));
            assert(pair_at(after, s, o, i, j));
        }
        if s == sender && o == origin {
            assert(pair_at(after, s, o, at, before[at].1@.len() as int));
        }
    }
}

proof fn lemma_group_added(
    before: Seq<(Pubkey, Vec<Pubkey>)>,
    after: Seq<(Pubkey, Vec<Pubkey>)>,
    sender: Pubkey,
    origin: Pubkey,
)
    requires
        groups_distinct(before),
        forall|t: int| 0 <= t < before.len() ==> (#[trigger] before[t]).0 != sender,
        after.len() == before.len() + 1,
        forall|t: int| 0 <= t < before.len() ==> #[trigger] after[t] == before[t],
        after[before.len() as int].0 == sender,
        after[before.len() as int].1@ == seq![origin],
    ensures
        groups_distinct(after),
        forall|s: Pubkey, o: Pubkey|
            #![trigger has_pair(after, s, o)]
            has_pair(after, s, o) <==> has_pair(before, s, o) || (s == sender && o == origin),
{
    assert forall|i: int, j: int|
        #![trigger after[i], after[j]]
        0 <= i < j < after.len() implies after[i].0 != after[j].0 by {
        assert(after[i] == before[i]);
        if j < before.len() {
            assert(after[j] == before[j]);
            assert(before[i].0 != before[j].0);
        }
    }
    assert forall|s: Pubkey, o: Pubkey|
        #![trigger has_pair(after, s, o)]
        has_pair(after, s, o) <==> has_pair(before, s, o) || (s == sender && o == origin) by {
        if has_pair(after, s, o) {
            let (i, j) = choose|i: int, j: int| pair_at(after, s, o, i, j);
            assert(pair_at(after, s, o, i, j));
            if i < before.len() {
                assert(after[i] == before[i]);
                assert(pair_at(before, s, o, i, j));
            }
        }
        if has_pair(before, s, o) {
            let (i, j) = choose|i: int, j: int| pair_at(before, s, o, i, j);
            assert(pair_at(before, s, o, i, j));
            assert(after[i] == before[i]);
            assert(pair_at(after, s, o, i, j));
        }
        if s == sender && o == origin {
            assert(pair_at(after, s, o, before.len() as int, 0));
        }
    }
}

fn copy_keys(keys: &Vec<Pubkey>) -> (copy: Vec<Pubkey>)
    ensures
        copy@ == keys@,
{
    let mut copy: Vec<Pubkey> = Vec::new();
    let mut i: usize = 0;
    while i < keys.len()
        invariant
            i <= keys@.len(),
            copy@ == keys@.take(i as int),
        decreases keys@.len() - i,
    {
        copy.push(keys[i]);
        assert(keys@.take(i + 1) =~= keys@.take(i as int).push(keys@[i as int]));
        i += 1;
    }
    assert(keys@.take(keys@.len() as int) =~= keys@);
    copy
}

} // verus!
