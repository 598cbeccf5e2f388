//! The table of records that a node holds: one record for each label, in
//! the order in which the records were taken.

use crate::crds_data::{ContactInfo, CrdsData, CrdsValueLabel};
use crate::crds_value::CrdsValue;
use crate::identity;
use crate::identity::{lemma_bytes_less_asymmetric, Pubkey};
use crate::timeouts::CrdsTimeouts;
use vstd::prelude::*;

verus! {

/// By which way a record reached the table. It is counted, and decides
/// nothing about whether the record is taken.
#[derive(Clone, Copy, Debug)]
pub enum GossipRoute {
    LocalMessage,
    PullResponse,
    PushMessage(Pubkey),
}

/// Why the table did not take a record.
#[derive(Clone, Copy, Debug, PartialEq, Eq, Structural)]
pub enum CrdsError {
    /// The signature does not verify under the author's key.
    InvalidSignature,
    /// The table holds a record for the label that the new one does not
    /// override.
    InsertFailed,
    /// The table holds this very record.
    Duplicate,
    /// The table has handed out its last ordinal.
    TableFull,
}

/// A record as the table holds it.
#[derive(Clone, Copy, Debug)]
pub struct CrdsEntry {
    pub value: CrdsValue,
    /// When this node took the record.
    pub local_timestamp: u64,
    /// The rank of the record among all that this node ever took.
    pub ordinal: u64,
}

/// How many records the table took by each route.
#[derive(Clone, Copy, Debug, PartialEq, Eq, Structural)]
pub struct CrdsStats {
    pub local_inserts: u64,
    pub pull_inserts: u64,
    pub push_inserts: u64,
}

/// The table of records: at most one per label, in the order in which they
/// were taken.
pub struct Crds {
    entries: Vec<CrdsEntry>,
    next_ordinal: u64,
    purged: Vec<(identity::Hash, u64)>,
    stats: CrdsStats,
}

/// Whether `records` holds a record for `label` at `k`.
pub open spec fn holds_at(records: Seq<CrdsEntry>, label: CrdsValueLabel, k: int) -> bool {
    0 <= k < records.len() && records[k].value.spec_label() == label
}

pub open spec fn contains_label(records: Seq<CrdsEntry>, label: CrdsValueLabel) -> bool {
    exists|k: int| holds_at(records, label, k)
}

/// Where `records` holds the record for `label`, if it holds one.
pub open spec fn index_of(records: Seq<CrdsEntry>, label: CrdsValueLabel) -> int {
    choose|k: int| holds_at(records, label, k)
}

/// The record that `records` holds for `label`.
pub open spec fn lookup(records: Seq<CrdsEntry>, label: CrdsValueLabel) -> Option<CrdsEntry> {
    if contains_label(records, label) {
        Some(records[index_of(records, label)])
    } else {
        None
    }
}

/// Whether a new record takes the place of the one held for its label: it
/// does when its wallclock is later, or when the wallclocks agree and its
/// hash is the greater.
pub open spec fn overrides(value: CrdsValue, existing: CrdsValue) -> bool {
    ||| value.spec_wallclock() > existing.spec_wallclock()
    ||| (value.spec_wallclock() == existing.spec_wallclock() && existing.spec_hash().spec_less(
        value.spec_hash(),
    ))
}

/// What `insert` answers for `value`.
pub open spec fn insert_outcome(
    records: Seq<CrdsEntry>,
    next_ordinal: u64,
    value: CrdsValue,
) -> Result<
    (),
    CrdsError,
> {
    let label = value.spec_label();
    if !value.spec_verified() {
        Err(CrdsError::InvalidSignature)
    } else if !contains_label(records, label) {
        if next_ordinal == u64::MAX {
            Err(CrdsError::TableFull)
        } else {
            Ok(())
        }
    } else {
        let existing = records[index_of(records, label)].value;
        if !overrides(value, existing) {
            if existing.spec_hash() == value.spec_hash() {
                Err(CrdsError::Duplicate)
            } else {
                Err(CrdsError::InsertFailed)
            }
        } else if next_ordinal == u64::MAX {
            Err(CrdsError::TableFull)
        } else {
            Ok(())
        }
    }
}

/// The records and the next ordinal after `value` was offered at time
/// `now`: those of `insert_records` where the table takes the record, the
/// same as before where it does not.
pub open spec fn after_insert(
    records: Seq<CrdsEntry>,
    next_ordinal: u64,
    value: CrdsValue,
    now: u64,
) -> (
    Seq<CrdsEntry>,
    u64,
) {
    if insert_outcome(records, next_ordinal, value) is Ok {
        (insert_records(records, next_ordinal, value, now), (next_ordinal + 1) as u64)
    } else {
        (records, next_ordinal)
    }
}

/// The records after `value` was taken at time `now`: the record held for
/// its label leaves, and the new one comes last.
pub open spec fn insert_records(
    records: Seq<CrdsEntry>,
    next_ordinal: u64,
    value: CrdsValue,
    now: u64,
) -> Seq<
    CrdsEntry,
> {
    let label = value.spec_label();
    let entry = CrdsEntry { value, local_timestamp: now, ordinal: next_ordinal };
    if contains_label(records, label) {
        records.remove(index_of(records, label)).push(entry)
    } else {
        records.push(entry)
    }
}

/// The counts after one more record came by `route`.
pub open spec fn count_route(stats: CrdsStats, route: GossipRoute) -> CrdsStats {
    match route {
        GossipRoute::LocalMessage => CrdsStats {
            local_inserts: if stats.local_inserts < u64::MAX {
                (stats.local_inserts + 1) as u64
            } else {
                stats.local_inserts
            },
            ..stats
        },
        GossipRoute::PullResponse => CrdsStats {
            pull_inserts: if stats.pull_inserts < u64::MAX {
                (stats.pull_inserts + 1) as u64
            } else {
                stats.pull_inserts
            },
            ..stats
        },
        GossipRoute::PushMessage(_) => CrdsStats {
            push_inserts: if stats.push_inserts < u64::MAX {
                (stats.push_inserts + 1) as u64
            } else {
                stats.push_inserts
            },
            ..stats
        },
    }
}

/// Whether a record has rested longer than its timeout allows.
pub open spec fn expired(entry: CrdsEntry, now: u64, timeouts: CrdsTimeouts) -> bool {
    entry.local_timestamp + timeouts.spec_timeout(entry.value.spec_label()) < now
}

/// Whether the node `owner` looks gone: the table holds no contact info of
/// it, or one that has expired.
pub open spec fn owner_stale(
    records: Seq<CrdsEntry>,
    owner: Pubkey,
    now: u64,
    timeouts: CrdsTimeouts,
) -> bool {
    let label = CrdsValueLabel::ContactInfo(owner);
    contains_label(records, label) ==> expired(records[index_of(records, label)], now, timeouts)
}

/// Whether `purge` removes the record: it has expired, and its author
/// looks gone.
pub open spec fn purgeable(
    records: Seq<CrdsEntry>,
    entry: CrdsEntry,
    now: u64,
    timeouts: CrdsTimeouts,
) -> bool {
    expired(entry, now, timeouts) && owner_stale(records, entry.value.spec_pubkey(), now, timeouts)
}

/// Whether `records` and `next_ordinal` can be the state of a table: no
/// label twice, ordinals rising and below `next_ordinal`, every signature
/// verified.
pub open spec fn well_formed(records: Seq<CrdsEntry>, next_ordinal: u64) -> bool {
    &&& forall|i: int, j: int|
        #![trigger records[i], records[j]]
        0 <= i < j < records.len() ==> records[i].value.spec_label()
            != records[j].value.spec_label() && records[i].ordinal < records[j].ordinal
    &&& forall|i: int|
        #![trigger records[i]]
        0 <= i < records.len() ==> records[i].ordinal < next_ordinal
            && records[i].value.spec_verified()
}

/// In a well-formed table the record for a label stands where any index
/// finds it.
pub proof fn lemma_index_of(
    records: Seq<CrdsEntry>,
    next_ordinal: u64,
    label: CrdsValueLabel,
    k: int,
)
    requires
        well_formed(records, next_ordinal),
        holds_at(records, label, k),
    ensures
        contains_label(records, label),
        index_of(records, label) == k,
        lookup(records, label) == Some(records[k]),
{
    let c = index_of(records, label);
    assert(holds_at(records, label, c));
    if c < k {
        assert(records[c].value.spec_label() != records[k].value.spec_label());
    } else if k < c {
        assert(records[k].value.spec_label() != records[c].value.spec_label());
    }
}

spec fn shifted(k: int, i: int) -> int {
    if i < k {
        i
    } else {
        i + 1
    }
}

proof fn lemma_replace(records: Seq<CrdsEntry>, next_ordinal: u64, k: int, entry: CrdsEntry)
    requires
        well_formed(records, next_ordinal),
        0 <= k < records.len(),
        entry.value.spec_label() == records[k].value.spec_label(),
        entry.ordinal == next_ordinal,
        entry.value.spec_verified(),
        next_ordinal < u64::MAX,
    ensures
        well_formed(records.remove(k).push(entry), (next_ordinal + 1) as u64),
        forall|i: int|
            0 <= i < records.len() - 1 ==> #[trigger] records.remove(k).push(entry)[i]
                == records[shifted(k, i)],
        records.remove(k).push(entry)[records.len() - 1] == entry,
        records.remove(k).push(entry).len() == records.len(),
{
    let after = records.remove(k).push(entry);
    assert forall|i: int| 0 <= i < records.len() - 1 implies #[trigger] after[i] == records[shifted(
        k,
        i,
    )] by {}
    assert forall|i: int, j: int|
        #![trigger after[i], after[j]]
        0 <= i < j < after.len() implies after[i].value.spec_label() != after[j].value.spec_label()
        && after[i].ordinal < after[j].ordinal by {
        let si = shifted(k, i);
        assert(after[i] == records[si]);
        if j < after.len() - 1 {
            let sj = shifted(k, j);
            assert(after[j] == records[sj]);
            assert(records[si].value.spec_label() != records[sj].value.spec_label()
                && records[si].ordinal < records[sj].ordinal);
        } else {
            assert(records[si].ordinal < next_ordinal);
            if si < k {
                assert(records[si].value.spec_label() != records[k].value.spec_label());
            } else {
                assert(records[k].value.spec_label() != records[si].value.spec_label());
            }
        }
    }
    assert forall|i: int| #![trigger after[i]] 0 <= i < after.len() implies after[i].ordinal
        < next_ordinal + 1 && after[i].value.spec_verified() by {
        if i < after.len() - 1 {
            assert(after[i] == records[shifted(k, i)]);
        }
    }
}

proof fn lemma_append(records: Seq<CrdsEntry>, next_ordinal: u64, entry: CrdsEntry)
    requires
        well_formed(records, next_ordinal),
        !contains_label(records, entry.value.spec_label()),
        entry.ordinal == next_ordinal,
        entry.value.spec_verified(),
        next_ordinal < u64::MAX,
    ensures
        well_formed(records.push(entry), (next_ordinal + 1) as u64),
{
    let after = records.push(entry);
    assert forall|i: int, j: int|
        #![trigger after[i], after[j]]
        0 <= i < j < after.len() implies after[i].value.spec_label() != after[j].value.spec_label()
        && after[i].ordinal < after[j].ordinal by {
        assert(after[i] == records[i]);
        if j < records.len() {
            assert(after[j] == records[j]);
        } else {
            assert(records[i].ordinal < next_ordinal);
            if records[i].value.spec_label() == entry.value.spec_label() {
                assert(holds_at(records, entry.value.spec_label(), i));
            }
        }
    }
    assert forall|i: int| #![trigger after[i]] 0 <= i < after.len() implies after[i].ordinal
        < next_ordinal + 1 && after[i].value.spec_verified() by {
        if i < records.len() {
            assert(after[i] == records[i]);
        }
    }
}

/// Taking a record into a well-formed table leaves a well-formed table that
/// holds the record under its label.
pub proof fn lemma_insert_records(
    records: Seq<CrdsEntry>,
    next_ordinal: u64,
    value: CrdsValue,
    now: u64,
)
    requires
        well_formed(records, next_ordinal),
        insert_outcome(records, next_ordinal, value) is Ok,
    ensures
        well_formed(insert_records(records, next_ordinal, value, now), (next_ordinal + 1) as u64),
        lookup(insert_records(records, next_ordinal, value, now), value.spec_label()) == Some(
            CrdsEntry { value, local_timestamp: now, ordinal: next_ordinal },
        ),
{
    let label = value.spec_label();
    let entry = CrdsEntry { value, local_timestamp: now, ordinal: next_ordinal };
    let after = insert_records(records, next_ordinal, value, now);
    let next = (next_ordinal + 1) as u64;
    if contains_label(records, label) {
        let k = index_of(records, label);
        assert(holds_at(records, label, k));
        lemma_replace(records, next_ordinal, k, entry);
    } else {
        lemma_append(records, next_ordinal, entry);
    }
    assert(holds_at(after, label, after.len() - 1));
    lemma_index_of(after, next, label, after.len() - 1);
}

impl Crds {
    /// The records of the table, in the order in which they were taken.
    pub closed spec fn records(&self) -> Seq<CrdsEntry> {
        self.entries@
    }

    /// The ordinal that the next record gets.
    pub closed spec fn spec_next_ordinal(&self) -> u64 {
        self.next_ordinal
    }

    /// The hashes of the records that were purged, each with the time of
    /// the purge.
    pub closed spec fn spec_purged(&self) -> Seq<(identity::Hash, u64)> {
        self.purged@
    }

    pub closed spec fn spec_stats(&self) -> CrdsStats {
        self.stats
    }

    /// Whether the table holds no label twice, its ordinals rise, and every
    /// record is verified. Every table is so.
    #[verifier::type_invariant]
    pub open spec fn wf(&self) -> bool {
        well_formed(self.records(), self.spec_next_ordinal())
    }

    /// The record that the table holds for `label`.
    pub open spec fn spec_get(&self, label: CrdsValueLabel) -> Option<CrdsEntry> {
        lookup(self.records(), label)
    }

    pub fn new() -> (crds: Crds)
        ensures
            crds.records() == Seq::<CrdsEntry>::empty(),
            crds.spec_next_ordinal() == 0,
            crds.spec_purged() == Seq::<(identity::Hash, u64)>::empty(),
            crds.spec_stats() == (CrdsStats { local_inserts: 0, pull_inserts: 0, push_inserts: 0 }),
    {
        Crds {
            entries: Vec::new(),
            next_ordinal: 0,
            purged: Vec::new(),
            stats: CrdsStats { local_inserts: 0, pull_inserts: 0, push_inserts: 0 },
        }
    }

    pub fn len(&self) -> (n: usize)
        ensures
            n == self.records().len(),
    {
        self.entries.len()
    }

    pub fn is_empty(&self) -> (b: bool)
        ensures
            b == (self.records().len() == 0),
    {
        self.entries.len() == 0
    }

    pub fn next_ordinal(&self) -> (ordinal: u64)
        ensures
            ordinal == self.spec_next_ordinal(),
    {
        self.next_ordinal
    }

    pub fn stats(&self) -> (stats: CrdsStats)
        ensures
            stats == self.spec_stats(),
    {
        self.stats
    }

    /// The record at place `i` in the order of taking.
    pub fn entry(&self, i: usize) -> (entry: &CrdsEntry)
        requires
            i < self.records().len(),
        ensures
            *entry == self.records()[i as int],
    {
        &self.entries[i]
    }

    pub fn num_purged(&self) -> (n: usize)
        ensures
            n == self.spec_purged().len(),
    {
        self.purged.len()
    }

    /// The hash of the `i`-th purged record that the table remembers.
    pub fn purged_hash(&self, i: usize) -> (hash: identity::Hash)
        requires
            i < self.spec_purged().len(),
        ensures
            hash == self.spec_purged()[i as int].0,
    {
        self.purged[i].0
    }

    fn position(&self, label: &CrdsValueLabel) -> (found: Option<usize>)
        ensures
            match found {
                Some(k) => holds_at(self.records(), *label, k as int) && contains_label(
                    self.records(),
                    *label,
                ) && index_of(self.records(), *label) == k,
                None => !contains_label(self.records(), *label),
            },
    {
        proof {
            use_type_invariant(self);
        }
        let mut i: usize = 0;
        while i < self.entries.len()
            invariant
                i <= self.entries@.len(),
                well_formed(self.entries@, self.next_ordinal),
                forall|j: int| 0 <= j < i ==> self.entries@[j].value.spec_label() != *label,
            decreases self.entries@.len() - i,
        {
            if self.entries[i].value.label().same(label) {
                proof {
                    lemma_index_of(self.entries@, self.next_ordinal, *label, i as int);
                }
                return Some(i);
            }
            i += 1;
        }
        assert(!contains_label(self.entries@, *label)) by {
            if contains_label(self.entries@, *label) {
                let k = index_of(self.entries@, *label);
                assert(holds_at(self.entries@, *label, k));
            }
        }
        None
    }

    /// The record that the table holds for `label`.
    pub fn get(&self, label: &CrdsValueLabel) -> (found: Option<&CrdsEntry>)
        ensures
            match found {
                Some(entry) => self.spec_get(*label) == Some(*entry),
                None => self.spec_get(*label).is_none(),
            },
    {
        match self.position(label) {
            Some(k) => Some(&self.entries[k]),
            None => None,
        }
    }

    /// The contact info that the table holds of the node `pubkey`.
    pub fn get_contact_info(&self, pubkey: &Pubkey) -> (found: Option<ContactInfo>)
        ensures
            match self.spec_get(CrdsValueLabel::ContactInfo(*pubkey)) {
                Some(entry) => found == Some(entry.value.spec_data()->ContactInfo_0),
                None => found.is_none(),
            },
    {
        let label = CrdsValueLabel::ContactInfo(*pubkey);
        match self.position(&label) {
            Some(k) => {
                match self.entries[k].value.data() {
                    CrdsData::ContactInfo(info) => Some(info),
                    _ => {
                        assert(false);
                        None
                    },
                }
            },
            None => None,
        }
    }

    /// Takes `value` into the table at time `now`, unless its signature is
    /// invalid or the table holds a record for its label that it does not
    /// override. A record that is taken gets the next ordinal. Whether the
    /// signature is valid is what `value.consistent()` says of it.
    pub fn insert(&mut self, value: CrdsValue, now: u64, route: GossipRoute) -> (result: Result<
        (),
        CrdsError,
    >)
        ensures
            value.consistent(),
            result == insert_outcome(old(self).records(), old(self).spec_next_ordinal(), value),
            final(self).spec_purged() == old(self).spec_purged(),
            match result {
                Ok(()) => {
                    &&& final(self).records() == insert_records(
                        old(self).records(),
                        old(self).spec_next_ordinal(),
                        value,
                        now,
                    )
                    &&& final(self).spec_next_ordinal() == old(self).spec_next_ordinal() + 1
                    &&& final(self).spec_stats() == count_route(old(self).spec_stats(), route)
                },
                Err(_) => {
                    &&& final(self).records() == old(self).records()
                    &&& final(self).spec_next_ordinal() == old(self).spec_next_ordinal()
                    &&& final(self).spec_stats() == old(self).spec_stats()
                },
            },
    {
        proof {
            use_type_invariant(&*self);
            use_type_invariant(&value);
        }
        if !value.verify() {
            return Err(CrdsError::InvalidSignature);
        }
        let label = value.label();
        let found = self.position(&label);
        match found {
            Some(k) => {
                let existing = self.entries[k].value;
                let newer = value.wallclock() > existing.wallclock() || (value.wallclock()
                    == existing.wallclock() && existing.hash().less(&value.hash()));
                if !newer {
                    if existing.hash().same(&value.hash()) {
                        return Err(CrdsError::Duplicate);
                    }
                    return Err(CrdsError::InsertFailed);
                }
            },
            None => {},
        }
        if self.next_ordinal == u64::MAX {
            return Err(CrdsError::TableFull);
        }
        proof {
            lemma_insert_records(self.entries@, self.next_ordinal, value, now);
        }
        let mut entries: Vec<CrdsEntry> = Vec::new();
        std::mem::swap(&mut entries, &mut self.entries);
        match found {
            Some(k) => {
                entries.remove(k);
            },
            None => {},
        }
        entries.push(CrdsEntry { value, local_timestamp: now, ordinal: self.next_ordinal });
        let mut stats = self.stats;
        match route {
            GossipRoute::LocalMessage => {
                if stats.local_inserts < u64::MAX {
                    stats.local_inserts = stats.local_inserts + 1;
                }
            },
            GossipRoute::PullResponse => {
                if stats.pull_inserts < u64::MAX {
                    stats.pull_inserts = stats.pull_inserts + 1;
                }
            },
            GossipRoute::PushMessage(_) => {
                if stats.push_inserts < u64::MAX {
                    stats.push_inserts = stats.push_inserts + 1;
                }
            },
        }
        self.next_ordinal = self.next_ordinal + 1;
        self.entries = entries;
        self.stats = stats;
        Ok(())
    }

    /// Whether the table would take `value`.
    pub fn upserts(&self, value: &CrdsValue) -> (b: bool)
        ensures
            b == (insert_outcome(self.records(), self.spec_next_ordinal(), *value) is Ok),
    {
        proof {
            use_type_invariant(self);
        }
        if !value.verify() {
            return false;
        }
        let label = value.label();
        match self.position(&label) {
            Some(k) => {
                let existing = self.entries[k].value;
                let newer = value.wallclock() > existing.wallclock() || (value.wallclock()
                    == existing.wallclock() && existing.hash().less(&value.hash()));
                newer && self.next_ordinal < u64::MAX
            },
            None => self.next_ordinal < u64::MAX,
        }
    }

    /// The records taken at ordinal `ordinal` or later, oldest first.
    pub fn get_records_since(&self, ordinal: u64) -> (since: Vec<CrdsEntry>)
        ensures
            since@ == self.records().filter(|entry: CrdsEntry| entry.ordinal >= ordinal),
    {
        let ghost pred = |entry: CrdsEntry| entry.ordinal >= ordinal;
        let mut since: Vec<CrdsEntry> = Vec::new();
        let mut i: usize = 0;
        proof {
            reveal(Seq::filter);
            assert(self.entries@.take(0) =~= Seq::<CrdsEntry>::empty());
        }
        while i < self.entries.len()
            invariant
                i <= self.entries@.len(),
                pred == |entry: CrdsEntry| entry.ordinal >= ordinal,
                since@ == self.entries@.take(i as int).filter(pred),
            decreases self.entries@.len() - i,
        {
            let entry = self.entries[i];
            proof {
                reveal(Seq::filter);
                assert(self.entries@.take(i + 1).drop_last() =~= self.entries@.take(i as int));
            }
            if entry.ordinal >= ordinal {
                since.push(entry);
            }
            i += 1;
        }
        assert(self.entries@.take(self.entries@.len() as int) =~= self.entries@);
        since
    }

    /// The records that the node `owner` wrote, oldest first.
    pub fn get_records_of(&self, owner: &Pubkey) -> (records: Vec<CrdsEntry>)
        ensures
            records@ == self.records().filter(
                |entry: CrdsEntry| entry.value.spec_pubkey() == *owner,
            ),
    {
        let ghost pred = |entry: CrdsEntry| entry.value.spec_pubkey() == *owner;
        let mut records: Vec<CrdsEntry> = Vec::new();
        let mut i: usize = 0;
        proof {
            reveal(Seq::filter);
            assert(self.entries@.take(0) =~= Seq::<CrdsEntry>::empty());
        }
        while i < self.entries.len()
            invariant
                i <= self.entries@.len(),
                pred == |entry: CrdsEntry| entry.value.spec_pubkey() == *owner,
                records@ == self.entries@.take(i as int).filter(pred),
            decreases self.entries@.len() - i,
        {
            let entry = self.entries[i];
            proof {
                reveal(Seq::filter);
                assert(self.entries@.take(i + 1).drop_last() =~= self.entries@.take(i as int));
            }
            if entry.value.pubkey().same(owner) {
                records.push(entry);
            }
            i += 1;
        }
        assert(self.entries@.take(self.entries@.len() as int) =~= self.entries@);
        records
    }

    /// Whether the table holds a record with the content hash `hash`.
    pub fn contains_hash(&self, hash: &identity::Hash) -> (found: bool)
        ensures
            found == exists|i: int|
                0 <= i < self.records().len() && (#[trigger] self.records()[i]).value.spec_hash()
                    == *hash,
    {
        let mut i: usize = 0;
        while i < self.entries.len()
            invariant
                i <= self.entries@.len(),
                forall|j: int| 0 <= j < i ==> (#[trigger] self.entries@[j]).value.spec_hash() != *hash,
            decreases self.entries@.len() - i,
        {
            if self.entries[i].value.hash().same(hash) {
                assert(self.records()[i as int].value.spec_hash() == *hash);
                return true;
            }
            i += 1;
        }
        false
    }

    /// Removes every record that has expired and whose author looks gone,
    /// remembers the hashes of the removed records with the time `now`, and
    /// returns their labels.
    pub fn purge(&mut self, now: u64, timeouts: &CrdsTimeouts) -> (labels: Vec<CrdsValueLabel>)
        ensures
            final(self).records() == old(self).records().filter(
                |entry: CrdsEntry| !purgeable(old(self).records(), entry, now, *timeouts),
            ),
            labels@ == old(self).records().filter(
                |entry: CrdsEntry| purgeable(old(self).records(), entry, now, *timeouts),
            ).map_values(|entry: CrdsEntry| entry.value.spec_label()),
            final(self).spec_purged() == old(self).spec_purged() + old(self).records().filter(
                |entry: CrdsEntry| purgeable(old(self).records(), entry, now, *timeouts),
            ).map_values(|entry: CrdsEntry| (entry.value.spec_hash(), now)),
            final(self).spec_next_ordinal() == old(self).spec_next_ordinal(),
            final(self).spec_stats() == old(self).spec_stats(),
    {
        proof {
            use_type_invariant(&*self);
        }
        let ghost all = self.entries@;
        let ghost next = self.next_ordinal;
        let ghost purged_before = self.purged@;
        let mut purged: Vec<(identity::Hash, u64)> = Vec::new();
        std::mem::swap(&mut purged, &mut self.purged);
        let ghost gone = |entry: CrdsEntry| purgeable(all, entry, now, *timeouts);
        let ghost stays = |entry: CrdsEntry| !purgeable(all, entry, now, *timeouts);
        let ghost to_label = |entry: CrdsEntry| entry.value.spec_label();
        let ghost to_purged = |entry: CrdsEntry| (entry.value.spec_hash(), now);
        let mut kept: Vec<CrdsEntry> = Vec::new();
        let mut labels: Vec<CrdsValueLabel> = Vec::new();
        let ghost mut source: Seq<int> = Seq::empty();
        let mut i: usize = 0;
        proof {
            reveal(Seq::filter);
            assert(all.take(0) =~= Seq::<CrdsEntry>::empty());
            assert(all.take(0).filter(gone).map_values(to_label) =~= Seq::<CrdsValueLabel>::empty());
            assert(purged_before + all.take(0).filter(gone).map_values(to_purged)
                =~= purged_before);
        }
        while i < self.entries.len()
            invariant
                i <= all.len(),
                self.entries@ == all,
                self.next_ordinal == next,
                self.stats == old(self).stats,
                self.purged@.len() == 0,
                well_formed(all, next),
                gone == |entry: CrdsEntry| purgeable(all, entry, now, *timeouts),
                stays == |entry: CrdsEntry| !purgeable(all, entry, now, *timeouts),
                to_label == |entry: CrdsEntry| entry.value.spec_label(),
                to_purged == |entry: CrdsEntry| (entry.value.spec_hash(), now),
                kept@ == all.take(i as int).filter(stays),
                labels@ == all.take(i as int).filter(gone).map_values(to_label),
                purged@ == purged_before + all.take(i as int).filter(gone).map_values(to_purged),
                source.len() == kept@.len(),
                forall|j: int| 0 <= j < source.len() ==> 0 <= #[trigger] source[j] < i && kept@[j]
                    == all[source[j]],
                forall|j: int, k: int| 0 <= j < k < source.len() ==> source[j] < source[k],
            decreases all.len() - i,
        {
            let entry = self.entries[i];
            let is_gone = self.is_purgeable(&entry, now, timeouts);
            proof {
                reveal(Seq::filter);
                assert(all.take(i + 1).drop_last() =~= all.take(i as int));
                assert(all.take(i + 1).last() == entry);
            }
            if is_gone {
                let ghost before = all.take(i as int).filter(gone);
                labels.push(entry.value.label());
                purged.push((entry.value.hash(), now));
                proof {
                    assert(before.push(entry).map_values(to_label) =~= before.map_values(
                        to_label,
                    ).push(entry.value.spec_label()));
                    assert(purged_before + before.push(entry).map_values(to_purged) =~= (
                    purged_before + before.map_values(to_purged)).push(
                        (entry.value.spec_hash(), now),
                    ));
                }
            } else {
                kept.push(entry);
                proof {
                    source = source.push(i as int);
                }
            }
            i += 1;
        }
        proof {
            assert(all.take(all.len() as int) =~= all);
            assert(well_formed(kept@, next)) by {
                assert forall|j: int, k: int|
                    #![trigger kept@[j], kept@[k]]
                    0 <= j < k < kept@.len() implies kept@[j].value.spec_label()
                    != kept@[k].value.spec_label() && kept@[j].ordinal < kept@[k].ordinal by {
                    assert(source[j] < source[k]);
                    assert(kept@[j] == all[source[j]] && kept@[k] == all[source[k]]);
                }
                assert forall|j: int| #![trigger kept@[j]] 0 <= j < kept@.len() implies kept@[j].ordinal
                    < next && kept@[j].value.spec_verified() by {
                    assert(0 <= source[j] < all.len());
                    assert(kept@[j] == all[source[j]]);
                }
            }
        }
        self.entries = kept;
        self.purged = purged;
        labels
    }

    fn is_expired(entry: &CrdsEntry, now: u64, timeouts: &CrdsTimeouts) -> (b: bool)
        ensures
            b == expired(*entry, now, *timeouts),
    {
        let timeout = timeouts.timeout(&entry.value.label());
        match entry.local_timestamp.checked_add(timeout) {
            Some(deadline) => deadline < now,
            None => false,
        }
    }

    fn is_purgeable(&self, entry: &CrdsEntry, now: u64, timeouts: &CrdsTimeouts) -> (b: bool)
        ensures
            b == purgeable(self.records(), *entry, now, *timeouts),
    {
        if !Self::is_expired(entry, now, timeouts) {
            return false;
        }
        let owner = CrdsValueLabel::ContactInfo(entry.value.pubkey());
        match self.position(&owner) {
            Some(k) => Self::is_expired(&self.entries[k], now, timeouts),
            None => true,
        }
    }

    /// Forgets the purged records whose purge is older than `min_timestamp`.
    pub fn trim_purged(&mut self, min_timestamp: u64)
        ensures
            final(self).spec_purged() == old(self).spec_purged().filter(
                |pair: (identity::Hash, u64)| pair.1 >= min_timestamp,
            ),
            final(self).records() == old(self).records(),
            final(self).spec_next_ordinal() == old(self).spec_next_ordinal(),
            final(self).spec_stats() == old(self).spec_stats(),
    {
        let ghost pred = |pair: (identity::Hash, u64)| pair.1 >= min_timestamp;
        let mut rest: Vec<(identity::Hash, u64)> = Vec::new();
        let mut i: usize = 0;
        proof {
            use_type_invariant(&*self);
            reveal(Seq::filter);
            assert(self.purged@.take(0) =~= Seq::<(identity::Hash, u64)>::empty());
        }
        while i < self.purged.len()
            invariant
                i <= self.purged@.len(),
                *self == *old(self),
                pred == |pair: (identity::Hash, u64)| pair.1 >= min_timestamp,
                rest@ == self.purged@.take(i as int).filter(pred),
            decreases self.purged@.len() - i,
        {
            let pair = self.purged[i];
            proof {
                reveal(Seq::filter);
                assert(self.purged@.take(i + 1).drop_last() =~= self.purged@.take(i as int));
            }
            if pair.1 >= min_timestamp {
                rest.push(pair);
            }
            i += 1;
        }
        assert(self.purged@.take(self.purged@.len() as int) =~= self.purged@);
        self.purged = rest;
    }
}

/// Of two verified records for one label, the one with the later wallclock
/// is the one the table holds once both were offered, in whichever order,
/// provided the table would have taken the later one to begin with.
pub proof fn lemma_later_wallclock_wins(
    records: Seq<CrdsEntry>,
    next_ordinal: u64,
    older: CrdsValue,
    newer: CrdsValue,
    now1: u64,
    now2: u64,
)
    requires
        well_formed(records, next_ordinal),
        older.spec_verified(),
        newer.spec_verified(),
        older.spec_label() == newer.spec_label(),
        older.spec_wallclock() < newer.spec_wallclock(),
        insert_outcome(records, next_ordinal, newer) is Ok,
        next_ordinal + 2 <= u64::MAX,
    ensures
        ({
            let first = after_insert(records, next_ordinal, older, now1);
            let second = after_insert(first.0, first.1, newer, now2);
            lookup(second.0, newer.spec_label()) matches Some(entry) && entry.value == newer
        }),
        ({
            let first = after_insert(records, next_ordinal, newer, now1);
            let second = after_insert(first.0, first.1, older, now2);
            lookup(second.0, newer.spec_label()) matches Some(entry) && entry.value == newer
        }),
{
    let label = newer.spec_label();
    let next = (next_ordinal + 1) as u64;
    if insert_outcome(records, next_ordinal, older) is Ok {
        lemma_insert_records(records, next_ordinal, older, now1);
        let first = insert_records(records, next_ordinal, older, now1);
        assert(contains_label(first, label));
        lemma_insert_records(first, next, newer, now2);
    } else {
        lemma_insert_records(records, next_ordinal, newer, now2);
    }
    lemma_insert_records(records, next_ordinal, newer, now1);
    let other = insert_records(records, next_ordinal, newer, now1);
    assert(contains_label(other, label));
    assert(insert_outcome(other, next, older) is Err);
}

/// Offering a record a second time changes nothing: whatever the table
/// answered the first time, it answers the second time with an error, so it
/// keeps its records and hands out no ordinal.
pub proof fn lemma_insert_twice(
    records: Seq<CrdsEntry>,
    next_ordinal: u64,
    value: CrdsValue,
    now1: u64,
    now2: u64,
)
    requires
        well_formed(records, next_ordinal),
    ensures
        ({
            let first = after_insert(records, next_ordinal, value, now1);
            &&& insert_outcome(first.0, first.1, value) is Err
            &&& after_insert(first.0, first.1, value, now2) == first
            &&& insert_outcome(records, next_ordinal, value) is Ok ==> insert_outcome(
                first.0,
                first.1,
                value,
            ) == Err::<(), CrdsError>(CrdsError::Duplicate)
        }),
{
    if insert_outcome(records, next_ordinal, value) is Ok {
        lemma_insert_records(records, next_ordinal, value, now1);
        let after = insert_records(records, next_ordinal, value, now1);
        assert(contains_label(after, value.spec_label()));
        lemma_bytes_less_asymmetric(value.spec_hash().bytes@, value.spec_hash().bytes@);
    }
}

proof fn lemma_filter_keeps_all(records: Seq<CrdsEntry>, pred: spec_fn(CrdsEntry) -> bool)
    requires
        forall|i: int| 0 <= i < records.len() ==> pred(#[trigger] records[i]),
    ensures
        records.filter(pred) == records,
    decreases records.len(),
{
    reveal(Seq::filter);
    if records.len() > 0 {
        assert forall|i: int| 0 <= i < records.drop_last().len() implies pred(
            #[trigger] records.drop_last()[i],
        ) by {
            assert(records.drop_last()[i] == records[i]);
        }
        lemma_filter_keeps_all(records.drop_last(), pred);
        assert(records.drop_last().push(records.last()) =~= records);
    }
}

/// A purge is complete: purging again at the same time, by the same
/// timeouts, removes nothing more.
pub proof fn lemma_purge_twice(
    records: Seq<CrdsEntry>,
    next_ordinal: u64,
    now: u64,
    timeouts: CrdsTimeouts,
)
    requires
        well_formed(records, next_ordinal),
    ensures
        ({
            let kept = records.filter(|entry: CrdsEntry| !purgeable(records, entry, now, timeouts));
            kept.filter(|entry: CrdsEntry| !purgeable(kept, entry, now, timeouts)) == kept
        }),
{
    let keep = |entry: CrdsEntry| !purgeable(records, entry, now, timeouts);
    let kept = records.filter(keep);
    let again = |entry: CrdsEntry| !purgeable(kept, entry, now, timeouts);
    assert forall|i: int| 0 <= i < kept.len() implies again(#[trigger] kept[i]) by {
        let entry = kept[i];
        records.lemma_filter_pred(keep, i);
        if expired(entry, now, timeouts) {
            let owner = entry.value.spec_pubkey();
            let label = CrdsValueLabel::ContactInfo(owner);
            assert(!owner_stale(records, owner, now, timeouts));
            let c = index_of(records, label);
            assert(holds_at(records, label, c));
            assert(keep(records[c]));
            records.lemma_filter_contains(keep, c);
            let t = choose|t: int| 0 <= t < kept.len() && kept[t] == records[c];
            assert(holds_at(kept, label, t));
            let u = index_of(kept, label);
            assert(holds_at(kept, label, u));
            assert(kept.contains(kept[u]));
            records.lemma_filter_contains_rev(keep, kept[u]);
            let m = choose|m: int| 0 <= m < records.len() && records[m] == kept[u];
            assert(holds_at(records, label, m));
            lemma_index_of(records, next_ordinal, label, m);
            assert(!owner_stale(kept, owner, now, timeouts));
        }
    }
    lemma_filter_keeps_all(kept, again);
}

} // verus!
