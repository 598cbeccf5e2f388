//! The stakes of the nodes.

use crate::identity::Pubkey;
use vstd::prelude::*;

verus! {

/// The stake of each known node, as a snapshot that the caller supplies.
/// A node that the snapshot does not name has stake zero.
pub struct StakeMap {
    entries: Vec<(Pubkey, u64)>,
}

/// The stake that the first pair for `key` gives, zero where none does.
pub open spec fn first_stake(entries: Seq<(Pubkey, u64)>, key: Pubkey) -> u64
    decreases entries.len(),
{
    if entries.len() == 0 {
        0
    } else if entries[0].0 == key {
        entries[0].1
    } else {
        first_stake(entries.drop_first(), key)
    }
}

/// Whether every pair gives stake zero.
pub open spec fn no_stake(entries: Seq<(Pubkey, u64)>) -> bool {
    forall|i: int| 0 <= i < entries.len() ==> (#[trigger] entries[i]).1 == 0
}

proof fn lemma_first_stake_update(
    entries: Seq<(Pubkey, u64)>,
    k: int,
    key: Pubkey,
    stake: u64,
    other: Pubkey,
)
    requires
        0 <= k < entries.len(),
        entries[k].0 == key,
        forall|j: int| 0 <= j < k ==> entries[j].0 != key,
    ensures
        first_stake(entries.update(k, (key, stake)), other) == if other == key {
            stake
        } else {
            first_stake(entries, other)
        },
    decreases k,
{
    let updated = entries.update(k, (key, stake));
    if k == 0 {
        assert(updated.drop_first() =~= entries.drop_first());
    } else {
        assert(entries[0].0 != key);
        assert(updated[0] == entries[0]);
        lemma_first_stake_update(entries.drop_first(), k - 1, key, stake, other);
        assert(updated.drop_first() =~= entries.drop_first().update(k - 1, (key, stake)));
    }
}

proof fn lemma_first_stake_push(
    entries: Seq<(Pubkey, u64)>,
    key: Pubkey,
    stake: u64,
    other: Pubkey,
)
    requires
        forall|j: int| 0 <= j < entries.len() ==> entries[j].0 != key,
    ensures
        first_stake(entries.push((key, stake)), other) == if other == key {
            stake
        } else {
            first_stake(entries, other)
        },
    decreases entries.len(),
{
    let pushed = entries.push((key, stake));
    if entries.len() == 0 {
        assert(pushed[0] == (key, stake));
        assert(pushed.drop_first() =~= Seq::<(Pubkey, u64)>::empty());
        assert(first_stake(pushed.drop_first(), other) == 0);
        assert(first_stake(entries, other) == 0);
    } else {
        assert(entries[0].0 != key);
        assert(pushed[0] == entries[0]);
        assert forall|j: int| 0 <= j < entries.drop_first().len() implies entries.drop_first()[j].0
            != key by {
            assert(entries.drop_first()[j] == entries[j + 1]);
        }
        lemma_first_stake_push(entries.drop_first(), key, stake, other);
        assert(pushed.drop_first() =~= entries.drop_first().push((key, stake)));
    }
}

proof fn lemma_no_stake(entries: Seq<(Pubkey, u64)>, key: Pubkey)
    requires
        no_stake(entries),
    ensures
        first_stake(entries, key) == 0,
    decreases entries.len(),
{
    if entries.len() > 0 {
        assert(entries[0].1 == 0);
        assert forall|i: int| 0 <= i < entries.drop_first().len() implies (
        #[trigger] entries.drop_first()[i]).1 == 0 by {
            assert(entries.drop_first()[i] == entries[i + 1]);
        }
        lemma_no_stake(entries.drop_first(), key);
    }
}

impl StakeMap {
    /// The pairs that the snapshot holds, in the order they were given.
    pub closed spec fn pairs(&self) -> Seq<(Pubkey, u64)> {
        self.entries@
    }

    /// The stake of `key` in the snapshot.
    pub open spec fn spec_get(&self, key: Pubkey) -> u64 {
        first_stake(self.pairs(), key)
    }

    /// Whether the snapshot gives no node any stake.
    pub open spec fn spec_all_zero(&self) -> bool {
        no_stake(self.pairs())
    }

    pub fn new() -> (stakes: StakeMap)
        ensures
            stakes.pairs() == Seq::<(Pubkey, u64)>::empty(),
            forall|key: Pubkey| stakes.spec_get(key) == 0,
            stakes.spec_all_zero(),
    {
        StakeMap { entries: Vec::new() }
    }

    pub fn len(&self) -> (n: usize)
        ensures
            n == self.pairs().len(),
    {
        self.entries.len()
    }

    /// The stake of `key`, zero for a node that the snapshot does not name.
    pub fn get(&self, key: &Pubkey) -> (stake: u64)
        ensures
            stake == self.spec_get(*key),
    {
        let mut i: usize = 0;
        assert(self.entries@.skip(0) =~= self.entries@);
        while i < self.entries.len()
            invariant
                i <= self.entries@.len(),
                first_stake(self.entries@, *key) == first_stake(self.entries@.skip(i as int), *key),
            decreases self.entries@.len() - i,
        {
            if self.entries[i].0.same(key) {
                return self.entries[i].1;
            }
            assert(self.entries@.skip(i as int).drop_first() =~= self.entries@.skip(i + 1));
            i += 1;
        }
        0
    }

    /// Sets the stake of `key`, in place of what the snapshot held for it.
    pub fn insert(&mut self, key: Pubkey, stake: u64)
        ensures
            forall|other: Pubkey|
                #[trigger] final(self).spec_get(other) == if other == key {
                    stake
                } else {
                    old(self).spec_get(other)
                },
    {
        let mut i: usize = 0;
        while i < self.entries.len()
            invariant
                i <= self.entries@.len(),
                self.entries@ == old(self).entries@,
                forall|j: int| 0 <= j < i ==> self.entries@[j].0 != key,
            decreases self.entries@.len() - i,
        {
            if self.entries[i].0.same(&key) {
                let ghost before = self.entries@;
                self.entries[i] = (key, stake);
                proof {
                    assert forall|other: Pubkey|
                        #[trigger] first_stake(self.entries@, other) == if other == key {
                            stake
                        } else {
                            first_stake(before, other)
                        } by {
                        lemma_first_stake_update(before, i as int, key, stake, other);
                    }
                }
                return ;
            }
            i += 1;
        }
        let ghost before = self.entries@;
        self.entries.push((key, stake));
        proof {
            assert forall|other: Pubkey|
                #[trigger] first_stake(self.entries@, other) == if other == key {
                    stake
                } else {
                    first_stake(before, other)
                } by {
                lemma_first_stake_push(before, key, stake, other);
            }
        }
    }

    /// Whether no node has any stake.
    pub fn all_zero(&self) -> (b: bool)
        ensures
            b == self.spec_all_zero(),
            b ==> forall|key: Pubkey| self.spec_get(key) == 0,
    {
        let mut i: usize = 0;
        while i < self.entries.len()
            invariant
                i <= self.entries@.len(),
                forall|j: int| 0 <= j < i ==> (#[trigger] self.entries@[j]).1 == 0,
            decreases self.entries@.len() - i,
        {
            if self.entries[i].1 != 0 {
                return false;
            }
            i += 1;
        }
        proof {
            assert forall|key: Pubkey| self.spec_get(key) == 0 by {
                lemma_no_stake(self.entries@, key);
            }
        }
        true
    }
}

} // verus!
