//! The cache of challenges and answers by which a node makes sure that a
//! peer receives at the address it claims.

use crate::crds_data::{append_le, le_bytes};
use crate::digest::{ed25519_verifies, ed25519_verify};
use crate::identity::{Pubkey, Signature, SocketAddress};
use vstd::prelude::*;

verus! {

/// What a node knows of a peer at an address.
#[derive(Clone, Copy, Debug, PartialEq, Eq, Structural)]
pub enum LivenessState {
    /// The peer has not answered, and no challenge is under way.
    Unverified,
    /// A challenge was sent and not answered yet.
    PendingChallenge,
    /// The peer answered a challenge within the time to live.
    Verified,
}

/// What the cache holds of a peer at an address.
#[derive(Clone, Copy, Debug)]
pub struct PingEntry {
    pub node: Pubkey,
    pub addr: SocketAddress,
    /// When the challenge that is under way was sent.
    pub last_ping: Option<u64>,
    /// The number that the answer to the challenge has to sign.
    pub nonce: Option<u64>,
    /// When the peer last answered a challenge.
    pub verified_at: Option<u64>,
}

/// A challenge to send to a peer.
#[derive(Clone, Copy, Debug)]
pub struct Ping {
    pub node: Pubkey,
    pub addr: SocketAddress,
    pub nonce: u64,
}

/// Which peers have proved, by answering a challenge, that they receive at
/// the address they claim. The entries are kept in the order of their last
/// use, and the one used longest ago leaves when room is needed.
pub struct PingCache {
    entries: Vec<PingEntry>,
    ttl: u64,
    rate_limit_delay: u64,
    capacity: usize,
}

/// The time from `then` to `now`, zero where `then` is the later.
pub open spec fn age(now: u64, then: u64) -> u64 {
    if now >= then {
        (now - then) as u64
    } else {
        0
    }
}

pub open spec fn entry_at(
    entries: Seq<PingEntry>,
    node: Pubkey,
    addr: SocketAddress,
    k: int,
) -> bool {
    0 <= k < entries.len() && entries[k].node == node && entries[k].addr == addr
}

pub open spec fn has_entry(entries: Seq<PingEntry>, node: Pubkey, addr: SocketAddress) -> bool {
    exists|k: int| entry_at(entries, node, addr, k)
}

pub open spec fn entry_index(entries: Seq<PingEntry>, node: Pubkey, addr: SocketAddress) -> int {
    choose|k: int| entry_at(entries, node, addr, k)
}

/// The entry for the peer at the address, a blank one where the cache has
/// none.
pub open spec fn entry_of(entries: Seq<PingEntry>, node: Pubkey, addr: SocketAddress) -> PingEntry {
    if has_entry(entries, node, addr) {
        entries[entry_index(entries, node, addr)]
    } else {
        PingEntry { node, addr, last_ping: None, nonce: None, verified_at: None }
    }
}

/// Whether the entry's last answer is no older than `ttl`.
pub open spec fn entry_verified(entry: PingEntry, now: u64, ttl: u64) -> bool {
    entry.verified_at matches Some(t) && age(now, t) <= ttl
}

/// The state that an entry stands for at time `now`.
pub open spec fn entry_state(entry: PingEntry, now: u64, ttl: u64) -> LivenessState {
    if entry_verified(entry, now, ttl) {
        LivenessState::Verified
    } else if entry.nonce.is_some() {
        LivenessState::PendingChallenge
    } else {
        LivenessState::Unverified
    }
}

/// Whether a check at time `now` sends a challenge: it does when the peer
/// is not verified, or was verified more than an eighth of `ttl` ago, unless
/// the last challenge was sent less than `delay` ago.
pub open spec fn sends_ping(entry: PingEntry, now: u64, ttl: u64, delay: u64) -> bool {
    &&& !(entry.verified_at matches Some(t) && age(now, t) <= ttl / 8)
    &&& !(entry.last_ping matches Some(p) && age(now, p) < delay)
}

/// The entry after a check at time `now`: an answer older than `ttl` is
/// forgotten, and a challenge that is sent is noted with its number.
pub open spec fn checked_entry(
    entry: PingEntry,
    now: u64,
    ttl: u64,
    delay: u64,
    nonce: u64,
) -> PingEntry {
    let verified_at = if entry_verified(entry, now, ttl) {
        entry.verified_at
    } else {
        None
    };
    if sends_ping(entry, now, ttl, delay) {
        PingEntry { last_ping: Some(now), nonce: Some(nonce), verified_at, ..entry }
    } else {
        PingEntry { verified_at, ..entry }
    }
}

/// The entries after `entry` was used: it comes last, in place of the one
/// for the same peer and address; where there was none and the cache is
/// full, the first entry leaves.
pub open spec fn with_entry(
    entries: Seq<PingEntry>,
    entry: PingEntry,
    capacity: usize,
) -> Seq<PingEntry> {
    if has_entry(entries, entry.node, entry.addr) {
        entries.remove(entry_index(entries, entry.node, entry.addr)).push(entry)
    } else if entries.len() >= capacity && entries.len() > 0 {
        entries.drop_first().push(entry)
    } else {
        entries.push(entry)
    }
}

/// The bytes that the answer to the challenge `nonce` signs.
pub open spec fn pong_bytes(nonce: u64) -> Seq<u8> {
    le_bytes(nonce as nat, 8)
}

/// Whether `signature` answers the challenge that is under way for the
/// entry.
pub open spec fn answers(entry: PingEntry, signature: Signature) -> bool {
    entry.nonce matches Some(nonce) && ed25519_verifies(
        entry.node.bytes@,
        pong_bytes(nonce),
        signature.bytes@,
    )
}

/// Whether no peer and address occurs twice, and the entries are no more
/// than the capacity.
pub open spec fn entries_wf(entries: Seq<PingEntry>, capacity: usize) -> bool {
    &&& capacity >= 1
    &&& entries.len() <= capacity
    &&& forall|i: int, j: int|
        #![trigger entries[i], entries[j]]
        0 <= i < j < entries.len() ==> !(entries[i].node == entries[j].node && entries[i].addr
            == entries[j].addr)
}

proof fn lemma_entry_index(
    entries: Seq<PingEntry>,
    capacity: usize,
    node: Pubkey,
    addr: SocketAddress,
    k: int,
)
    requires
        entries_wf(entries, capacity),
        entry_at(entries, node, addr, k),
    ensures
        has_entry(entries, node, addr),
        entry_index(entries, node, addr) == k,
{
    let c = entry_index(entries, node, addr);
    assert(entry_at(entries, node, addr, c));
    if c < k {
        assert(!(entries[c].node == entries[k].node && entries[c].addr == entries[k].addr));
    } else if k < c {
        assert(!(entries[k].node == entries[c].node && entries[k].addr == entries[c].addr));
    }
}

/// Using an entry keeps the cache well formed, and leaves the entry to be
/// found.
pub proof fn lemma_with_entry(entries: Seq<PingEntry>, entry: PingEntry, capacity: usize)
    requires
        entries_wf(entries, capacity),
    ensures
        entries_wf(with_entry(entries, entry, capacity), capacity),
        entry_of(with_entry(entries, entry, capacity), entry.node, entry.addr) == entry,
{
    let after = with_entry(entries, entry, capacity);
    if has_entry(entries, entry.node, entry.addr) {
        let k = entry_index(entries, entry.node, entry.addr);
        assert(entry_at(entries, entry.node, entry.addr, k));
        assert forall|i: int, j: int|
            #![trigger after[i], after[j]]
            0 <= i < j < after.len() implies !(after[i].node == after[j].node && after[i].addr
            == after[j].addr) by {
            let si = if i < k {
                i
            } else {
                i + 1
            };
            assert(after[i] == entries[si]);
            if j < after.len() - 1 {
                let sj = if j < k {
                    j
                } else {
                    j + 1
                };
                assert(after[j] == entries[sj]);
                assert(!(entries[si].node == entries[sj].node && entries[si].addr
                    == entries[sj].addr));
            } else {
                if si < k {
                    assert(!(entries[si].node == entries[k].node && entries[si].addr
                        == entries[k].addr));
                } else {
                    assert(!(entries[k].node == entries[si].node && entries[k].addr
                        == entries[si].addr));
                }
            }
        }
    } else {
        let shift: int = if entries.len() >= capacity && entries.len() > 0 {
            1
        } else {
            0
        };
        assert forall|i: int, j: int|
            #![trigger after[i], after[j]]
            0 <= i < j < after.len() implies !(after[i].node == after[j].node && after[i].addr
            == after[j].addr) by {
            assert(after[i] == entries[i + shift]);
            if j < after.len() - 1 {
                assert(after[j] == entries[j + shift]);
                assert(!(entries[i + shift].node == entries[j + shift].node && entries[i
                    + shift].addr == entries[j + shift].addr));
            } else {
                if entries[i + shift].node == entry.node && entries[i + shift].addr == entry.addr {
                    assert(entry_at(entries, entry.node, entry.addr, i + shift));
                }
            }
        }
    }
    assert(entry_at(after, entry.node, entry.addr, after.len() - 1));
    lemma_entry_index(after, capacity, entry.node, entry.addr, after.len() - 1);
}

impl PingCache {
    /// The entries, the one used longest ago first.
    pub closed spec fn spec_entries(&self) -> Seq<PingEntry> {
        self.entries@
    }

    /// How long an answer counts, in milliseconds.
    pub closed spec fn spec_ttl(&self) -> u64 {
        self.ttl
    }

    /// The least time between two challenges to one peer, in milliseconds.
    pub closed spec fn spec_rate_limit_delay(&self) -> u64 {
        self.rate_limit_delay
    }

    pub closed spec fn spec_capacity(&self) -> usize {
        self.capacity
    }

    /// Whether no peer and address occurs twice, and the entries are no
    /// more than the capacity. Every cache is so.
    #[verifier::type_invariant]
    pub open spec fn wf(&self) -> bool {
        entries_wf(self.spec_entries(), self.spec_capacity())
    }

    /// The state of the peer at the address at time `now`.
    pub open spec fn spec_state(
        &self,
        node: Pubkey,
        addr: SocketAddress,
        now: u64,
    ) -> LivenessState {
        entry_state(entry_of(self.spec_entries(), node, addr), now, self.spec_ttl())
    }

    /// An empty cache for `capacity` peers, at least one.
    pub fn new(ttl: u64, rate_limit_delay: u64, capacity: usize) -> (cache: PingCache)
        ensures
            cache.spec_entries() == Seq::<PingEntry>::empty(),
            cache.spec_ttl() == ttl,
            cache.spec_rate_limit_delay() == rate_limit_delay,
            cache.spec_capacity() == if capacity == 0 {
                1
            } else {
                capacity
            },
    {
        PingCache {
            entries: Vec::new(),
            ttl,
            rate_limit_delay,
            capacity: if capacity == 0 {
                1
            } else {
                capacity
            },
        }
    }

    pub fn len(&self) -> (n: usize)
        ensures
            n == self.spec_entries().len(),
    {
        self.entries.len()
    }

    fn position(&self, node: &Pubkey, addr: &SocketAddress) -> (found: Option<usize>)
        ensures
            match found {
                Some(k) => entry_at(self.spec_entries(), *node, *addr, k as int) && has_entry(
                    self.spec_entries(),
                    *node,
                    *addr,
                ) && entry_index(self.spec_entries(), *node, *addr) == k,
                None => !has_entry(self.spec_entries(), *node, *addr),
            },
    {
        proof {
            use_type_invariant(self);
        }
        let mut i: usize = 0;
        while i < self.entries.len()
            invariant
                i <= self.entries@.len(),
                entries_wf(self.entries@, self.capacity),
                forall|j: int|
                    0 <= j < i ==> !(self.entries@[j].node == *node && self.entries@[j].addr
                        == *addr),
            decreases self.entries@.len() - i,
        {
            if self.entries[i].addr == *addr && self.entries[i].node.same(node) {
                proof {
                    lemma_entry_index(self.entries@, self.capacity, *node, *addr, i as int);
                }
                return Some(i);
            }
            i += 1;
        }
        assert(!has_entry(self.entries@, *node, *addr)) by {
            if has_entry(self.entries@, *node, *addr) {
                let k = entry_index(self.entries@, *node, *addr);
                assert(entry_at(self.entries@, *node, *addr, k));
            }
        }
        None
    }

    fn lookup(&self, node: &Pubkey, addr: &SocketAddress) -> (found: (Option<usize>, PingEntry))
        ensures
            found.1 == entry_of(self.spec_entries(), *node, *addr),
            match found.0 {
                Some(k) => has_entry(self.spec_entries(), *node, *addr) && entry_index(
                    self.spec_entries(),
                    *node,
                    *addr,
                ) == k && k < self.spec_entries().len(),
                None => !has_entry(self.spec_entries(), *node, *addr),
            },
    {
        match self.position(node, addr) {
            Some(k) => (Some(k), self.entries[k]),
            None => (
                None,
                PingEntry { node: *node, addr: *addr, last_ping: None, nonce: None, verified_at: None },
            ),
        }
    }

    fn store(&mut self, found: Option<usize>, entry: PingEntry)
        requires
            match found {
                Some(k) => has_entry(old(self).spec_entries(), entry.node, entry.addr)
                    && entry_index(old(self).spec_entries(), entry.node, entry.addr) == k && k < old(
                    self,
                ).spec_entries().len(),
                None => !has_entry(old(self).spec_entries(), entry.node, entry.addr),
            },
        ensures
            final(self).spec_entries() == with_entry(
                old(self).spec_entries(),
                entry,
                old(self).spec_capacity(),
            ),
            final(self).spec_ttl() == old(self).spec_ttl(),
            final(self).spec_rate_limit_delay() == old(self).spec_rate_limit_delay(),
            final(self).spec_capacity() == old(self).spec_capacity(),
    {
        proof {
            use_type_invariant(&*self);
            lemma_with_entry(self.entries@, entry, self.capacity);
        }
        let mut entries: Vec<PingEntry> = Vec::new();
        std::mem::swap(&mut entries, &mut self.entries);
        match found {
            Some(k) => {
                entries.remove(k);
            },
            None => {
                if entries.len() >= self.capacity && entries.len() > 0 {
                    entries.remove(0);
                    assert(entries@ =~= old(self).entries@.drop_first());
                }
            },
        }
        entries.push(entry);
        self.entries = entries;
    }

    fn age_of(now: u64, then: u64) -> (a: u64)
        ensures
            a == age(now, then),
    {
        if now >= then {
            now - then
        } else {
            0
        }
    }

    /// The state of the peer at the address at time `now`.
    pub fn state(&self, node: &Pubkey, addr: &SocketAddress, now: u64) -> (state: LivenessState)
        ensures
            state == self.spec_state(*node, *addr, now),
    {
        let (_, entry) = self.lookup(node, addr);
        let verified = match entry.verified_at {
            Some(t) => Self::age_of(now, t) <= self.ttl,
            None => false,
        };
        if verified {
            LivenessState::Verified
        } else if entry.nonce.is_some() {
            LivenessState::PendingChallenge
        } else {
            LivenessState::Unverified
        }
    }

    /// Tells the state of the peer at the address at time `now`, and with it
    /// the challenge to send, if one is due: `nonce` is the number that the
    /// peer has to sign. A challenge is due when the peer is not verified or
    /// its answer is getting old, but never sooner than the rate limit
    /// allows after the last one.
    pub fn check(&mut self, node: &Pubkey, addr: &SocketAddress, now: u64, nonce: u64) -> (result: (
        LivenessState,
        Option<Ping>,
    ))
        ensures
            final(self).spec_ttl() == old(self).spec_ttl(),
            final(self).spec_rate_limit_delay() == old(self).spec_rate_limit_delay(),
            final(self).spec_capacity() == old(self).spec_capacity(),
            result.0 == old(self).spec_state(*node, *addr, now),
            result.1 == if sends_ping(
                entry_of(old(self).spec_entries(), *node, *addr),
                now,
                old(self).spec_ttl(),
                old(self).spec_rate_limit_delay(),
            ) {
                Some(Ping { node: *node, addr: *addr, nonce })
            } else {
                None
            },
            final(self).spec_entries() == with_entry(
                old(self).spec_entries(),
                checked_entry(
                    entry_of(old(self).spec_entries(), *node, *addr),
                    now,
                    old(self).spec_ttl(),
                    old(self).spec_rate_limit_delay(),
                    nonce,
                ),
                old(self).spec_capacity(),
            ),
    {
        let (found, entry) = self.lookup(node, addr);
        let verified = match entry.verified_at {
            Some(t) => Self::age_of(now, t) <= self.ttl,
            None => false,
        };
        let state = if verified {
            LivenessState::Verified
        } else if entry.nonce.is_some() {
            LivenessState::PendingChallenge
        } else {
            LivenessState::Unverified
        };
        let fresh = match entry.verified_at {
            Some(t) => Self::age_of(now, t) <= self.ttl / 8,
            None => false,
        };
        let limited = match entry.last_ping {
            Some(p) => Self::age_of(now, p) < self.rate_limit_delay,
            None => false,
        };
        let sends = !fresh && !limited;
        let verified_at = if verified {
            entry.verified_at
        } else {
            None
        };
        let mut next = entry;
        next.verified_at = verified_at;
        let mut ping: Option<Ping> = None;
        if sends {
            next.last_ping = Some(now);
            next.nonce = Some(nonce);
            ping = Some(Ping { node: *node, addr: *addr, nonce });
        }
        proof {
            if !has_entry(self.entries@, *node, *addr) {
                assert(next.node == *node && next.addr == *addr);
            } else {
                assert(entry_at(self.entries@, *node, *addr, entry_index(self.entries@, *node, *addr)));
            }
        }
        self.store(found, next);
        (state, ping)
    }

    /// Takes the answer of the peer at the address to the challenge that is
    /// under way. Where the signature is the peer's over the challenge's
    /// number, the peer is verified from `now` on, and the answer is `true`;
    /// otherwise nothing changes.
    pub fn receive_pong(
        &mut self,
        node: &Pubkey,
        addr: &SocketAddress,
        signature: &Signature,
        now: u64,
    ) -> (accepted: bool)
        ensures
            final(self).spec_ttl() == old(self).spec_ttl(),
            final(self).spec_rate_limit_delay() == old(self).spec_rate_limit_delay(),
            final(self).spec_capacity() == old(self).spec_capacity(),
            accepted == answers(entry_of(old(self).spec_entries(), *node, *addr), *signature),
            final(self).spec_entries() == if accepted {
                with_entry(
                    old(self).spec_entries(),
                    PingEntry {
                        node: *node,
                        addr: *addr,
                        last_ping: None,
                        nonce: None,
                        verified_at: Some(now),
                    },
                    old(self).spec_capacity(),
                )
            } else {
                old(self).spec_entries()
            },
    {
        let (found, entry) = self.lookup(node, addr);
        match entry.nonce {
            Some(nonce) => {
                let mut message: Vec<u8> = Vec::new();
                append_le(&mut message, nonce, 8);
                assert(message@ =~= pong_bytes(nonce));
                proof {
                    if has_entry(self.entries@, *node, *addr) {
                        assert(entry_at(
                            self.entries@,
                            *node,
                            *addr,
                            entry_index(self.entries@, *node, *addr),
                        ));
                    }
                }
                if ed25519_verify(&node.bytes, message.as_slice(), &signature.bytes) {
                    self.store(
                        found,
                        PingEntry {
                            node: *node,
                            addr: *addr,
                            last_ping: None,
                            nonce: None,
                            verified_at: Some(now),
                        },
                    );
                    true
                } else {
                    false
                }
            },
            None => false,
        }
    }

    /// Takes the peer at the address for verified from `now` on, without an
    /// answer.
    pub fn mock_pong(&mut self, node: Pubkey, addr: SocketAddress, now: u64)
        ensures
            final(self).spec_ttl() == old(self).spec_ttl(),
            final(self).spec_rate_limit_delay() == old(self).spec_rate_limit_delay(),
            final(self).spec_capacity() == old(self).spec_capacity(),
            final(self).spec_entries() == with_entry(
                old(self).spec_entries(),
                PingEntry { node, addr, last_ping: None, nonce: None, verified_at: Some(now) },
                old(self).spec_capacity(),
            ),
            final(self).spec_state(node, addr, now) == LivenessState::Verified,
    {
        let found = self.position(&node, &addr);
        let entry = PingEntry { node, addr, last_ping: None, nonce: None, verified_at: Some(now) };
        proof {
            use_type_invariant(&*self);
            lemma_with_entry(self.entries@, entry, self.capacity);
        }
        self.store(found, entry);
    }
}

} // verus!
