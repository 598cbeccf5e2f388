//! Bloom filters over content hashes, with keys that follow from a seed.

use crate::identity;
use crate::sampling::lemma_product_fits;
use vstd::prelude::*;

verus! {

pub const FNV_PRIME: u64 = 0x100_0000_01b3;

pub const KEY_STRIDE: u64 = 0x9e37_79b9_7f4a_7c15;

pub const WORD: u128 = 0x1_0000_0000_0000_0000;

/// One step of the keyed hash: the state takes in one byte.
pub open spec fn mix(state: u64, byte: u8) -> u64 {
    (((state ^ (byte as u64)) as int * (FNV_PRIME as int)) % (WORD as int)) as u64
}

/// The keyed hash of the first `n` bytes, starting from the state `key`.
pub open spec fn keyed_hash(bytes: Seq<u8>, key: u64, n: nat) -> u64
    decreases n,
{
    if n == 0 {
        key
    } else {
        mix(keyed_hash(bytes, key, (n - 1) as nat), bytes[n - 1])
    }
}

/// The bit that `key` assigns to `hash` among `num_bits` bits.
pub open spec fn bit_position(hash: identity::Hash, key: u64, num_bits: nat) -> int {
    keyed_hash(hash.bytes@, key, 32) as int % (num_bits as int)
}

/// The `i`-th key of the filter that is seeded with `seed`.
pub open spec fn key_at(seed: u64, i: nat) -> u64 {
    ((seed as int + (i as int + 1) * (KEY_STRIDE as int)) % (WORD as int)) as u64
}

/// Whether every key finds its bit for `hash` set.
pub open spec fn all_set(bits: Seq<bool>, keys: Seq<u64>, hash: identity::Hash) -> bool {
    forall|k: int|
        0 <= k < keys.len() ==> bits[#[trigger] bit_position(hash, keys[k], bits.len())]
}

/// The bits after `hash` was added under the first `n` keys.
pub open spec fn bits_with(
    bits: Seq<bool>,
    keys: Seq<u64>,
    hash: identity::Hash,
    n: nat,
) -> Seq<bool>
    decreases n,
{
    if n == 0 {
        bits
    } else {
        bits_with(bits, keys, hash, (n - 1) as nat).update(
            bit_position(hash, keys[n - 1], bits.len()),
            true,
        )
    }
}

/// Adding sets bits and clears none, and keeps the number of bits.
pub proof fn lemma_bits_with(bits: Seq<bool>, keys: Seq<u64>, hash: identity::Hash, n: nat)
    requires
        bits.len() > 0,
        n <= keys.len(),
    ensures
        bits_with(bits, keys, hash, n).len() == bits.len(),
        forall|p: int| 0 <= p < bits.len() && bits[p] ==> #[trigger] bits_with(bits, keys, hash, n)[p],
        forall|k: int|
            0 <= k < n ==> bits_with(bits, keys, hash, n)[#[trigger] bit_position(
                hash,
                keys[k],
                bits.len(),
            )],
    decreases n,
{
    if n > 0 {
        lemma_bits_with(bits, keys, hash, (n - 1) as nat);
        let p = bit_position(hash, keys[n - 1], bits.len());
        assert(0 <= p < bits.len());
        assert forall|k: int| 0 <= k < n implies bits_with(bits, keys, hash, n)[#[trigger] bit_position(
            hash,
            keys[k],
            bits.len(),
        )] by {
            let q = bit_position(hash, keys[k], bits.len());
            assert(0 <= q < bits.len());
        }
    }
}

/// A Bloom filter over content hashes. It may answer that it holds a hash
/// that was never added; it never denies one that was.
#[derive(Debug)]
pub struct Bloom {
    keys: Vec<u64>,
    bits: Vec<bool>,
}

impl Bloom {
    pub closed spec fn spec_bits(&self) -> Seq<bool> {
        self.bits@
    }

    pub closed spec fn spec_keys(&self) -> Seq<u64> {
        self.keys@
    }

    /// Whether the filter has a bit at all. Every filter has.
    #[verifier::type_invariant]
    pub open spec fn wf(&self) -> bool {
        self.spec_bits().len() > 0
    }

    /// Whether the filter answers that it holds `hash`.
    pub open spec fn spec_contains(&self, hash: identity::Hash) -> bool {
        all_set(self.spec_bits(), self.spec_keys(), hash)
    }

    /// An empty filter of `num_bits` bits, at least one, with `num_keys` keys
    /// that follow from `seed`.
    pub fn new(num_bits: usize, num_keys: usize, seed: u64) -> (bloom: Bloom)
        ensures
            bloom.spec_bits().len() == if num_bits == 0 {
                1
            } else {
                num_bits as int
            },
            forall|p: int| 0 <= p < bloom.spec_bits().len() ==> !bloom.spec_bits()[p],
            bloom.spec_keys().len() == num_keys,
            forall|i: int| 0 <= i < num_keys ==> bloom.spec_keys()[i] == key_at(seed, i as nat),
    {
        let size: usize = if num_bits == 0 {
            1
        } else {
            num_bits
        };
        let mut bits: Vec<bool> = Vec::new();
        let mut p: usize = 0;
        while p < size
            invariant
                p <= size,
                bits@.len() == p,
                forall|q: int| 0 <= q < p ==> !bits@[q],
            decreases size - p,
        {
            bits.push(false);
            p += 1;
        }
        let mut keys: Vec<u64> = Vec::new();
        let mut i: usize = 0;
        while i < num_keys
            invariant
                i <= num_keys,
                keys@.len() == i,
                forall|j: int| 0 <= j < i ==> keys@[j] == key_at(seed, j as nat),
            decreases num_keys - i,
        {
            proof {
                lemma_product_fits((i + 1) as u128, KEY_STRIDE as u128);
            }
            let key = ((seed as u128 + (i as u128 + 1) * (KEY_STRIDE as u128)) % WORD) as u64;
            keys.push(key);
            i += 1;
        }
        Bloom { keys, bits }
    }

    pub fn num_bits(&self) -> (n: usize)
        ensures
            n == self.spec_bits().len(),
            n > 0,
    {
        proof {
            use_type_invariant(self);
        }
        self.bits.len()
    }

    pub fn num_keys(&self) -> (n: usize)
        ensures
            n == self.spec_keys().len(),
    {
        self.keys.len()
    }

    fn position(&self, hash: &identity::Hash, k: usize) -> (p: usize)
        requires
            k < self.spec_keys().len(),
        ensures
            p == bit_position(*hash, self.spec_keys()[k as int], self.spec_bits().len()),
            p < self.spec_bits().len(),
    {
        proof {
            use_type_invariant(self);
        }
        let mut state: u64 = self.keys[k];
        let mut i: usize = 0;
        while i < 32
            invariant
                i <= 32,
                state == keyed_hash(hash.bytes@, self.keys@[k as int], i as nat),
            decreases 32 - i,
        {
            let folded: u64 = state ^ (hash.bytes[i] as u64);
            proof {
                lemma_product_fits(folded as u128, FNV_PRIME as u128);
            }
            state = ((folded as u128 * (FNV_PRIME as u128)) % WORD) as u64;
            i += 1;
        }
        (state % (self.bits.len() as u64)) as usize
    }

    /// Adds `hash`. Afterwards the filter holds it, and whatever it held
    /// before.
    pub fn add(&mut self, hash: &identity::Hash)
        ensures
            final(self).spec_keys() == old(self).spec_keys(),
            final(self).spec_bits() == bits_with(
                old(self).spec_bits(),
                old(self).spec_keys(),
                *hash,
                old(self).spec_keys().len(),
            ),
            final(self).spec_contains(*hash),
            forall|other: identity::Hash|
                old(self).spec_contains(other) ==> #[trigger] final(self).spec_contains(other),
    {
        proof {
            use_type_invariant(&*self);
        }
        let ghost bits0 = self.bits@;
        let ghost keys0 = self.keys@;
        let mut k: usize = 0;
        while k < self.keys.len()
            invariant
                k <= keys0.len(),
                self.keys@ == keys0,
                bits0.len() > 0,
                self.bits@ == bits_with(bits0, keys0, *hash, k as nat),
                self.bits@.len() == bits0.len(),
            decreases keys0.len() - k,
        {
            let p = self.position(hash, k);
            self.bits[p] = true;
            k += 1;
        }
        proof {
            lemma_bits_with(bits0, keys0, *hash, keys0.len());
            assert forall|other: identity::Hash| all_set(bits0, keys0, other) implies all_set(
                self.bits@,
                keys0,
                other,
            ) by {
                assert forall|j: int| 0 <= j < keys0.len() implies self.bits@[#[trigger] bit_position(
                    other,
                    keys0[j],
                    self.bits@.len(),
                )] by {
                    let q = bit_position(other, keys0[j], bits0.len());
                    assert(0 <= q < bits0.len());
                    assert(bits0[q]);
                }
            }
        }
    }

    /// Whether the filter answers that it holds `hash`.
    pub fn contains(&self, hash: &identity::Hash) -> (b: bool)
        ensures
            b == self.spec_contains(*hash),
    {
        proof {
            use_type_invariant(self);
        }
        let mut k: usize = 0;
        while k < self.keys.len()
            invariant
                k <= self.keys@.len(),
                forall|j: int|
                    0 <= j < k ==> self.bits@[#[trigger] bit_position(
                        *hash,
                        self.keys@[j],
                        self.bits@.len(),
                    )],
            decreases self.keys@.len() - k,
        {
            let p = self.position(hash, k);
            if !self.bits[p] {
                return false;
            }
            k += 1;
        }
        true
    }
}

} // verus!
