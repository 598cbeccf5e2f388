//! Draws that follow from a seed, and drawing by weight.

use vstd::prelude::*;

verus! {

pub const WORD: u128 = 0x1_0000_0000_0000_0000;

pub const DRAW_STRIDE: u64 = 0x9e37_79b9_7f4a_7c15;

pub const DRAW_FACTOR: u64 = 0xbf58_476d_1ce4_e5b9;

/// The `i`-th draw of the sequence that `seed` starts: the seed moved on by
/// `i + 1` strides, then scrambled.
pub open spec fn draw(seed: u64, i: nat) -> u64 {
    let moved = ((seed as int + ((i as int) % (WORD as int) + 1) * (DRAW_STRIDE as int)) % (
    WORD as int)) as u64;
    (((moved ^ (moved / 0x4000_0000)) as int * (DRAW_FACTOR as int)) % (WORD as int)) as u64
}

/// The `i`-th draw of the sequence that `seed` starts.
pub fn draw_at(seed: u64, i: usize) -> (d: u64)
    ensures
        d == draw(seed, i as nat),
{
    let step: u128 = (i as u128 % WORD) + 1;
    proof {
        lemma_product_fits(step, DRAW_STRIDE as u128);
    }
    let moved = ((seed as u128 + step * (DRAW_STRIDE as u128)) % WORD) as u64;
    let folded: u64 = moved ^ (moved / 0x4000_0000);
    proof {
        lemma_product_fits(folded as u128, DRAW_FACTOR as u128);
    }
    ((folded as u128 * (DRAW_FACTOR as u128)) % WORD) as u64
}

/// The product of a number of at most 2^64 and one below 2^64 leaves room
/// in 128 bits for a third below 2^64.
pub proof fn lemma_product_fits(a: u128, b: u128)
    requires
        a <= 0x1_0000_0000_0000_0000,
        b <= 0xffff_ffff_ffff_ffff,
    ensures
        a * b + 0xffff_ffff_ffff_ffff <= u128::MAX,
{
    assert(a * b <= 0x1_0000_0000_0000_0000 * 0xffff_ffff_ffff_ffff) by (nonlinear_arith)
        requires
            0 <= a <= 0x1_0000_0000_0000_0000,
            0 <= b <= 0xffff_ffff_ffff_ffff,
    ;
}

/// The number of binary digits of `n`.
pub open spec fn bit_length(n: nat) -> nat
    decreases n,
{
    if n == 0 {
        0
    } else {
        1 + bit_length(n / 2)
    }
}

spec fn pow2(k: nat) -> nat
    decreases k,
{
    if k == 0 {
        1
    } else {
        2 * pow2((k - 1) as nat)
    }
}

proof fn lemma_bit_length_below(n: nat, k: nat)
    requires
        n < pow2(k),
    ensures
        bit_length(n) <= k,
    decreases k,
{
    if n > 0 {
        lemma_bit_length_below(n / 2, (k - 1) as nat);
    }
}

proof fn lemma_pow2_64()
    ensures
        pow2(64) == 0x1_0000_0000_0000_0000,
{
    reveal_with_fuel(pow2, 65);
}

/// The weight with which a node of stake `stake` is drawn by a node of
/// stake `cap`: one more than the number of binary digits of the smaller
/// stake, squared. A node without stake has weight one.
pub open spec fn stake_weight(stake: u64, cap: u64) -> u64 {
    let capped = if stake < cap {
        stake
    } else {
        cap
    };
    ((bit_length(capped as nat) + 1) * (bit_length(capped as nat) + 1)) as u64
}

pub fn weight_of(stake: u64, cap: u64) -> (w: u64)
    ensures
        w == stake_weight(stake, cap),
        1 <= w <= 4225,
{
    let capped = if stake < cap {
        stake
    } else {
        cap
    };
    let mut digits: u64 = 0;
    let mut rest: u64 = capped;
    proof {
        lemma_pow2_64();
        lemma_bit_length_below(capped as nat, 64);
    }
    while rest > 0
        invariant
            digits + bit_length(rest as nat) == bit_length(capped as nat),
            bit_length(capped as nat) <= 64,
        decreases rest,
    {
        rest = rest / 2;
        digits += 1;
    }
    assert((digits + 1) * (digits + 1) <= 4225) by (nonlinear_arith)
        requires
            digits <= 64,
    ;
    assert((digits + 1) * (digits + 1) >= 1) by (nonlinear_arith)
        requires
            digits >= 0,
    ;
    (digits + 1) * (digits + 1)
}

/// The sum of the first `n` weights.
pub open spec fn weight_sum(weights: Seq<u64>, n: nat) -> nat
    decreases n,
{
    if n == 0 {
        0
    } else {
        weight_sum(weights, (n - 1) as nat) + weights[n - 1] as nat
    }
}

pub proof fn lemma_weight_sum_monotone(weights: Seq<u64>, a: nat, b: nat)
    requires
        a <= b,
    ensures
        weight_sum(weights, a) <= weight_sum(weights, b),
    decreases b,
{
    if a < b {
        lemma_weight_sum_monotone(weights, a, (b - 1) as nat);
    }
}

/// Whether `i` is the place that the point `target` falls on when the
/// weights are laid side by side.
pub open spec fn falls_on(weights: Seq<u64>, target: nat, i: int) -> bool {
    &&& 0 <= i < weights.len()
    &&& weight_sum(weights, i as nat) <= target < weight_sum(weights, (i + 1) as nat)
}

/// The point falls on one place at most.
pub proof fn lemma_falls_on_unique(weights: Seq<u64>, target: nat, i: int, j: int)
    requires
        falls_on(weights, target, i),
        falls_on(weights, target, j),
    ensures
        i == j,
{
    if i < j {
        lemma_weight_sum_monotone(weights, (i + 1) as nat, j as nat);
    } else if j < i {
        lemma_weight_sum_monotone(weights, (j + 1) as nat, i as nat);
    }
}

/// The place that `pick` falls on among `weights`, each place as wide as its
/// weight and `pick` reduced to their sum; `None` where every weight is zero.
/// So a place is found in proportion to its weight.
pub fn weighted_index(weights: &Vec<u64>, pick: u64) -> (found: Option<usize>)
    ensures
        match found {
            Some(i) => weight_sum(weights@, weights@.len()) > 0 && falls_on(
                weights@,
                (pick as nat) % weight_sum(weights@, weights@.len()),
                i as int,
            ),
            None => weight_sum(weights@, weights@.len()) == 0,
        },
{
    let mut total: u128 = 0;
    let mut n: usize = 0;
    while n < weights.len()
        invariant
            n <= weights@.len(),
            total == weight_sum(weights@, n as nat),
            total <= n * u64::MAX,
        decreases weights@.len() - n,
    {
        assert(n * u64::MAX + u64::MAX <= usize::MAX * u64::MAX) by (nonlinear_arith)
            requires
                n < usize::MAX,
        ;
        assert(usize::MAX * u64::MAX < u128::MAX) by (nonlinear_arith)
            requires
                usize::MAX <= u64::MAX,
        ;
        total = total + weights[n] as u128;
        n += 1;
    }
    if total == 0 {
        return None;
    }
    let target: u128 = (pick as u128) % total;
    let mut acc: u128 = 0;
    let mut i: usize = 0;
    while i < weights.len()
        invariant
            i <= weights@.len(),
            acc == weight_sum(weights@, i as nat),
            acc <= target < total,
            target == (pick as nat) % (total as nat),
            total == weight_sum(weights@, weights@.len()),
        decreases weights@.len() - i,
    {
        proof {
            lemma_weight_sum_monotone(weights@, (i + 1) as nat, weights@.len());
        }
        let next = acc + weights[i] as u128;
        assert(weight_sum(weights@, (i + 1) as nat) == weight_sum(weights@, i as nat)
            + weights@[i as int] as nat);
        if target < next {
            return Some(i);
        }
        acc = next;
        i += 1;
    }
    proof {
        assert(false);
    }
    None
}

/// The place that `pick` falls on among `weights`.
pub open spec fn chosen(weights: Seq<u64>, pick: u64) -> int {
    let target = (pick as nat) % weight_sum(weights, weights.len());
    choose|i: int| falls_on(weights, target, i)
}

/// What drawing without putting back leaves: the weights, those of the
/// places drawn set to zero, and the places drawn, in the order of drawing.
pub struct Sampled {
    pub weights: Seq<u64>,
    pub picked: Seq<usize>,
}

/// The outcome of `count` draws without putting back, the `i`-th with the
/// `i`-th draw of `seed`. Drawing ends early when no weight is left.
pub open spec fn sample(weights: Seq<u64>, seed: u64, count: nat) -> Sampled
    decreases count,
{
    if count == 0 {
        Sampled { weights, picked: Seq::empty() }
    } else {
        let prev = sample(weights, seed, (count - 1) as nat);
        if weight_sum(prev.weights, prev.weights.len()) == 0 {
            prev
        } else {
            let i = chosen(prev.weights, draw(seed, (count - 1) as nat));
            Sampled { weights: prev.weights.update(i, 0), picked: prev.picked.push(i as usize) }
        }
    }
}

/// Draws up to `count` places without putting back, each in proportion to
/// its weight.
pub fn sample_indices(weights: Vec<u64>, seed: u64, count: usize) -> (picked: Vec<usize>)
    ensures
        picked@ == sample(weights@, seed, count as nat).picked,
        picked@.len() <= count,
        forall|t: int| 0 <= t < picked@.len() ==> #[trigger] picked@[t] < weights@.len(),
{
    let ghost weights0 = weights@;
    let mut weights = weights;
    let mut picked: Vec<usize> = Vec::new();
    let mut n: usize = 0;
    while n < count
        invariant
            n <= count,
            weights@.len() == weights0.len(),
            weights@ == sample(weights0, seed, n as nat).weights,
            picked@ == sample(weights0, seed, n as nat).picked,
            picked@.len() <= n,
            forall|t: int| 0 <= t < picked@.len() ==> #[trigger] picked@[t] < weights0.len(),
        decreases count - n,
    {
        let pick = draw_at(seed, n);
        match weighted_index(&weights, pick) {
            Some(i) => {
                proof {
                    let total = weight_sum(weights@, weights@.len());
                    let c = chosen(weights@, pick);
                    assert(falls_on(weights@, (pick as nat) % total, i as int));
                    assert(falls_on(weights@, (pick as nat) % total, c));
                    lemma_falls_on_unique(weights@, (pick as nat) % total, i as int, c);
                }
                weights[i] = 0;
                picked.push(i);
            },
            None => {},
        }
        n += 1;
    }
    picked
}

} // verus!
