//! Fixed-point probabilities and cumulative-frequency distributions.
//!
//! Every probability and edge weight in the engine is an unsigned integer
//! scaled by [`SCALE`]: the weight `SCALE` stands for 1.0, `SCALE / 2` for
//! 0.5, and so on. Normalization turns a list of raw weights into a
//! cumulative-frequency vector whose entries are exact: non-decreasing,
//! bounded by `SCALE`, and ending at exactly `SCALE`. A list whose weights
//! sum to zero is given the uniform distribution instead of dividing by zero.

use vstd::prelude::*;
use vstd::arithmetic::div_mod::{lemma_div_is_ordered, lemma_div_multiples_vanish};
use vstd::arithmetic::mul::lemma_mul_inequality;

verus! {

/// The fixed-point unit: this weight stands for probability 1.0.
pub const SCALE: u64 = 1000000;

/// The largest weight a single edge may carry (one million units).
/// Parsed probability annotations saturate here, which keeps every
/// normalization sum comfortably inside `u128`.
pub const WEIGHT_MAX: u64 = 1000000000000;

/// The sum of the first `k` weights.
pub open spec fn prefix_total(ws: Seq<u64>, k: int) -> int
    decreases k when 0 <= k <= ws.len()
{
    if k <= 0 {
        0
    } else {
        prefix_total(ws, k - 1) + ws[k - 1]
    }
}

/// The sum of all the weights.
pub open spec fn total_weight(ws: Seq<u64>) -> int {
    prefix_total(ws, ws.len() as int)
}

/// The cumulative-frequency vector of a weight list: entry `k` is the scaled
/// share of the first `k + 1` weights in the total, rounded down; when the
/// total is zero, the uniform distribution over the list's length.
pub open spec fn cdf_spec(ws: Seq<u64>) -> Seq<u64> {
    Seq::new(
        ws.len(),
        |k: int|
            if total_weight(ws) > 0 {
                ((prefix_total(ws, k + 1) * SCALE) / total_weight(ws)) as u64
            } else {
                (((k + 1) * SCALE) / (ws.len() as int)) as u64
            },
    )
}

/// Prefix sums are non-negative and grow with `k`.
pub proof fn lemma_prefix_total_monotone(ws: Seq<u64>, a: int, b: int)
    requires
        0 <= a <= b <= ws.len(),
    ensures
        0 <= prefix_total(ws, a) <= prefix_total(ws, b),
    decreases b,
{
    if b > 0 {
        if a == b {
            lemma_prefix_total_monotone(ws, a - 1, b - 1);
        } else {
            lemma_prefix_total_monotone(ws, a, b - 1);
        }
    }
}

/// A prefix of bounded weights is bounded by its length times the bound.
pub proof fn lemma_prefix_total_bound(ws: Seq<u64>, k: int)
    requires
        0 <= k <= ws.len(),
        forall|i: int| 0 <= i < ws.len() ==> ws[i] <= WEIGHT_MAX,
    ensures
        prefix_total(ws, k) <= k * WEIGHT_MAX,
    decreases k,
{
    if k > 0 {
        lemma_prefix_total_bound(ws, k - 1);
        assert((k - 1) * WEIGHT_MAX + WEIGHT_MAX == k * WEIGHT_MAX) by (nonlinear_arith);
    }
}

/// What every cumulative-frequency vector guarantees: as long as its weight
/// list, bounded by `SCALE`, non-decreasing, and ending at exactly `SCALE`.
pub proof fn lemma_cdf_wellformed(ws: Seq<u64>)
    ensures
        cdf_spec(ws).len() == ws.len(),
        forall|i: int| 0 <= i < ws.len() ==> #[trigger] cdf_spec(ws)[i] <= SCALE,
        forall|i: int, j: int|
            0 <= i <= j < ws.len() ==> #[trigger] cdf_spec(ws)[i] <= #[trigger] cdf_spec(ws)[j],
        ws.len() > 0 ==> cdf_spec(ws)[ws.len() - 1] == SCALE,
{
    let n = ws.len() as int;
    let t = total_weight(ws);
    lemma_prefix_total_monotone(ws, 0, n);
    if t > 0 {
        assert forall|i: int, j: int| 0 <= i <= j < n implies #[trigger] cdf_spec(ws)[i]
            <= #[trigger] cdf_spec(ws)[j] by {
            lemma_prefix_total_monotone(ws, i + 1, j + 1);
            lemma_mul_inequality(prefix_total(ws, i + 1), prefix_total(ws, j + 1), SCALE as int);
            lemma_div_is_ordered(
                prefix_total(ws, i + 1) * SCALE,
                prefix_total(ws, j + 1) * SCALE,
                t,
            );
            lemma_prefix_total_monotone(ws, 0, i + 1);
            lemma_div_is_ordered(0, prefix_total(ws, i + 1) * SCALE, t);
            lemma_prefix_total_monotone(ws, j + 1, n);
            lemma_mul_inequality(prefix_total(ws, j + 1), t, SCALE as int);
            lemma_div_is_ordered(prefix_total(ws, j + 1) * SCALE, t * SCALE, t);
            lemma_div_multiples_vanish(SCALE as int, t);
        }
        assert forall|i: int| 0 <= i < n implies #[trigger] cdf_spec(ws)[i] <= SCALE by {
            lemma_prefix_total_monotone(ws, 0, i + 1);
            lemma_prefix_total_monotone(ws, i + 1, n);
            lemma_mul_inequality(prefix_total(ws, i + 1), t, SCALE as int);
            lemma_div_is_ordered(0, prefix_total(ws, i + 1) * SCALE, t);
            lemma_div_is_ordered(prefix_total(ws, i + 1) * SCALE, t * SCALE, t);
            lemma_div_multiples_vanish(SCALE as int, t);
        }
        if n > 0 {
            lemma_div_multiples_vanish(SCALE as int, t);
            assert(t * SCALE == prefix_total(ws, n) * SCALE);
        }
    } else {
        assert forall|i: int, j: int| 0 <= i <= j < n implies #[trigger] cdf_spec(ws)[i]
            <= #[trigger] cdf_spec(ws)[j] by {
            lemma_mul_inequality(i + 1, j + 1, SCALE as int);
            lemma_div_is_ordered((i + 1) * SCALE, (j + 1) * SCALE, n);
            lemma_div_is_ordered(0, (i + 1) * SCALE, n);
            lemma_mul_inequality(j + 1, n, SCALE as int);
            lemma_div_is_ordered((j + 1) * SCALE, n * SCALE, n);
            lemma_div_multiples_vanish(SCALE as int, n);
        }
        assert forall|i: int| 0 <= i < n implies #[trigger] cdf_spec(ws)[i] <= SCALE by {
            lemma_mul_inequality(i + 1, n, SCALE as int);
            lemma_div_is_ordered(0, (i + 1) * SCALE, n);
            lemma_div_is_ordered((i + 1) * SCALE, n * SCALE, n);
            lemma_div_multiples_vanish(SCALE as int, n);
        }
        if n > 0 {
            lemma_div_multiples_vanish(SCALE as int, n);
        }
    }
}

/// Normalizes a weight list into its cumulative-frequency vector.
pub fn cumulative_distribution(ws: &Vec<u64>) -> (r: Vec<u64>)
    requires
        forall|i: int| 0 <= i < ws@.len() ==> ws@[i] <= WEIGHT_MAX,
    ensures
        r@ == cdf_spec(ws@),
{
    let n = ws.len();
    let mut total: u128 = 0;
    let mut i: usize = 0;
    while i < n
        invariant
            i <= n,
            n == ws@.len(),
            forall|k: int| 0 <= k < ws@.len() ==> ws@[k] <= WEIGHT_MAX,
            total == prefix_total(ws@, i as int),
            total <= (i as int) * WEIGHT_MAX,
        decreases n - i,
    {
        proof {
            lemma_prefix_total_bound(ws@, i + 1);
            assert((i as int) * WEIGHT_MAX + WEIGHT_MAX == (i + 1) as int * WEIGHT_MAX)
                by (nonlinear_arith);
        }
        total = total + (ws[i] as u128);
        i = i + 1;
    }
    let mut cf: Vec<u64> = Vec::new();
    let mut p: u128 = 0;
    let mut k: usize = 0;
    proof {
        lemma_prefix_total_bound(ws@, n as int);
    }
    while k < n
        invariant
            k <= n,
            n == ws@.len(),
            forall|j: int| 0 <= j < ws@.len() ==> ws@[j] <= WEIGHT_MAX,
            total == total_weight(ws@),
            total <= (n as int) * WEIGHT_MAX,
            p == prefix_total(ws@, k as int),
            cf@.len() == k,
            forall|j: int| 0 <= j < k ==> cf@[j] == cdf_spec(ws@)[j],
        decreases n - k,
    {
        proof {
            lemma_prefix_total_monotone(ws@, k as int, k + 1);
            lemma_prefix_total_monotone(ws@, k + 1, n as int);
            lemma_prefix_total_bound(ws@, n as int);
        }
        p = p + (ws[k] as u128);
        let val: u64 = if total > 0 {
            proof {
                let pi = prefix_total(ws@, k + 1);
                let t = total_weight(ws@);
                assert(pi * SCALE <= t * SCALE) by (nonlinear_arith)
                    requires
                        0 <= pi <= t,
                ;
                assert(t * SCALE < 0x100000000000000000000000000000000) by (nonlinear_arith)
                    requires
                        0 <= t <= 0x10000000000000000 * (WEIGHT_MAX as int),
                        SCALE == 1000000,
                        WEIGHT_MAX == 1000000000000,
                ;
                lemma_div_is_ordered(pi * SCALE, t * SCALE, t);
                lemma_div_multiples_vanish(SCALE as int, t);
                lemma_div_is_ordered(0, pi * SCALE, t);
            }
            ((p * (SCALE as u128)) / total) as u64
        } else {
            proof {
                let kk = (k + 1) as int;
                let nn = n as int;
                lemma_mul_inequality(kk, nn, SCALE as int);
                lemma_div_is_ordered(kk * SCALE, nn * SCALE, nn);
                lemma_div_multiples_vanish(SCALE as int, nn);
                lemma_div_is_ordered(0, kk * SCALE, nn);
            }
            ((((k as u128) + 1) * (SCALE as u128)) / (n as u128)) as u64
        };
        cf.push(val);
        k = k + 1;
    }
    proof {
        assert(cf@ =~= cdf_spec(ws@));
    }
    cf
}

/// The index of the first cumulative-frequency entry at or above the draw
/// `x`, from position `i` on; the last index when none qualifies.
pub open spec fn pick_from(cdf: Seq<u64>, x: u64, i: int) -> int
    decreases cdf.len() - i when 0 <= i <= cdf.len()
{
    if i >= cdf.len() {
        if cdf.len() == 0 {
            0
        } else {
            cdf.len() - 1
        }
    } else if x <= cdf[i] {
        i
    } else {
        pick_from(cdf, x, i + 1)
    }
}

/// The edge index a draw selects: the first entry at or above the draw,
/// clamped to the last index.
pub open spec fn pick_index(cdf: Seq<u64>, x: u64) -> int {
    pick_from(cdf, x, 0)
}

/// A pick on a non-empty vector is a valid index.
pub proof fn lemma_pick_from_bounds(cdf: Seq<u64>, x: u64, i: int)
    requires
        0 <= i <= cdf.len(),
        cdf.len() > 0,
    ensures
        0 <= pick_from(cdf, x, i) < cdf.len(),
    decreases cdf.len() - i,
{
    if i < cdf.len() && x > cdf[i] {
        lemma_pick_from_bounds(cdf, x, i + 1);
    }
}

/// The cumulative-frequency search: the first entry at or above the draw,
/// the last index when rounding lets none qualify.
pub fn closest_index(cdf: &Vec<u64>, x: u64) -> (r: usize)
    requires
        cdf@.len() > 0,
    ensures
        r == pick_index(cdf@, x),
        r < cdf@.len(),
{
    let n = cdf.len();
    let mut i: usize = 0;
    while i < n
        invariant
            i <= n,
            n == cdf@.len(),
            n > 0,
            pick_from(cdf@, x, 0) == pick_from(cdf@, x, i as int),
        decreases n - i,
    {
        if x <= cdf[i] {
            return i;
        }
        i = i + 1;
    }
    n - 1
}

} // verus!
