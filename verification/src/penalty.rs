use vstd::prelude::*;
use vstd::arithmetic::power2::pow2;
use vstd::arithmetic::power2::lemma_pow2_strictly_increases;
use vstd::arithmetic::power2::lemma_pow2_adds;
use vstd::arithmetic::power2::lemma_pow2_pos;
use vstd::arithmetic::power2::lemma2_to64;
use vstd::arithmetic::div_mod::lemma_div_is_ordered;
use vstd::arithmetic::div_mod::lemma_multiply_divide_lt;
use vstd::arithmetic::div_mod::lemma_hoist_over_denominator;
use vstd::arithmetic::div_mod::lemma_div_pos_is_pos;
use vstd::arithmetic::mul::lemma_mul_inequality;
use vstd::arithmetic::mul::lemma_mul_strict_inequality;

verus! {

/// Authorship penalties are proved strictly decreasing up to this many
/// distinct authors per file (the fixed-point resolution bows out beyond).
pub const AUTHOR_MONO_LIMIT: u64 = 1048575;

/// The floor of the base-two logarithm.
pub open spec fn spec_log2_floor(k: nat) -> nat
    decreases k,
{
    if k < 2 {
        0
    } else {
        1 + spec_log2_floor(k / 2)
    }
}

/// The library's deterministic stand-in for the natural logarithm, in micro
/// units: linear interpolation of `ln` between neighbouring powers of two.
/// It is exact (up to the micro rounding of `ln 2`) at every power of two —
/// in particular at one, two and four, the author counts the concrete
/// scoring scenarios pin down — and it is monotone in between.
pub open spec fn spec_ln_micro(k: nat) -> int
    recommends
        k >= 1,
{
    let e = spec_log2_floor(k);
    e * 693147 + ((k - pow2(e)) * 693147) / (pow2(e) as int)
}

/// The denominator of the authorship penalty, in micro units: one plus the
/// natural logarithm of one plus the author count.  The penalty factor
/// itself is one micro unit divided by this, so a larger denominator means
/// a strictly smaller penalty.
pub open spec fn spec_penalty_denom_micro(authors: nat) -> int {
    1000000 + spec_ln_micro(authors + 1)
}

/// `pow2(e) <= k < pow2(e + 1)` for `e` the floored base-two logarithm.
pub proof fn lemma_log2_floor_bounds(k: nat)
    requires
        k >= 1,
    ensures
        pow2(spec_log2_floor(k)) <= k < pow2(spec_log2_floor(k) + 1),
    decreases k,
{
    lemma2_to64();
    if k < 2 {
        assert(pow2(0) == 1 && pow2(1) == 2);
    } else {
        let e = spec_log2_floor(k / 2);
        lemma_log2_floor_bounds(k / 2);
        lemma_pow2_adds(e, 1);
        lemma_pow2_adds(e + 1, 1);
        assert(pow2(e + 1) == pow2(e) * 2);
        assert(pow2(e + 2) == pow2(e + 1) * 2);
        assert(2 * (k / 2) <= k < 2 * (k / 2) + 2);
    }
}

/// The floored base-two logarithm is determined by its bracketing powers.
pub proof fn lemma_log2_floor_unique(k: nat, e: nat)
    requires
        pow2(e) <= k < pow2(e + 1),
    ensures
        spec_log2_floor(k) == e,
{
    lemma_pow2_pos(e);
    lemma_log2_floor_bounds(k);
    let f = spec_log2_floor(k);
    if f < e {
        if f + 1 < e {
            lemma_pow2_strictly_increases(f + 1, e);
        }
        assert(pow2(f + 1) <= pow2(e));
    }
    if f > e {
        if e + 1 < f {
            lemma_pow2_strictly_increases(e + 1, f);
        }
        assert(pow2(e + 1) <= pow2(f));
    }
}

/// The interpolated logarithm is never negative.
pub proof fn lemma_ln_micro_nonneg(k: nat)
    requires
        k >= 1,
    ensures
        spec_ln_micro(k) >= 0,
{
    lemma_ln_micro_range(k);
}

/// The interpolated fraction stays below one unit of `ln 2`.
proof fn lemma_ln_micro_range(k: nat)
    requires
        k >= 1,
    ensures
        0 <= spec_ln_micro(k) < (spec_log2_floor(k) + 1) * 693147,
{
    let e = spec_log2_floor(k);
    let p = pow2(e) as int;
    lemma_log2_floor_bounds(k);
    lemma_pow2_pos(e);
    lemma_pow2_adds(e, 1);
    lemma2_to64();
    assert(pow2(e + 1) == pow2(e) * 2);
    assert(0 <= k - p < p);
    assert((k - p) * 693147 < p * 693147) by {
        if k - p < p {
            lemma_mul_strict_inequality(k - p, p, 693147);
        }
    }
    assert(((k - p) * 693147) / p < 693147) by {
        lemma_multiply_divide_lt((k - p) * 693147, p, 693147);
    }
    assert(((k - p) * 693147) / p >= 0) by {
        lemma_div_pos_is_pos((k - p) * 693147, p);
    }
}

/// Going from `k` to `k + 1` strictly raises the interpolated logarithm, as
/// long as `k` stays within the resolution of the micro scale.
proof fn lemma_ln_micro_adjacent(k: nat)
    requires
        1 <= k,
        k + 1 <= pow2(20),
    ensures
        spec_ln_micro(k) < spec_ln_micro(k + 1),
{
    let e = spec_log2_floor(k);
    let p = pow2(e) as int;
    lemma_log2_floor_bounds(k);
    lemma_pow2_pos(e);
    lemma_pow2_adds(e, 1);
    lemma2_to64();
    assert(pow2(e + 1) == pow2(e) * 2);
    if k + 1 < pow2(e + 1) {
        // Same binade: the interpolation step is at least one micro unit,
        // because pow2(e) <= pow2(19) < 693147.
        lemma_log2_floor_unique(k + 1, e);
        assert(e <= 19) by {
            if e >= 20 {
                assert(pow2(e) >= pow2(20)) by {
                    if e > 20 {
                        lemma_pow2_strictly_increases(20, e);
                    }
                }
            }
        }
        assert(p <= 524288) by {
            if e < 19 {
                lemma_pow2_strictly_increases(e, 19);
            }
        }
        assert(((k - p) * 693147) / p + 1 == ((k - p) * 693147 + p) / p) by {
            lemma_hoist_over_denominator((k - p) * 693147, 1, p as nat);
        }
        assert((k - p) * 693147 + p <= (k + 1 - p) * 693147) by {
            assert((k + 1 - p) * 693147 == (k - p) * 693147 + 693147) by {
                vstd::arithmetic::mul::lemma_mul_is_distributive_add_other_way(
                    693147,
                    k - p,
                    1,
                );
            }
        }
        assert(((k - p) * 693147 + p) / p <= ((k + 1 - p) * 693147) / p) by {
            lemma_div_is_ordered((k - p) * 693147 + p, (k + 1 - p) * 693147, p);
        }
    } else {
        // Crossing into the next binade: the old value is strictly below
        // the exact next multiple of ln 2.
        assert(k + 1 == pow2(e + 1));
        lemma_pow2_strictly_increases(e + 1, e + 2);
        lemma_log2_floor_unique(k + 1, e + 1);
        assert(k + 1 - pow2(e + 1) == 0);
        assert(spec_ln_micro(k + 1) == (e + 1) * 693147);
        lemma_ln_micro_range(k);
        assert((e + 1) * 693147 == e * 693147 + 693147) by {
            vstd::arithmetic::mul::lemma_mul_is_distributive_add_other_way(693147, e as int, 1);
        }
    }
}

/// The interpolated logarithm is strictly monotone on `[1, 2^20]`.
pub proof fn lemma_ln_micro_strictly_increases(k1: nat, k2: nat)
    requires
        1 <= k1 < k2,
        k2 <= pow2(20),
    ensures
        spec_ln_micro(k1) < spec_ln_micro(k2),
    decreases k2 - k1,
{
    if k2 == k1 + 1 {
        lemma_ln_micro_adjacent(k1);
    } else {
        lemma_ln_micro_strictly_increases(k1, (k2 - 1) as nat);
        lemma_ln_micro_adjacent((k2 - 1) as nat);
    }
}

/// Law: the authorship penalty is strictly monotonically decreasing in the
/// number of distinct authors, with churn and size held fixed.  Stated over
/// the penalty denominator: more authors give a strictly larger denominator,
/// hence a strictly smaller penalty factor and a no-larger score.  Proved up
/// to `AUTHOR_MONO_LIMIT` authors, where the micro fixed point still
/// separates neighbouring counts.
pub proof fn lemma_penalty_strictly_decreasing(a1: nat, a2: nat)
    requires
        a1 < a2,
        a2 <= AUTHOR_MONO_LIMIT,
    ensures
        spec_penalty_denom_micro(a1) < spec_penalty_denom_micro(a2),
{
    lemma2_to64();
    lemma_ln_micro_strictly_increases(a1 + 1, a2 + 1);
}

/// The penalty denominator of no authors at all is exactly one unit: the
/// penalty factor is one, and it only dampens from there.
pub proof fn lemma_penalty_denom_at_zero()
    ensures
        spec_penalty_denom_micro(0) == 1000000,
{
    lemma2_to64();
    assert(spec_log2_floor(1) == 0);
    assert(spec_ln_micro(1) == 0) by {
        assert((1 - pow2(0)) * 693147 == 0);
    }
}

/// Compute the interpolated logarithm, in micro units.
pub fn ln_micro(k: u64) -> (r: u64)
    requires
        k >= 1,
    ensures
        r == spec_ln_micro(k as nat),
        r < 64 * 693147,
{
    let ghost kn = k as nat;
    let mut e: u64 = 0;
    let mut p: u64 = 1;
    proof {
        lemma2_to64();
    }
    while p <= k / 2
        invariant
            k >= 1,
            p == pow2(e as nat),
            1 <= p <= k,
            e < 64,
        decreases k - p,
    {
        proof {
            lemma_pow2_adds(e as nat, 1);
            lemma2_to64();
            assert(2 * (k / 2) <= k);
            lemma_log2_floor_bounds(k as nat);
            if e + 1 >= 64 {
                assert(pow2(64) > k) by {
                    lemma_log2_floor_bounds(k as nat);
                }
                assert(pow2((e + 1) as nat) == p * 2);
                if p * 2 < pow2(64) {
                } else {
                    assert(false);
                }
            }
        }
        p = p * 2;
        e = e + 1;
    }
    proof {
        assert(k < 2 * p + 2) by {
            assert(k / 2 < p);
            assert(2 * (k / 2) + 2 > k);
        }
        assert(k < pow2((e + 1) as nat)) by {
            lemma_pow2_adds(e as nat, 1);
            assert(pow2((e + 1) as nat) == 2 * p);
            if k == 2 * p + 1 {
                assert(k / 2 >= p);
            }
        }
        lemma_log2_floor_unique(kn, e as nat);
        lemma_ln_micro_range(kn);
    }
    let frac128: u128 = ((k - p) as u128 * 693147u128) / (p as u128);
    proof {
        assert((k - p) < p);
        assert(((k - p) as int * 693147) / (p as int) < 693147) by {
            lemma_mul_strict_inequality((k - p) as int, p as int, 693147);
            lemma_multiply_divide_lt((k - p) as int * 693147, p as int, 693147);
        }
        assert(((k - p) as int * 693147) / (p as int) >= 0) by {
            lemma_div_pos_is_pos((k - p) as int * 693147, p as int);
        }
        assert(e * 693147 + frac128 < 64 * 693147) by {
            assert(e <= 63);
            assert(e * 693147 <= 63 * 693147) by {
                lemma_mul_inequality(e as int, 63, 693147);
            }
        }
    }
    let frac: u64 = frac128 as u64;
    e * 693147 + frac
}

/// The authorship-penalty denominator for an author count, in micro units.
pub fn penalty_denom_micro(authors: u64) -> (r: u64)
    requires
        authors < u64::MAX,
    ensures
        r == spec_penalty_denom_micro(authors as nat),
        1000000 <= r < 1000000 + 64 * 693147,
{
    proof {
        lemma_ln_micro_range((authors + 1) as nat);
    }
    1000000 + ln_micro(authors + 1)
}

} // verus!
