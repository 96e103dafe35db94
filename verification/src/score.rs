use vstd::prelude::*;
use vstd::multiset::Multiset;
use vstd::arithmetic::div_mod::lemma_basic_div;
use vstd::arithmetic::div_mod::lemma_div_is_ordered;
use vstd::arithmetic::div_mod::lemma_div_pos_is_pos;
use vstd::arithmetic::div_mod::lemma_div_multiples_vanish;
use vstd::arithmetic::div_mod::lemma_multiply_divide_lt;
use vstd::arithmetic::div_mod::lemma_fundamental_div_mod;
use vstd::arithmetic::mul::lemma_mul_inequality;
use vstd::arithmetic::mul::lemma_mul_upper_bound;
use vstd::arithmetic::mul::lemma_mul_strictly_positive;
use vstd::arithmetic::mul::lemma_mul_strict_inequality;
use crate::metrics::ChurnEntry;
use crate::metrics::GitMetrics;
use crate::penalty::penalty_denom_micro;
use crate::penalty::spec_penalty_denom_micro;
use crate::penalty::lemma_penalty_strictly_decreasing;
use crate::sizes::SizeEntry;
use crate::sizes::SizeMap;
use crate::sizes::spec_size_map;
use crate::sizes::spec_size_max;
use crate::sizes::spec_size_or_zero;

verus! {

/// Callers keep churn totals, size signals and author counts within this
/// bound so that the fixed-point score arithmetic provably fits in 128
/// bits.  It is far beyond anything a real repository produces.
pub const INPUT_LIMIT: u64 = 1000000000000;

/// One ranked file: its accumulated churn, its size signal in hundredths,
/// its distinct-author count, and the composite score in millionths.
pub struct FileMetrics {
    pub path: String,
    pub churn: usize,
    pub complexity_centi: u64,
    pub authors: usize,
    pub score_micro: u64,
}

/// The composite score, in millionths of a point, rounded half up:
/// `100 * (churn / max_churn) * (size / max_size) * penalty(authors)`,
/// where `penalty(a) = 1 / (1 + ln(1 + a))` in the micro fixed point.
pub open spec fn spec_score_micro(
    churn: nat,
    size_centi: nat,
    max_churn: nat,
    max_size_centi: nat,
    authors: nat,
) -> int
    recommends
        max_churn >= 1,
        max_size_centi >= 1,
{
    let num = 100000000000000 * churn * size_centi;
    let den = max_churn * max_size_centi * spec_penalty_denom_micro(authors);
    (2 * num + den) / (2 * den)
}

/// The largest accumulated churn, zero when nothing was recorded.
pub open spec fn spec_max_churn(s: Seq<ChurnEntry>) -> nat
    decreases s.len(),
{
    if s.len() == 0 {
        0
    } else if spec_max_churn(s.drop_last()) >= s.last().churn {
        spec_max_churn(s.drop_last())
    } else {
        s.last().churn as nat
    }
}

/// The churn normalization divisor: the largest churn, floored at one line
/// so the division is always defined.
pub open spec fn spec_floored_max_churn(s: Seq<ChurnEntry>) -> nat {
    if spec_max_churn(s) < 1 {
        1
    } else {
        spec_max_churn(s)
    }
}

/// The size normalization divisor: the largest recorded size, floored at
/// one whole unit (a hundred hundredths) so the division is always defined.
pub open spec fn spec_floored_max_size(s: Seq<SizeEntry>) -> nat {
    if spec_size_max(s) < 100 {
        100
    } else {
        spec_size_max(s)
    }
}

/// The ranked record one churn entry produces, given the size signals and
/// the two normalization divisors.
pub open spec fn spec_row(e: ChurnEntry, sizes: Seq<SizeEntry>, mc: nat, ms: nat) -> FileMetrics {
    FileMetrics {
        path: e.path,
        churn: e.churn,
        complexity_centi: spec_size_or_zero(spec_size_map(sizes), e.path@) as u64,
        authors: e.authors@.len() as usize,
        score_micro: spec_score_micro(
            e.churn as nat,
            spec_size_or_zero(spec_size_map(sizes), e.path@),
            mc,
            ms,
            e.authors@.len(),
        ) as u64,
    }
}

/// The records the composer owes, one per churn entry in insertion order,
/// before ranking.
pub open spec fn spec_rows(entries: Seq<ChurnEntry>, sizes: Seq<SizeEntry>) -> Seq<FileMetrics> {
    entries.map_values(
        |e: ChurnEntry|
            spec_row(e, sizes, spec_floored_max_churn(entries), spec_floored_max_size(sizes)),
    )
}

/// Every churn total and every author count is within `INPUT_LIMIT`.
pub open spec fn spec_entries_bounded(s: Seq<ChurnEntry>) -> bool {
    forall|i: int|
        0 <= i < s.len() ==> (#[trigger] s[i]).churn as nat <= INPUT_LIMIT as nat
            && s[i].authors@.len() <= INPUT_LIMIT as nat
}

/// Every recorded size is within `INPUT_LIMIT`.
pub open spec fn spec_sizes_bounded(s: Seq<SizeEntry>) -> bool {
    forall|i: int| 0 <= i < s.len() ==> (#[trigger] s[i]).size_centi <= INPUT_LIMIT
}

/// Records are in weakly decreasing score order.
pub open spec fn spec_sorted_desc(s: Seq<FileMetrics>) -> bool {
    forall|i: int, j: int|
        0 <= i <= j < s.len() ==> (#[trigger] s[i]).score_micro >= (#[trigger] s[j]).score_micro
}

proof fn lemma_max_churn_facts(s: Seq<ChurnEntry>)
    ensures
        forall|i: int| 0 <= i < s.len() ==> (#[trigger] s[i]).churn <= spec_max_churn(s),
        spec_max_churn(s) == 0 || exists|i: int|
            0 <= i < s.len() && (#[trigger] s[i]).churn == spec_max_churn(s),
    decreases s.len(),
{
    if s.len() > 0 {
        lemma_max_churn_facts(s.drop_last());
        assert forall|i: int| 0 <= i < s.len() implies (#[trigger] s[i]).churn <= spec_max_churn(
            s,
        ) by {
            if i < s.len() - 1 {
                assert(s.drop_last()[i] == s[i]);
            }
        }
        if spec_max_churn(s) != 0 {
            if spec_max_churn(s.drop_last()) >= s.last().churn {
                let i = choose|i: int|
                    0 <= i < s.drop_last().len() && (#[trigger] s.drop_last()[i]).churn
                        == spec_max_churn(s.drop_last());
                assert(s[i].churn == spec_max_churn(s));
            } else {
                assert(s[s.len() - 1].churn == spec_max_churn(s));
            }
        }
    }
}

proof fn lemma_size_max_facts(s: Seq<SizeEntry>)
    ensures
        forall|i: int| 0 <= i < s.len() ==> (#[trigger] s[i]).size_centi <= spec_size_max(s),
        spec_size_max(s) == 0 || exists|i: int|
            0 <= i < s.len() && (#[trigger] s[i]).size_centi == spec_size_max(s),
    decreases s.len(),
{
    if s.len() > 0 {
        lemma_size_max_facts(s.drop_last());
        assert forall|i: int| 0 <= i < s.len() implies (#[trigger] s[i]).size_centi
            <= spec_size_max(s) by {
            if i < s.len() - 1 {
                assert(s.drop_last()[i] == s[i]);
            }
        }
        if spec_size_max(s) != 0 {
            if spec_size_max(s.drop_last()) >= s.last().size_centi {
                let i = choose|i: int|
                    0 <= i < s.drop_last().len() && (#[trigger] s.drop_last()[i]).size_centi
                        == spec_size_max(s.drop_last());
                assert(s[i].size_centi == spec_size_max(s));
            } else {
                assert(s[s.len() - 1].size_centi == spec_size_max(s));
            }
        }
    }
}

/// Compute one composite score in exact fixed-point arithmetic.
fn score_value(churn: usize, size_centi: u64, max_churn: usize, max_size_centi: u64, authors: usize) -> (r:
    u64)
    requires
        1 <= max_churn as nat <= 1000000000000,
        1 <= max_size_centi <= 1000000000000,
        churn <= max_churn,
        size_centi <= max_size_centi,
        authors as nat <= 1000000000000,
    ensures
        r == spec_score_micro(
            churn as nat,
            size_centi as nat,
            max_churn as nat,
            max_size_centi as nat,
            authors as nat,
        ),
        r <= 100000000,
{
    let pen: u64 = penalty_denom_micro(authors as u64);
    proof {
        let c = churn as int;
        let x = size_centi as int;
        let mc = max_churn as int;
        let ms = max_size_centi as int;
        let p = pen as int;
        assert(c * x <= mc * ms) by {
            lemma_mul_upper_bound(c, mc, x, ms);
        }
        assert(mc * ms <= 1000000000000 * 1000000000000int) by {
            lemma_mul_upper_bound(mc, 1000000000000, ms, 1000000000000);
        }
        assert(100000000000000 * (c * x) <= 100000000000000 * (1000000000000 * 1000000000000int))
            by {
            lemma_mul_inequality(c * x, 1000000000000 * 1000000000000int, 100000000000000);
        }
        assert(mc * ms * p <= 1000000000000 * 1000000000000int * 100000000) by {
            assert(p <= 100000000);
            lemma_mul_upper_bound(mc * ms, 1000000000000 * 1000000000000int, p, 100000000);
        }
        assert(mc * ms * p >= 1) by {
            lemma_mul_strictly_positive(mc, ms);
            lemma_mul_strictly_positive(mc * ms, p);
        }
        assert(100000000000000 * c * x == 100000000000000 * (c * x)) by {
            vstd::arithmetic::mul::lemma_mul_is_associative(100000000000000, c, x);
        }
    }
    let num: u128 = 100000000000000u128 * (churn as u128) * (size_centi as u128);
    let den128: u128 = (max_churn as u128) * (max_size_centi as u128) * (pen as u128);
    let q: u128 = (2 * num + den128) / (2 * den128);
    proof {
        let c = churn as int;
        let x = size_centi as int;
        let mc = max_churn as int;
        let ms = max_size_centi as int;
        let p = pen as int;
        let n = 100000000000000 * c * x;
        let d = mc * ms * p;
        // The normalized product is at most one, so the score is at most
        // one hundred points: n <= d * 10^8.
        assert(n <= d * 100000000) by {
            assert(100000000000000 * c * x == 100000000000000 * (c * x)) by {
                vstd::arithmetic::mul::lemma_mul_is_associative(100000000000000, c, x);
            }
            assert(c * x <= mc * ms) by {
                lemma_mul_upper_bound(c, mc, x, ms);
            }
            assert(100000000000000 * (c * x) <= 100000000000000 * (mc * ms)) by {
                lemma_mul_inequality(c * x, mc * ms, 100000000000000);
            }
            assert(mc * ms * 1000000 <= mc * ms * p) by {
                lemma_mul_inequality(1000000, p, mc * ms);
                assert(mc * ms >= 0) by {
                    lemma_mul_strictly_positive(mc, ms);
                }
            }
            assert(100000000000000 * (mc * ms) == (mc * ms * 1000000) * 100000000) by {
                vstd::arithmetic::mul::lemma_mul_is_associative(mc * ms, 1000000, 100000000);
            }
            assert((mc * ms * 1000000) * 100000000 <= d * 100000000) by {
                lemma_mul_inequality(mc * ms * 1000000, d, 100000000);
            }
        }
        assert(2 * n + d < (2 * d) * (100000000 + 1)) by (nonlinear_arith)
            requires
                n <= d * 100000000,
                d >= 1,
        ;
        assert((2 * n + d) / (2 * d) < 100000000 + 1) by {
            lemma_multiply_divide_lt(2 * n + d, 2 * d, 100000001int);
        }
        assert((2 * n + d) / (2 * d) >= 0) by {
            lemma_div_pos_is_pos(2 * n + d, 2 * d);
        }
    }
    q as u64
}

/// Combine accumulated churn and author attribution with the size signals
/// into one record per changed file, scored and ranked in weakly
/// decreasing score order (ties keep insertion order).
pub fn calculate_scores(git_metrics: &GitMetrics, complexity_map: &SizeMap) -> (r: Vec<
    FileMetrics,
>)
    requires
        git_metrics.wf(),
        complexity_map.wf(),
        spec_entries_bounded(git_metrics@),
        spec_sizes_bounded(complexity_map@),
    ensures
        r@.len() == git_metrics@.len(),
        spec_sorted_desc(r@),
        r@.to_multiset() == spec_rows(git_metrics@, complexity_map@).to_multiset(),
        forall|i: int| 0 <= i < r@.len() ==> (#[trigger] r@[i]).score_micro <= 100000000,
{
    let ghost entries = git_metrics@;
    let ghost sizes = complexity_map@;

    // The churn normalization divisor.
    let mut max_churn: usize = 0;
    let mut i: usize = 0;
    let n = git_metrics.num_files();
    while i < n
        invariant
            n == entries.len(),
            entries == git_metrics@,
            i <= n,
            max_churn == spec_max_churn(entries.take(i as int)),
        decreases n - i,
    {
        proof {
            assert(entries.take(i + 1).drop_last() =~= entries.take(i as int));
            assert(entries.take(i + 1).last() == entries[i as int]);
        }
        let e = git_metrics.entry_at(i);
        if e.churn > max_churn {
            max_churn = e.churn;
        }
        i += 1;
    }
    proof {
        assert(entries.take(entries.len() as int) =~= entries);
    }
    let mc: usize = if max_churn < 1 {
        1
    } else {
        max_churn
    };

    // The size normalization divisor.
    let max_size = complexity_map.max_size_centi();
    let ms: u64 = if max_size < 100 {
        100
    } else {
        max_size
    };
    proof {
        lemma_max_churn_facts(entries);
        lemma_size_max_facts(sizes);
        assert(mc as nat == spec_floored_max_churn(entries));
        assert(ms as nat == spec_floored_max_size(sizes));
        assert(mc as nat <= 1000000000000);
        assert(ms <= 1000000000000);
    }

    // One record per churn entry, in insertion order.
    let mut rows: Vec<FileMetrics> = Vec::new();
    let mut i: usize = 0;
    while i < n
        invariant
            n == entries.len(),
            entries == git_metrics@,
            sizes == complexity_map@,
            git_metrics.wf(),
            complexity_map.wf(),
            spec_entries_bounded(entries),
            spec_sizes_bounded(sizes),
            1 <= mc as nat <= 1000000000000,
            1 <= ms <= 1000000000000,
            mc as nat == spec_floored_max_churn(entries),
            ms as nat == spec_floored_max_size(sizes),
            forall|k: int| 0 <= k < entries.len() ==> (#[trigger] entries[k]).churn <= mc,
            i <= n,
            rows@.len() == i,
            forall|k: int|
                0 <= k < i ==> rows@[k] == spec_row(
                    entries[k],
                    sizes,
                    mc as nat,
                    ms as nat,
                ),
            forall|k: int| 0 <= k < i ==> (#[trigger] rows@[k]).score_micro <= 100000000,
        decreases n - i,
    {
        let e = git_metrics.entry_at(i);
        let cx = complexity_map.size_or_zero(&e.path);
        proof {
            lemma_size_max_facts(sizes);
            if spec_size_map(sizes).dom().contains(e.path@) {
                let j = crate::sizes::spec_size_index(sizes, e.path@);
                assert(0 <= j < sizes.len() && sizes[j].path@ == e.path@);
                assert(sizes[j].size_centi <= spec_size_max(sizes));
            }
            assert(cx <= ms);
        }
        let a = e.authors.len();
        let score = score_value(e.churn, cx, mc, ms, a);
        let row = FileMetrics {
            path: e.path.clone(),
            churn: e.churn,
            complexity_centi: cx,
            authors: a,
            score_micro: score,
        };
        rows.push(row);
        proof {
            assert(rows@[i as int] == spec_row(entries[i as int], sizes, mc as nat, ms as nat));
        }
        i += 1;
    }
    proof {
        assert(rows@ =~= spec_rows(entries, sizes));
    }

    // Rank: a stable insertion sort, descending by score.
    let ghost rows0 = rows@;
    let ranked = sort_rows_desc(rows);
    proof {
        assert forall|i: int| 0 <= i < ranked@.len() implies (#[trigger] ranked@[i]).score_micro
            <= 100000000 by {
            assert(ranked@.contains(ranked@[i]));
            assert(rows0.contains(ranked@[i]));
            let j = choose|j: int| 0 <= j < rows0.len() && rows0[j] == ranked@[i];
            assert(rows0[j].score_micro <= 100000000);
        }
    }
    ranked
}

/// Sort records into weakly decreasing score order.  Equal scores keep
/// their existing relative order, so the ranking is deterministic.
fn sort_rows_desc(rows: Vec<FileMetrics>) -> (r: Vec<FileMetrics>)
    ensures
        r@.len() == rows@.len(),
        spec_sorted_desc(r@),
        r@.to_multiset() == rows@.to_multiset(),
        forall|x: FileMetrics| #[trigger] r@.contains(x) ==> rows@.contains(x),
{
    broadcast use vstd::seq_lib::to_multiset_build;
    broadcast use vstd::seq_lib::to_multiset_insert;

    let mut out: Vec<FileMetrics> = Vec::new();
    let mut pending = rows;
    proof {
        lemma_empty_seq_multiset(out@);
        assert(out@.to_multiset().add(pending@.to_multiset()) =~= rows@.to_multiset());
    }
    while pending.len() > 0
        invariant
            spec_sorted_desc(out@),
            out@.to_multiset().add(pending@.to_multiset()) == rows@.to_multiset(),
            out@.len() + pending@.len() == rows@.len(),
        decreases pending@.len(),
    {
        broadcast use vstd::seq_lib::to_multiset_build;
        broadcast use vstd::seq_lib::to_multiset_insert;

        let ghost pending0 = pending@;
        let x = pending.pop().unwrap();
        proof {
            assert(pending0.drop_last().push(pending0.last()) =~= pending0);
            assert(pending0.to_multiset() =~= pending@.to_multiset().insert(x));
        }
        let mut k: usize = 0;
        while k < out.len() && out[k].score_micro > x.score_micro
            invariant
                k <= out@.len(),
                spec_sorted_desc(out@),
                forall|t: int| 0 <= t < k ==> (#[trigger] out@[t]).score_micro > x.score_micro,
            decreases out@.len() - k,
        {
            k += 1;
        }
        let ghost out0 = out@;
        out.insert(k, x);
        proof {
            assert(out@ == out0.insert(k as int, x));
            assert forall|p: int, q: int| 0 <= p <= q < out@.len() implies (#[trigger] out@[p])
                .score_micro >= (#[trigger] out@[q]).score_micro by {
                if p < k && q < k {
                } else if p < k && q == k {
                } else if p == k && q == k {
                } else if p < k && q > k {
                    assert(out@[q] == out0[q - 1]);
                } else if p == k && q > k {
                    assert(out@[q] == out0[q - 1]);
                    if k < out0.len() {
                        assert(out0[k as int].score_micro <= x.score_micro);
                        assert(out0[k as int].score_micro >= out0[q - 1].score_micro);
                    }
                } else {
                    assert(out@[p] == out0[p - 1]);
                    assert(out@[q] == out0[q - 1]);
                }
            }
            assert(out@.to_multiset() =~= out0.to_multiset().insert(x));
            assert(out@.to_multiset().add(pending@.to_multiset()) =~= rows@.to_multiset());
        }
    }
    proof {
        lemma_empty_seq_multiset(pending@);
        assert(out@.to_multiset() =~= rows@.to_multiset());
        vstd::seq_lib::to_multiset_len(out@);
        vstd::seq_lib::to_multiset_len(rows@);
        broadcast use vstd::seq_lib::to_multiset_contains;
        assert forall|x: FileMetrics| #[trigger] out@.contains(x) implies rows@.contains(x) by {
            assert(out@.to_multiset().count(x) > 0);
        }
    }
    out
}

proof fn lemma_empty_seq_multiset(s: Seq<FileMetrics>)
    requires
        s.len() == 0,
    ensures
        s.to_multiset() =~= Multiset::<FileMetrics>::empty(),
{
    broadcast use vstd::seq_lib::group_to_multiset_ensures;

    assert forall|a: FileMetrics| s.to_multiset().count(a) == 0 by {
        assert(!s.contains(a));
    }
}

/// Keep only the best-ranked `top` records, in order.
pub fn truncate_top(metrics: &mut Vec<FileMetrics>, top: usize)
    ensures
        final(metrics)@ == (if top <= old(metrics)@.len() {
            old(metrics)@.take(top as int)
        } else {
            old(metrics)@
        }),
{
    metrics.truncate(top);
    proof {
        if top > old(metrics)@.len() {
            assert(final(metrics)@ =~= old(metrics)@);
        }
    }
}

/// Law: a file with recorded churn but no measured size scores exactly
/// zero, whatever its churn and author count: size is a multiplicative
/// gate, not an additive term.
pub proof fn lemma_zero_size_zero_score(churn: nat, max_churn: nat, max_size_centi: nat, authors: nat)
    requires
        max_churn >= 1,
        max_size_centi >= 1,
    ensures
        spec_score_micro(churn, 0, max_churn, max_size_centi, authors) == 0,
{
    let d = max_churn * max_size_centi * spec_penalty_denom_micro(authors);
    assert(100000000000000 * churn * 0 == 0) by {
        vstd::arithmetic::mul::lemma_mul_basics(100000000000000 * churn as int);
    }
    assert(d >= 1) by {
        crate::penalty::lemma_ln_micro_nonneg((authors + 1) as nat);
        lemma_mul_strictly_positive(max_churn as int, max_size_centi as int);
        lemma_mul_strictly_positive((max_churn * max_size_centi) as int, spec_penalty_denom_micro(authors));
    }
    assert((2 * 0 + d) / (2 * d) == 0) by {
        lemma_basic_div(d, 2 * d);
    }
}

/// Law: with churn and size fixed, more distinct authors never raise the
/// score.  (The penalty factor itself falls strictly; see
/// `lemma_penalty_strictly_decreasing`.)
pub proof fn lemma_more_authors_no_higher_score(
    churn: nat,
    size_centi: nat,
    max_churn: nat,
    max_size_centi: nat,
    authors1: nat,
    authors2: nat,
)
    requires
        max_churn >= 1,
        max_size_centi >= 1,
        authors1 < authors2,
        authors2 <= crate::penalty::AUTHOR_MONO_LIMIT,
    ensures
        spec_score_micro(churn, size_centi, max_churn, max_size_centi, authors2)
            <= spec_score_micro(churn, size_centi, max_churn, max_size_centi, authors1),
{
    let n = 100000000000000 * churn * size_centi;
    let p1 = spec_penalty_denom_micro(authors1);
    let p2 = spec_penalty_denom_micro(authors2);
    let d1 = max_churn * max_size_centi * p1;
    let d2 = max_churn * max_size_centi * p2;
    lemma_penalty_strictly_decreasing(authors1, authors2);
    crate::penalty::lemma_ln_micro_nonneg((authors1 + 1) as nat);
    assert(max_churn * max_size_centi >= 1) by {
        lemma_mul_strictly_positive(max_churn as int, max_size_centi as int);
    }
    assert(d1 < d2) by {
        lemma_mul_strict_inequality(p1, p2, (max_churn * max_size_centi) as int);
        vstd::arithmetic::mul::lemma_mul_is_commutative((max_churn * max_size_centi) as int, p1);
        vstd::arithmetic::mul::lemma_mul_is_commutative((max_churn * max_size_centi) as int, p2);
    }
    assert(d1 >= 1) by {
        lemma_mul_strictly_positive((max_churn * max_size_centi) as int, p1);
    }
    assert(n >= 0) by {
        vstd::arithmetic::mul::lemma_mul_nonnegative(100000000000000 * churn as int, size_centi as int);
        vstd::arithmetic::mul::lemma_mul_nonnegative(100000000000000, churn as int);
    }
    let q2 = (2 * n + d2) / (2 * d2);
    assert(q2 >= 0) by {
        lemma_div_pos_is_pos(2 * n + d2, 2 * d2);
    }
    if q2 == 0 {
        assert((2 * n + d1) / (2 * d1) >= 0) by {
            lemma_div_pos_is_pos(2 * n + d1, 2 * d1);
        }
    } else {
        // From the division's defining identity, 2n + d2 >= 2 d2 q2, so
        // 2n >= d2 (2 q2 - 1) >= d1 (2 q2 - 1), hence 2n + d1 >= 2 d1 q2
        // and the smaller-denominator quotient is at least q2.
        assert(2 * n + d2 >= (2 * d2) * q2) by {
            lemma_fundamental_div_mod(2 * n + d2, 2 * d2);
            vstd::arithmetic::div_mod::lemma_mod_division_less_than_divisor(2 * n + d2, 2 * d2);
            assert((2 * n + d2) % (2 * d2) >= 0);
        }
        assert(2 * n >= d2 * (2 * q2 - 1)) by {
            assert((2 * d2) * q2 == d2 * (2 * q2)) by {
                vstd::arithmetic::mul::lemma_mul_is_associative(2, d2 as int, q2);
                vstd::arithmetic::mul::lemma_mul_is_associative(d2 as int, 2, q2);
            }
            assert(d2 * (2 * q2) == d2 * (2 * q2 - 1) + d2) by {
                vstd::arithmetic::mul::lemma_mul_is_distributive_sub(d2 as int, 2 * q2, 1);
            }
        }
        assert(d1 * (2 * q2 - 1) <= d2 * (2 * q2 - 1)) by {
            lemma_mul_inequality(d1 as int, d2 as int, 2 * q2 - 1);
            vstd::arithmetic::mul::lemma_mul_is_commutative(d1 as int, 2 * q2 - 1);
            vstd::arithmetic::mul::lemma_mul_is_commutative(d2 as int, 2 * q2 - 1);
        }
        assert(2 * n + d1 >= (2 * d1) * q2) by {
            assert(d1 * (2 * q2) == d1 * (2 * q2 - 1) + d1) by {
                vstd::arithmetic::mul::lemma_mul_is_distributive_sub(d1 as int, 2 * q2, 1);
            }
            assert((2 * d1) * q2 == d1 * (2 * q2)) by {
                vstd::arithmetic::mul::lemma_mul_is_associative(2, d1 as int, q2);
                vstd::arithmetic::mul::lemma_mul_is_associative(d1 as int, 2, q2);
            }
        }
        assert((2 * n + d1) / (2 * d1) >= q2) by {
            lemma_div_is_ordered((2 * d1) * q2, 2 * n + d1, 2 * d1);
            vstd::arithmetic::mul::lemma_mul_is_commutative(2 * d1, q2);
            lemma_div_multiples_vanish(q2, 2 * d1);
        }
    }
}

} // verus!
