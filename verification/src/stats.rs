//! Latency statistics and the composite score.
//!
//! Every quantity is a whole number of microseconds and every result is
//! the exact rational value rounded down. A sample is any sequence of
//! latencies, in any order; the standard deviation is taken of samples of
//! fewer than 2^32 values.
//!
//! Resolvers are ranked by ascending overall score, and neighbours in
//! rank whose scores differ by less than their uncertainties add up to
//! are grouped as tied.

use crate::text::{decimal, push_decimal};
use vstd::prelude::*;
use vstd::relations::{sorted_by, total_ordering};
use vstd::seq_lib::lemma_sorted_unique;
use vstd::string::StringExecFns;

verus! {

/// Statistics for a set of queries (warm, cold, or tld).
#[derive(Debug, Clone, Copy, PartialEq, Eq, Structural)]
pub struct SetStats {
    pub p50_us: u32,
    pub p95_us: u32,
    pub mean_us: u32,
    pub stddev_us: u32,
    pub success_count: usize,
    pub timeout_count: usize,
    pub total_count: usize,
    pub score: u64,
}

impl Default for SetStats {
    fn default() -> (r: Self)
        ensures
            r == SetStats::zero(),
    {
        SetStats {
            p50_us: 0,
            p95_us: 0,
            mean_us: 0,
            stddev_us: 0,
            success_count: 0,
            timeout_count: 0,
            total_count: 0,
            score: 0,
        }
    }
}

impl SetStats {
    /// The statistics of a set in which nothing was asked.
    pub open spec fn zero() -> SetStats {
        SetStats {
            p50_us: 0,
            p95_us: 0,
            mean_us: 0,
            stddev_us: 0,
            success_count: 0,
            timeout_count: 0,
            total_count: 0,
            score: 0,
        }
    }
}

/// The order on latencies.
pub open spec fn latency_leq() -> spec_fn(u32, u32) -> bool {
    |a: u32, b: u32| a <= b
}

/// The sample in ascending order.
pub open spec fn sorted_sample(s: Seq<u32>) -> Seq<u32> {
    s.sort_by(latency_leq())
}

/// Nearest-rank position, counted from 1, of the `p`-th percentile among
/// `n` ordered values: the least rank `r` with `100 * r >= p * n`, held
/// inside `1..=n`.
pub open spec fn nearest_rank(n: nat, p: nat) -> int {
    let r = (p * n + 99) / 100;
    if r < 1 {
        1
    } else if r > n {
        n as int
    } else {
        r as int
    }
}

/// The `p`-th percentile of an ordered, non-empty sample.
pub open spec fn percentile_value(sorted: Seq<u32>, p: nat) -> u32
    recommends
        sorted.len() > 0,
{
    sorted[nearest_rank(sorted.len(), p) - 1]
}

/// Sum of the sample.
pub open spec fn sum_of(s: Seq<u32>) -> int
    decreases s.len(),
{
    if s.len() == 0 {
        0
    } else {
        sum_of(s.drop_last()) + s.last()
    }
}

/// Sum of the squares of the sample.
pub open spec fn sum_of_squares(s: Seq<u32>) -> int
    decreases s.len(),
{
    if s.len() == 0 {
        0
    } else {
        sum_of_squares(s.drop_last()) + s.last() * s.last()
    }
}

/// The sum over the sample of `(n * v - total)^2`. With `n` the sample's
/// size and `total` its sum this is `n^3` times the population variance.
pub open spec fn scaled_square_deviations(s: Seq<u32>, n: int, total: int) -> int
    decreases s.len(),
{
    if s.len() == 0 {
        0
    } else {
        scaled_square_deviations(s.drop_last(), n, total) + (n * s.last() - total) * (n * s.last()
            - total)
    }
}

/// `n^3` times the population variance of a sample of size `n`.
pub open spec fn cubed_variance(s: Seq<u32>) -> int {
    scaled_square_deviations(s, s.len() as int, sum_of(s))
}

/// Whether `r` is the population standard deviation of `s`, rounded down:
/// `r^2 <= variance < (r + 1)^2`, with both sides multiplied by `n^3`.
pub open spec fn is_stddev_of(s: Seq<u32>, r: int) -> bool {
    let n = s.len() as int;
    &&& 0 <= r
    &&& r * r * (n * n * n) <= cubed_variance(s)
    &&& cubed_variance(s) < (r + 1) * (r + 1) * (n * n * n)
}

/// The composite score `p50 + (p95 - p50) / 2 + penalty * timeouts / total`,
/// rounded down; the timeout rate of an empty set is zero.
pub open spec fn composite_score(p50: int, p95: int, timeouts: int, total: int, penalty: int) -> int {
    if total > 0 {
        (2 * total * p50 + total * (p95 - p50) + 2 * penalty * timeouts) / (2 * total)
    } else {
        (2 * p50 + (p95 - p50)) / 2
    }
}

/// The score that belongs to a set's statistics.
pub open spec fn score_of(stats: SetStats, penalty: u32) -> int {
    composite_score(
        stats.p50_us as int,
        stats.p95_us as int,
        stats.timeout_count as int,
        stats.total_count as int,
        penalty as int,
    )
}

/// Absolute deviations of an ordered sample from a centre, in the
/// sample's order.
pub open spec fn absolute_deviations(s: Seq<u32>, centre: u32) -> Seq<u32> {
    s.map_values(|v: u32| if v >= centre { (v - centre) as u32 } else { (centre - v) as u32 })
}

/// Median absolute deviation of a sample of two or more values, by
/// nearest rank.
pub open spec fn median_absolute_deviation(s: Seq<u32>) -> u32
    recommends
        s.len() >= 2,
{
    let sorted = sorted_sample(s);
    let median = percentile_value(sorted, 50);
    percentile_value(sorted_sample(absolute_deviations(sorted, median)), 50)
}

/// Half-width of the uncertainty band of a sample: `1.4826` times the
/// median absolute deviation, rounded down, and zero for fewer than two
/// values.
pub open spec fn uncertainty_of(s: Seq<u32>) -> int {
    if s.len() < 2 {
        0
    } else {
        median_absolute_deviation(s) * 14826 / 10000
    }
}

/// The nearest rank is the ceiling of `p * n / 100`, held inside `1..=n`.
pub proof fn nearest_rank_is_clamped_ceiling(n: nat, p: nat)
    requires
        n > 0,
    ensures
        1 <= nearest_rank(n, p) <= n,
        100 * nearest_rank(n, p) >= p * n || nearest_rank(n, p) == n,
        100 * (nearest_rank(n, p) - 1) < p * n || nearest_rank(n, p) == 1,
{
    let x = (p * n + 99) as int;
    let r = x / 100;
    assert(x == 100 * r + x % 100 && 0 <= x % 100 < 100) by {
        vstd::arithmetic::div_mod::lemma_fundamental_div_mod(x, 100);
    }
}

/// A sample has one standard deviation.
pub proof fn stddev_is_unique(s: Seq<u32>, a: int, b: int)
    requires
        s.len() > 0,
        is_stddev_of(s, a),
        is_stddev_of(s, b),
    ensures
        a == b,
{
    let n = s.len() as int;
    let cube = n * n * n;
    let v = cubed_variance(s);
    assert(cube > 0) by (nonlinear_arith)
        requires
            n > 0,
            cube == n * n * n,
    ;
    assert(a < b + 1) by (nonlinear_arith)
        requires
            0 <= a,
            0 <= b,
            cube > 0,
            a * a * cube <= v,
            v < (b + 1) * (b + 1) * cube,
    ;
    assert(b < a + 1) by (nonlinear_arith)
        requires
            0 <= a,
            0 <= b,
            cube > 0,
            b * b * cube <= v,
            v < (a + 1) * (a + 1) * cube,
    ;
}

/// More timeouts never make a score better, and with all else equal a
/// set without timeouts scores its latencies alone.
pub proof fn score_grows_with_timeouts(p50: int, p95: int, fewer: int, more: int, total: int, penalty: int)
    requires
        0 <= p50,
        0 <= p95,
        0 <= fewer <= more,
        0 < total,
        0 <= penalty,
    ensures
        composite_score(p50, p95, fewer, total, penalty) <= composite_score(
            p50,
            p95,
            more,
            total,
            penalty,
        ),
        composite_score(p50, p95, 0, total, penalty) == (p50 + p95) / 2,
{
    let base = 2 * total * p50 + total * (p95 - p50);
    assert(2 * penalty * fewer <= 2 * penalty * more) by (nonlinear_arith)
        requires
            0 <= fewer <= more,
            0 <= penalty,
    ;
    vstd::arithmetic::div_mod::lemma_div_is_ordered(
        base + 2 * penalty * fewer,
        base + 2 * penalty * more,
        2 * total,
    );
    assert(base == total * (p50 + p95)) by (nonlinear_arith)
        requires
            base == 2 * total * p50 + total * (p95 - p50),
    ;
    assert((total * (p50 + p95)) / (2 * total) == (p50 + p95) / 2) by {
        vstd::arithmetic::div_mod::lemma_div_denominator(total * (p50 + p95), total, 2);
        vstd::arithmetic::div_mod::lemma_div_multiples_vanish(p50 + p95, total);
        assert(total * (p50 + p95) == (p50 + p95) * total) by (nonlinear_arith);
        assert(2 * total == total * 2);
    }
    assert(2 * penalty * 0 == 0);
}

proof fn lemma_latency_leq_total()
    ensures
        total_ordering(latency_leq()),
{
}

/// An ascending rearrangement of a sample is the sorted sample.
proof fn lemma_sorted_sample_unique(s: Seq<u32>, t: Seq<u32>)
    requires
        s.to_multiset() == t.to_multiset(),
        sorted_by(t, latency_leq()),
    ensures
        t == sorted_sample(s),
{
    lemma_latency_leq_total();
    s.lemma_sort_by_ensures(latency_leq());
    lemma_sorted_unique(t, sorted_sample(s), latency_leq());
}

/// An ascending copy of a sample, made by inserting each value behind
/// the values that are not greater.
fn sorted_copy(values: &[u32]) -> (r: Vec<u32>)
    ensures
        r@ == sorted_sample(values@),
        r@.len() == values@.len(),
{
    let mut out: Vec<u32> = Vec::new();
    let mut i: usize = 0;
    assert(values@.take(0) =~= out@);
    while i < values.len()
        invariant
            i <= values@.len(),
            out@.len() == i,
            sorted_by(out@, latency_leq()),
            out@.to_multiset() == values@.take(i as int).to_multiset(),
        decreases values@.len() - i,
    {
        let v = values[i];
        let mut pos: usize = out.len();
        while pos > 0 && out[pos - 1] > v
            invariant
                pos <= out@.len(),
                sorted_by(out@, latency_leq()),
                forall|k: int| pos <= k < out@.len() ==> out@[k] > v,
            decreases pos,
        {
            pos -= 1;
        }
        proof {
            let before = out@;
            let after = before.insert(pos as int, v);
            assert forall|k: int| 0 <= k < pos implies before[k] <= v by {
                if k < pos - 1 {
                    assert(latency_leq()(before[k], before[pos - 1]));
                }
            }
            assert forall|a: int, b: int| 0 <= a < b < after.len() implies #[trigger] latency_leq()(
                after[a],
                after[b],
            ) by {
                if a < pos && b > pos {
                    assert(after[a] == before[a] && after[b] == before[b - 1]);
                } else if a < pos && b == pos {
                    assert(after[a] == before[a]);
                } else if a < pos && b < pos {
                    assert(after[a] == before[a] && after[b] == before[b]);
                    assert(latency_leq()(before[a], before[b]));
                } else if a == pos {
                    assert(after[b] == before[b - 1]);
                } else {
                    assert(after[a] == before[a - 1] && after[b] == before[b - 1]);
                    assert(latency_leq()(before[a - 1], before[b - 1]));
                }
            }
            vstd::seq_lib::to_multiset_insert(before, pos as int, v);
            assert(values@.take(i + 1) =~= values@.take(i as int).push(v));
            vstd::seq_lib::to_multiset_build(values@.take(i as int), v);
        }
        out.insert(pos, v);
        i += 1;
    }
    assert(values@.take(values@.len() as int) == values@);
    proof {
        lemma_sorted_sample_unique(values@, out@);
    }
    out
}

/// Calculate the p-th percentile from a sorted slice using the
/// nearest-rank method.
///
/// `p` is a whole percentage; anything above 100 selects the last value.
/// Returns `None` if the slice is empty, otherwise the value at the
/// nearest rank.
pub fn percentile(sorted_values: &[u32], p: u32) -> (r: Option<u32>)
    ensures
        sorted_values@.len() == 0 ==> r is None,
        sorted_values@.len() > 0 ==> r == Some(percentile_value(sorted_values@, p as nat)),
{
    let n = sorted_values.len();
    if n == 0 {
        return None;
    }
    assert(p * n <= 0x1_0000_0000 * 0x1_0000_0000_0000_0000) by (nonlinear_arith)
        requires
            p <= 0x1_0000_0000,
            n <= 0x1_0000_0000_0000_0000,
    ;
    let raw: u128 = (p as u128 * n as u128 + 99) / 100;
    let rank: u128 = if raw < 1 {
        1
    } else if raw > n as u128 {
        n as u128
    } else {
        raw
    };
    Some(sorted_values[(rank - 1) as usize])
}

/// Calculate the arithmetic mean of a slice of values, rounded down.
pub fn mean(values: &[u32]) -> (r: Option<u32>)
    ensures
        values@.len() == 0 ==> r is None,
        values@.len() > 0 ==> r == Some((sum_of(values@) / values@.len() as int) as u32),
        values@.len() > 0 ==> 0 <= sum_of(values@) / values@.len() as int <= u32::MAX,
{
    let n = values.len();
    if n == 0 {
        return None;
    }
    let mut sum: u128 = 0;
    let mut i: usize = 0;
    while i < n
        invariant
            n == values@.len(),
            i <= n,
            sum == sum_of(values@.take(i as int)),
            0 <= sum <= i * u32::MAX,
        decreases n - i,
    {
        assert(values@.take(i + 1).drop_last() == values@.take(i as int));
        assert((i + 1) * u32::MAX == i * u32::MAX + u32::MAX) by (nonlinear_arith);
        assert(i * u32::MAX < 0x1_0000_0000_0000_0000 * 0x1_0000_0000) by (nonlinear_arith)
            requires
                i < 0x1_0000_0000_0000_0000,
        ;
        sum = sum + values[i] as u128;
        i += 1;
    }
    assert(values@.take(n as int) == values@);
    let m: u128 = sum / (n as u128);
    assert(m <= u32::MAX) by (nonlinear_arith)
        requires
            m as int == (sum as int) / (n as int),
            0 <= sum <= n * u32::MAX,
            n > 0,
    ;
    Some(m as u32)
}

/// Largest `s` with `s * s <= x`.
fn integer_sqrt(x: u128) -> (s: u64)
    ensures
        s * s <= x < (s + 1) * (s + 1),
{
    let mut lo: u128 = 0;
    let mut hi: u128 = 0x1_0000_0000_0000_0000;
    assert(x < hi * hi) by (nonlinear_arith)
        requires
            hi == 0x1_0000_0000_0000_0000,
            x <= u128::MAX,
    ;
    while hi - lo > 1
        invariant
            lo < hi <= 0x1_0000_0000_0000_0000,
            lo * lo <= x < hi * hi,
        decreases hi - lo,
    {
        let mid: u128 = lo + (hi - lo) / 2;
        assert(mid * mid <= u128::MAX) by (nonlinear_arith)
            requires
                mid < 0x1_0000_0000_0000_0000,
        ;
        if mid * mid <= x {
            lo = mid;
        } else {
            hi = mid;
        }
    }
    lo as u64
}

/// The sums of a sample unfold at its last value.
proof fn lemma_sums_step(s: Seq<u32>, k: int)
    requires
        0 <= k < s.len(),
    ensures
        sum_of(s.take(k + 1)) == sum_of(s.take(k)) + s[k],
        sum_of_squares(s.take(k + 1)) == sum_of_squares(s.take(k)) + s[k] * s[k],
{
    assert(s.take(k + 1).drop_last() == s.take(k));
}

/// The scaled square deviations, expanded:
/// `sum (n v - t)^2 = n^2 sum v^2 - 2 n t sum v + len t^2`, and it is never negative.
proof fn lemma_scaled_square_deviations(s: Seq<u32>, n: int, total: int)
    ensures
        scaled_square_deviations(s, n, total) == n * n * sum_of_squares(s) - 2 * n * total * sum_of(
            s,
        ) + s.len() * total * total,
        scaled_square_deviations(s, n, total) >= 0,
    decreases s.len(),
{
    if s.len() > 0 {
        let rest = s.drop_last();
        let v = s.last() as int;
        lemma_scaled_square_deviations(rest, n, total);
        let q = sum_of_squares(rest);
        let a = sum_of(rest);
        let k = rest.len() as int;
        assert((n * v - total) * (n * v - total) >= 0) by (nonlinear_arith);
        assert(n * n * q - 2 * n * total * a + k * total * total + (n * v - total) * (n * v - total)
            == n * n * (q + v * v) - 2 * n * total * (a + v) + (k + 1) * total * total)
            by (nonlinear_arith);
    }
}

/// `n^3` times the variance is `n * (n * sum v^2 - (sum v)^2)`.
proof fn lemma_cubed_variance(s: Seq<u32>)
    ensures
        cubed_variance(s) == s.len() * (s.len() * sum_of_squares(s) - sum_of(s) * sum_of(s)),
        cubed_variance(s) >= 0,
        s.len() > 0 ==> s.len() * sum_of_squares(s) - sum_of(s) * sum_of(s) >= 0,
{
    let n = s.len() as int;
    let t = sum_of(s);
    let q = sum_of_squares(s);
    lemma_scaled_square_deviations(s, n, t);
    assert(n * n * q - 2 * n * t * t + n * t * t == n * (n * q - t * t)) by (nonlinear_arith);
    if n > 0 {
        assert(n * q - t * t >= 0) by (nonlinear_arith)
            requires
                n > 0,
                n * (n * q - t * t) >= 0,
        ;
    }
}

/// Calculate the population standard deviation of a slice of values,
/// rounded down.
pub fn stddev(values: &[u32]) -> (r: Option<u32>)
    requires
        values@.len() <= u32::MAX,
    ensures
        values@.len() == 0 ==> r is None,
        values@.len() > 0 ==> r is Some && is_stddev_of(values@, r->Some_0 as int),
{
    let n = values.len();
    if n == 0 {
        return None;
    }
    let mut sum: u64 = 0;
    let mut squares: u128 = 0;
    let mut i: usize = 0;
    while i < n
        invariant
            n == values@.len(),
            n <= u32::MAX,
            i <= n,
            sum == sum_of(values@.take(i as int)),
            squares == sum_of_squares(values@.take(i as int)),
            0 <= sum <= i * 0xffff_ffff,
            0 <= squares <= i * 0xffff_fffe_0000_0001,
        decreases n - i,
    {
        let v = values[i];
        proof {
            lemma_sums_step(values@, i as int);
            assert(v * v <= 0xffff_fffe_0000_0001) by (nonlinear_arith)
                requires
                    0 <= v <= 0xffff_ffff,
            ;
            assert((i + 1) * 0xffff_ffff <= 0xffff_ffff * 0xffff_ffff) by (nonlinear_arith)
                requires
                    i + 1 <= 0xffff_ffff,
            ;
            assert((i + 1) * 0xffff_fffe_0000_0001 <= 0xffff_ffff * 0xffff_fffe_0000_0001)
                by (nonlinear_arith)
                requires
                    i + 1 <= 0xffff_ffff,
            ;
            assert((i + 1) * 0xffff_ffff == i * 0xffff_ffff + 0xffff_ffff) by (nonlinear_arith);
            assert((i + 1) * 0xffff_fffe_0000_0001 == i * 0xffff_fffe_0000_0001
                + 0xffff_fffe_0000_0001) by (nonlinear_arith);
        }
        sum = sum + v as u64;
        squares = squares + (v as u128) * (v as u128);
        i += 1;
    }
    assert(values@.take(n as int) == values@);
    proof {
        lemma_cubed_variance(values@);
        assert(n * squares <= 0xffff_ffff * (0xffff_ffff * 0xffff_fffe_0000_0001))
            by (nonlinear_arith)
            requires
                0 <= n <= 0xffff_ffff,
                0 <= squares <= n * 0xffff_fffe_0000_0001,
        ;
    }
    let spread: u128 = (n as u128) * squares - (sum as u128) * (sum as u128);
    let root = integer_sqrt(spread);
    let r: u64 = root / (n as u64);
    proof {
        let nn = n as int;
        let d = spread as int;
        let s = root as int;
        let rr = r as int;
        assert(rr * nn <= s && s < (rr + 1) * nn) by (nonlinear_arith)
            requires
                rr == s / nn,
                nn > 0,
                s >= 0,
        ;
        assert(rr * rr * (nn * nn * nn) <= nn * d) by (nonlinear_arith)
            requires
                0 <= rr * nn <= s,
                s * s <= d,
                nn > 0,
                rr >= 0,
        ;
        assert(nn * d < (rr + 1) * (rr + 1) * (nn * nn * nn)) by (nonlinear_arith)
            requires
                s + 1 <= (rr + 1) * nn,
                d < (s + 1) * (s + 1),
                nn > 0,
                s >= 0,
        ;
        assert(rr <= 0xffff_ffff) by (nonlinear_arith)
            requires
                rr * nn <= s,
                s * s <= d,
                d <= nn * squares,
                squares <= nn * 0xffff_fffe_0000_0001,
                nn > 0,
                rr >= 0,
                s >= 0,
        ;
    }
    Some(r as u32)
}

/// Calculate a set score that balances median latency, tail latency, and
/// reliability.
///
/// Formula: `p50 + (p95 - p50) / 2 + penalty * timeout_rate`, rounded down.
pub fn set_score(stats: &SetStats, timeout_penalty_us: u32) -> (r: u64)
    requires
        stats.timeout_count <= stats.total_count,
    ensures
        r == score_of(*stats, timeout_penalty_us),
{
    let p50 = stats.p50_us as u128;
    let p95 = stats.p95_us as u128;
    if stats.total_count == 0 {
        return ((p50 + p95) / 2) as u64;
    }
    let total = stats.total_count as u128;
    let timeouts = stats.timeout_count as u128;
    let penalty = timeout_penalty_us as u128;
    assert(total * (p50 + p95) <= 0x1_0000_0000_0000_0000 * 0x2_0000_0000) by (nonlinear_arith)
        requires
            total <= 0x1_0000_0000_0000_0000,
            p50 + p95 <= 0x2_0000_0000,
    ;
    assert(penalty * timeouts <= 0x1_0000_0000 * 0x1_0000_0000_0000_0000) by (nonlinear_arith)
        requires
            timeouts <= 0x1_0000_0000_0000_0000,
            penalty <= 0x1_0000_0000,
    ;
    let numerator: u128 = total * (p50 + p95) + 2 * (penalty * timeouts);
    let score: u128 = numerator / (2 * total);
    proof {
        assert(2 * total * p50 + total * (p95 - p50) + 2 * penalty * timeouts == numerator)
            by (nonlinear_arith)
            requires
                numerator == total * (p50 + p95) + 2 * (penalty * timeouts),
        ;
        assert(numerator <= 2 * total * 0x2_0000_0000) by (nonlinear_arith)
            requires
                numerator == total * (p50 + p95) + 2 * (penalty * timeouts),
                timeouts <= total,
                p50 + p95 <= 0x1_ffff_fffe,
                penalty <= 0xffff_ffff,
                total > 0,
        ;
        assert(score <= 0x2_0000_0000) by (nonlinear_arith)
            requires
                score as int == (numerator as int) / (2 * total),
                numerator <= 2 * total * 0x2_0000_0000,
                total > 0,
        ;
    }
    score as u64
}

/// Whether `r` holds the statistics of a sample and its counts: the
/// percentiles of the ascending sample, its mean and standard deviation
/// rounded down (all zero for an empty sample), the counts as given, and
/// the score that belongs to them.
pub open spec fn summarizes(
    r: SetStats,
    latencies: Seq<u32>,
    success_count: usize,
    timeout_count: usize,
    total_count: usize,
    penalty: u32,
) -> bool {
    &&& r.success_count == success_count
    &&& r.timeout_count == timeout_count
    &&& r.total_count == total_count
    &&& r.score == score_of(r, penalty)
    &&& if latencies.len() == 0 {
        r.p50_us == 0 && r.p95_us == 0 && r.mean_us == 0 && r.stddev_us == 0
    } else {
        &&& r.p50_us == percentile_value(sorted_sample(latencies), 50)
        &&& r.p95_us == percentile_value(sorted_sample(latencies), 95)
        &&& r.mean_us == sum_of(latencies) / latencies.len() as int
        &&& is_stddev_of(latencies, r.stddev_us as int)
    }
}

/// Compute `SetStats` from a slice of latencies (in microseconds) and
/// counts.
///
/// The percentiles are taken over the latencies in ascending order; the
/// counts are carried over as they are.
pub fn compute_set_stats(
    latencies_us: &[u32],
    success_count: usize,
    timeout_count: usize,
    total_count: usize,
    timeout_penalty_us: u32,
) -> (r: SetStats)
    requires
        latencies_us@.len() <= u32::MAX,
        timeout_count <= total_count,
    ensures
        summarizes(
            r,
            latencies_us@,
            success_count,
            timeout_count,
            total_count,
            timeout_penalty_us,
        ),
        latencies_us@.len() == 0 && total_count == 0 ==> r == (SetStats {
            success_count,
            ..SetStats::zero()
        }),
{
    let sorted = sorted_copy(latencies_us);
    let p50 = match percentile(sorted.as_slice(), 50) {
        Some(v) => v,
        None => 0,
    };
    let p95 = match percentile(sorted.as_slice(), 95) {
        Some(v) => v,
        None => 0,
    };
    let avg = match mean(latencies_us) {
        Some(v) => v,
        None => 0,
    };
    let sd = match stddev(latencies_us) {
        Some(v) => v,
        None => 0,
    };
    let mut stats = SetStats {
        p50_us: p50,
        p95_us: p95,
        mean_us: avg,
        stddev_us: sd,
        success_count,
        timeout_count,
        total_count,
        score: 0,
    };
    let score = set_score(&stats, timeout_penalty_us);
    stats.score = score;
    stats
}

/// Compute the uncertainty of a score using MAD (median absolute
/// deviation).
///
/// Uses the scale factor 1.4826 for consistency with the normal
/// distribution and returns the half-width of the uncertainty band, in
/// microseconds.
pub fn compute_uncertainty(latencies_us: &[u32]) -> (r: u64)
    ensures
        r == uncertainty_of(latencies_us@),
{
    if latencies_us.len() < 2 {
        return 0;
    }
    let sorted = sorted_copy(latencies_us);
    let median = match percentile(sorted.as_slice(), 50) {
        Some(v) => v,
        None => 0,
    };
    let mut deviations: Vec<u32> = Vec::new();
    let mut i: usize = 0;
    while i < sorted.len()
        invariant
            i <= sorted@.len(),
            deviations@ == absolute_deviations(sorted@, median).take(i as int),
        decreases sorted@.len() - i,
    {
        let v = sorted[i];
        let d = if v >= median {
            v - median
        } else {
            median - v
        };
        deviations.push(d);
        assert(absolute_deviations(sorted@, median).take(i as int).push(d)
            == absolute_deviations(sorted@, median).take(i + 1));
        i += 1;
    }
    assert(absolute_deviations(sorted@, median).take(sorted@.len() as int) == absolute_deviations(
        sorted@,
        median,
    ));
    let ordered = sorted_copy(deviations.as_slice());
    let mad = match percentile(ordered.as_slice(), 50) {
        Some(v) => v,
        None => 0,
    };
    (mad as u64) * 14826 / 10000
}

/// Full resolver statistics with warm, cold, and TLD sets.
#[derive(Debug)]
pub struct ResolverStats {
    pub label: String,
    /// Textual IP address of the resolver.
    pub addr: String,
    /// UDP port of the resolver.
    pub port: u16,
    pub warm: SetStats,
    pub cold: SetStats,
    pub tld: Option<SetStats>,
    /// Mean of the warm and cold scores, rounded down.
    pub overall_score: u64,
    /// Share of successful queries over all sets, in hundredths of a
    /// percent.
    pub success_rate_bp: u32,
    pub intercepts_nxdomain: bool,
}

impl Clone for ResolverStats {
    fn clone(&self) -> (r: Self)
        ensures
            r == *self,
    {
        ResolverStats {
            label: self.label.clone(),
            addr: self.addr.clone(),
            port: self.port,
            warm: self.warm,
            cold: self.cold,
            tld: self.tld,
            overall_score: self.overall_score,
            success_rate_bp: self.success_rate_bp,
            intercepts_nxdomain: self.intercepts_nxdomain,
        }
    }
}

/// Scored and ranked resolver.
#[derive(Debug)]
pub struct ScoredResolver {
    pub rank: usize,
    pub stats: ResolverStats,
    /// Tie group label (e.g. "1-3") when resolvers are statistically tied.
    pub tie_group: Option<String>,
}

impl Clone for ScoredResolver {
    fn clone(&self) -> (r: Self)
        ensures
            r == *self,
    {
        let tie_group = match &self.tie_group {
            Some(s) => Some(s.clone()),
            None => None,
        };
        ScoredResolver { rank: self.rank, stats: self.stats.clone(), tie_group }
    }
}

/// The overall score of a resolver: the mean of its warm and cold scores,
/// rounded down.
pub fn overall_score(warm: &SetStats, cold: &SetStats) -> (r: u64)
    ensures
        r == (warm.score + cold.score) / 2,
{
    ((warm.score as u128 + cold.score as u128) / 2) as u64
}

/// The share of successes in hundredths of a percent; zero when nothing
/// was asked.
pub open spec fn success_share(successes: int, total: int) -> int {
    if total > 0 {
        successes * 10000 / total
    } else {
        0
    }
}

/// The success rate over all queries, in hundredths of a percent, rounded
/// down.
pub fn success_rate_bp(successes: u64, total: u64) -> (r: u32)
    requires
        successes <= total,
    ensures
        r == success_share(successes as int, total as int),
        r <= 10000,
{
    if total == 0 {
        return 0;
    }
    let scaled: u128 = successes as u128 * 10000;
    let rate: u128 = scaled / (total as u128);
    assert(rate <= 10000) by (nonlinear_arith)
        requires
            rate as int == (scaled as int) / (total as int),
            scaled == successes * 10000,
            successes <= total,
            total > 0,
    ;
    rate as u32
}

/// Whether `order` lists every position of `keys` once, by ascending key,
/// and positions with equal keys in ascending order.
pub open spec fn is_stable_order(keys: Seq<u64>, order: Seq<usize>) -> bool {
    &&& order.len() == keys.len()
    &&& forall|i: int| 0 <= i < order.len() ==> (#[trigger] order[i]) < keys.len()
    &&& forall|i: int, j: int|
        0 <= i < j < order.len() ==> keys[#[trigger] order[i] as int] < keys[#[trigger] order[j] as int]
            || (keys[order[i] as int] == keys[order[j] as int] && order[i] < order[j])
}

/// A position as a mathematical integer.
pub open spec fn position() -> spec_fn(usize) -> int {
    |v: usize| v as int
}

/// A stable order lists every position.
pub(crate) proof fn lemma_stable_order_covers(keys: Seq<u64>, order: Seq<usize>, x: int)
    requires
        is_stable_order(keys, order),
        0 <= x < keys.len(),
    ensures
        exists|i: int| 0 <= i < order.len() && order[i] == x,
{
    let n = keys.len() as int;
    let listed = order.map_values(position());
    assert forall|i: int, j: int| 0 <= i < j < listed.len() implies listed[i] != listed[j] by {
        assert(keys[order[i] as int] < keys[order[j] as int] || order[i] < order[j]);
    }
    listed.unique_seq_to_set();
    let all = vstd::set_lib::set_int_range(0, n);
    vstd::set_lib::lemma_int_range(0, n);
    assert forall|v: int| listed.to_set().contains(v) implies all.contains(v) by {
        let i = choose|i: int| 0 <= i < listed.len() && listed[i] == v;
        assert(order[i] < keys.len());
    }
    vstd::set_lib::lemma_len_subset(listed.to_set(), all);
    vstd::set_lib::lemma_subset_equality(listed.to_set(), all);
    assert(all.contains(x));
    assert(listed.contains(x));
    let i = choose|i: int| 0 <= i < listed.len() && listed[i] == x;
    assert(order[i] == x);
}

proof fn lemma_stable_orders_agree(keys: Seq<u64>, a: Seq<usize>, b: Seq<usize>, i: int)
    requires
        is_stable_order(keys, a),
        is_stable_order(keys, b),
        0 <= i < keys.len(),
    ensures
        a[i] == b[i],
    decreases i,
{
    assert forall|j: int| 0 <= j < i implies a[j] == b[j] by {
        lemma_stable_orders_agree(keys, a, b, j);
    }
    let x = a[i];
    let y = b[i];
    if x != y {
        lemma_stable_order_covers(keys, b, x as int);
        let k = choose|k: int| 0 <= k < b.len() && b[k] == x;
        if k < i {
            assert(a[k] == b[k]);
            assert(keys[a[k] as int] < keys[a[i] as int] || a[k] < a[i]);
        }
        assert(keys[b[i] as int] < keys[b[k] as int] || (keys[b[i] as int] == keys[b[k] as int] && b[i]
            < b[k]));
        lemma_stable_order_covers(keys, a, y as int);
        let m = choose|m: int| 0 <= m < a.len() && a[m] == y;
        if m < i {
            assert(a[m] == b[m]);
            assert(keys[b[m] as int] < keys[b[i] as int] || b[m] < b[i]);
        }
        assert(keys[a[i] as int] < keys[a[m] as int] || (keys[a[i] as int] == keys[a[m] as int] && a[i]
            < a[m]));
    }
}

/// Keys have one stable order: ranking by score is settled by the scores
/// and the order in which the resolvers were given.
pub proof fn stable_order_is_unique(keys: Seq<u64>, a: Seq<usize>, b: Seq<usize>)
    requires
        is_stable_order(keys, a),
        is_stable_order(keys, b),
    ensures
        a == b,
{
    assert forall|i: int| 0 <= i < a.len() implies a[i] == b[i] by {
        lemma_stable_orders_agree(keys, a, b, i);
    }
    assert(a =~= b);
}

/// The positions of `keys` in ascending order of key; equal keys keep the
/// order in which they stand.
pub fn stable_order(keys: &Vec<u64>) -> (order: Vec<usize>)
    ensures
        is_stable_order(keys@, order@),
{
    let mut order: Vec<usize> = Vec::new();
    let mut i: usize = 0;
    while i < keys.len()
        invariant
            i <= keys@.len(),
            is_stable_order(keys@.take(i as int), order@),
        decreases keys@.len() - i,
    {
        let key = keys[i];
        let mut pos: usize = order.len();
        while pos > 0 && keys[order[pos - 1]] > key
            invariant
                i < keys@.len(),
                key == keys@[i as int],
                pos <= order@.len(),
                is_stable_order(keys@.take(i as int), order@),
                forall|k: int| pos <= k < order@.len() ==> keys@[#[trigger] order@[k] as int] > key,
            decreases pos,
        {
            pos -= 1;
        }
        proof {
            let before = order@;
            let after = before.insert(pos as int, i);
            let shorter = keys@.take(i as int);
            let longer = keys@.take(i + 1);
            assert forall|k: int| 0 <= k < pos implies keys@[#[trigger] before[k] as int] <= key by {
                if k < pos - 1 {
                    assert(shorter[before[k] as int] <= shorter[before[pos - 1] as int]);
                }
            }
            assert forall|a: int, b: int| 0 <= a < b < after.len() implies longer[#[trigger] after[a] as int]
                < longer[#[trigger] after[b] as int] || (longer[after[a] as int] == longer[after[b] as int]
                && after[a] < after[b]) by {
                if a < pos && b > pos {
                    assert(after[a] == before[a] && after[b] == before[b - 1]);
                    assert(shorter[before[a] as int] <= key);
                    assert(shorter[before[b - 1] as int] > key);
                } else if a < pos && b == pos {
                    assert(after[a] == before[a]);
                } else if a < pos && b < pos {
                    assert(after[a] == before[a] && after[b] == before[b]);
                } else if a == pos {
                    assert(after[b] == before[b - 1]);
                } else {
                    assert(after[a] == before[a - 1] && after[b] == before[b - 1]);
                }
            }
        }
        order.insert(pos, i);
        i += 1;
    }
    assert(keys@.take(keys@.len() as int) == keys@);
    order
}

/// The overall scores of a list of resolvers, in order.
pub open spec fn overall_scores(resolvers: Seq<ResolverStats>) -> Seq<u64> {
    resolvers.map_values(|s: ResolverStats| s.overall_score)
}

/// Whether `ranked` is `resolvers` taken in the given order, numbered
/// from 1 and without tie groups.
pub open spec fn is_ranked_by(
    resolvers: Seq<ResolverStats>,
    order: Seq<usize>,
    ranked: Seq<ScoredResolver>,
) -> bool {
    &&& ranked.len() == resolvers.len()
    &&& order.len() == resolvers.len()
    &&& forall|i: int|
        0 <= i < ranked.len() ==> {
            &&& (#[trigger] ranked[i]).rank == i + 1
            &&& ranked[i].stats == resolvers[order[i] as int]
            &&& ranked[i].tie_group is None
        }
}

/// Rank resolvers by overall score, ascending, and say where each came
/// from: `order[i]` is the position in `resolvers` of the resolver that
/// got rank `i + 1`.
pub fn rank_with_order(resolvers: &Vec<ResolverStats>) -> (r: (Vec<ScoredResolver>, Vec<usize>))
    ensures
        is_stable_order(overall_scores(resolvers@), r.1@),
        is_ranked_by(resolvers@, r.1@, r.0@),
        forall|i: int, j: int|
            0 <= i < j < r.0@.len() ==> (#[trigger] r.0@[i]).stats.overall_score <= (
            #[trigger] r.0@[j]).stats.overall_score,
{
    let mut keys: Vec<u64> = Vec::new();
    let mut i: usize = 0;
    while i < resolvers.len()
        invariant
            i <= resolvers@.len(),
            keys@ == overall_scores(resolvers@).take(i as int),
        decreases resolvers@.len() - i,
    {
        keys.push(resolvers[i].overall_score);
        assert(overall_scores(resolvers@).take(i as int).push(resolvers@[i as int].overall_score)
            == overall_scores(resolvers@).take(i + 1));
        i += 1;
    }
    assert(overall_scores(resolvers@).take(resolvers@.len() as int) == overall_scores(resolvers@));
    let order = stable_order(&keys);
    let mut ranked: Vec<ScoredResolver> = Vec::new();
    let mut k: usize = 0;
    while k < order.len()
        invariant
            k <= order@.len(),
            order@.len() == resolvers@.len(),
            keys@ == overall_scores(resolvers@),
            is_stable_order(keys@, order@),
            ranked@.len() == k,
            forall|i: int|
                0 <= i < k ==> {
                    &&& (#[trigger] ranked@[i]).rank == i + 1
                    &&& ranked@[i].stats == resolvers@[order@[i] as int]
                    &&& ranked@[i].tie_group is None
                },
        decreases order@.len() - k,
    {
        let stats = resolvers[order[k]].clone();
        ranked.push(ScoredResolver { rank: k + 1, stats, tie_group: None });
        k += 1;
    }
    proof {
        assert(is_ranked_by(resolvers@, order@, ranked@));
        assert forall|i: int, j: int| 0 <= i < j < ranked@.len() implies (#[trigger] ranked@[i]).stats.overall_score
            <= (#[trigger] ranked@[j]).stats.overall_score by {
            assert(keys@[order@[i] as int] == resolvers@[order@[i] as int].overall_score);
            assert(keys@[order@[j] as int] == resolvers@[order@[j] as int].overall_score);
        }
    }
    (ranked, order)
}

/// Rank resolvers by overall score (average of warm and cold scores),
/// ascending.
///
/// Lower scores are better. Resolvers with equal scores keep the order in
/// which they were given.
pub fn rank_resolvers(resolvers: Vec<ResolverStats>) -> (ranked: Vec<ScoredResolver>)
    ensures
        ranked@.len() == resolvers@.len(),
        forall|i: int| 0 <= i < ranked@.len() ==> (#[trigger] ranked@[i]).rank == i + 1,
        forall|i: int| 0 <= i < ranked@.len() ==> (#[trigger] ranked@[i]).tie_group is None,
        forall|i: int, j: int|
            0 <= i < j < ranked@.len() ==> (#[trigger] ranked@[i]).stats.overall_score <= (
            #[trigger] ranked@[j]).stats.overall_score,
        exists|order: Seq<usize>|
            is_stable_order(overall_scores(resolvers@), order) && is_ranked_by(
                resolvers@,
                order,
                ranked@,
            ),
{
    let (ranked, order) = rank_with_order(&resolvers);
    ranked
}

/// Whether the resolver at `i` and the next one are statistically tied:
/// their scores differ by less than the sum of their uncertainties.
pub open spec fn tied_with_next(ranked: Seq<ScoredResolver>, uncertainties: Seq<u64>, i: int) -> bool {
    &&& 0 <= i
    &&& i + 1 < ranked.len()
    &&& i + 1 < uncertainties.len()
    &&& vstd::math::abs(ranked[i].stats.overall_score - ranked[i + 1].stats.overall_score)
        < uncertainties[i] + uncertainties[i + 1]
}

/// Position of the first member of the tie group that holds position `i`.
pub open spec fn group_first(ranked: Seq<ScoredResolver>, uncertainties: Seq<u64>, i: int) -> int
    decreases i,
{
    if i > 0 && tied_with_next(ranked, uncertainties, i - 1) {
        group_first(ranked, uncertainties, i - 1)
    } else {
        i
    }
}

/// Position of the last member of the tie group that holds position `i`.
pub open spec fn group_last(ranked: Seq<ScoredResolver>, uncertainties: Seq<u64>, i: int) -> int
    decreases ranked.len() - i,
{
    if tied_with_next(ranked, uncertainties, i) {
        group_last(ranked, uncertainties, i + 1)
    } else {
        i
    }
}

/// The label shared by a tie group: the ranks of its first and last
/// member, counted from 1, with a hyphen between them.
pub open spec fn tie_label(first: int, last: int) -> Seq<char> {
    decimal((first + 1) as nat) + seq!['-'] + decimal((last + 1) as nat)
}

/// What tie detection leaves at position `i`: the group's label where the
/// group has two or more members, and otherwise what was there.
pub open spec fn tie_group_settled(
    before: Seq<ScoredResolver>,
    uncertainties: Seq<u64>,
    i: int,
    after: ScoredResolver,
) -> bool {
    let first = group_first(before, uncertainties, i);
    let last = group_last(before, uncertainties, i);
    &&& after.rank == before[i].rank
    &&& after.stats == before[i].stats
    &&& if first < last {
        after.tie_group matches Some(label) && label@ == tie_label(first, last)
    } else {
        after.tie_group == before[i].tie_group
    }
}

/// What tie detection makes of a ranking: nothing changes when there are
/// fewer than two resolvers or the uncertainties do not match them in
/// number; otherwise every position is settled.
pub open spec fn ties_detected(
    before: Seq<ScoredResolver>,
    uncertainties: Seq<u64>,
    after: Seq<ScoredResolver>,
) -> bool {
    &&& after.len() == before.len()
    &&& if before.len() < 2 || uncertainties.len() != before.len() {
        after == before
    } else {
        forall|i: int|
            0 <= i < before.len() ==> tie_group_settled(before, uncertainties, i, #[trigger] after[i])
    }
}

/// Tied neighbours belong to one group: they share its first and its
/// last member, and so its label.
pub proof fn tied_neighbours_share_a_group(ranked: Seq<ScoredResolver>, uncertainties: Seq<u64>, i: int)
    requires
        tied_with_next(ranked, uncertainties, i),
    ensures
        group_first(ranked, uncertainties, i + 1) == group_first(ranked, uncertainties, i),
        group_last(ranked, uncertainties, i + 1) == group_last(ranked, uncertainties, i),
        group_first(ranked, uncertainties, i) < group_last(ranked, uncertainties, i),
{
    lemma_group_bounds(ranked, uncertainties, i);
    lemma_group_bounds(ranked, uncertainties, i + 1);
}

/// A group starts at or before each of its members and ends at or after
/// it.
proof fn lemma_group_bounds(ranked: Seq<ScoredResolver>, uncertainties: Seq<u64>, i: int)
    requires
        0 <= i,
    ensures
        0 <= group_first(ranked, uncertainties, i) <= i,
        i <= group_last(ranked, uncertainties, i),
{
    lemma_group_first_bound(ranked, uncertainties, i);
    lemma_group_last_bound(ranked, uncertainties, i);
}

proof fn lemma_group_first_bound(ranked: Seq<ScoredResolver>, uncertainties: Seq<u64>, i: int)
    requires
        0 <= i,
    ensures
        0 <= group_first(ranked, uncertainties, i) <= i,
    decreases i,
{
    if i > 0 && tied_with_next(ranked, uncertainties, i - 1) {
        lemma_group_first_bound(ranked, uncertainties, i - 1);
    }
}

proof fn lemma_group_last_bound(ranked: Seq<ScoredResolver>, uncertainties: Seq<u64>, i: int)
    requires
        0 <= i,
    ensures
        i <= group_last(ranked, uncertainties, i),
    decreases ranked.len() - i,
{
    if tied_with_next(ranked, uncertainties, i) {
        lemma_group_last_bound(ranked, uncertainties, i + 1);
    }
}

proof fn lemma_group_first(ranked: Seq<ScoredResolver>, uncertainties: Seq<u64>, first: int, i: int)
    requires
        0 <= first <= i,
        first == 0 || !tied_with_next(ranked, uncertainties, first - 1),
        forall|k: int| first <= k < i ==> tied_with_next(ranked, uncertainties, k),
    ensures
        group_first(ranked, uncertainties, i) == first,
    decreases i - first,
{
    if i > first {
        lemma_group_first(ranked, uncertainties, first, i - 1);
    }
}

proof fn lemma_group_last(ranked: Seq<ScoredResolver>, uncertainties: Seq<u64>, i: int, last: int)
    requires
        0 <= i <= last,
        !tied_with_next(ranked, uncertainties, last),
        forall|k: int| i <= k < last ==> tied_with_next(ranked, uncertainties, k),
    ensures
        group_last(ranked, uncertainties, i) == last,
    decreases last - i,
{
    if i < last {
        lemma_group_last(ranked, uncertainties, i + 1, last);
    }
}

/// Tie groups depend on the scores alone.
proof fn lemma_groups_follow_scores(
    a: Seq<ScoredResolver>,
    b: Seq<ScoredResolver>,
    uncertainties: Seq<u64>,
    i: int,
)
    requires
        a.len() == b.len(),
        forall|k: int| 0 <= k < a.len() ==> (#[trigger] a[k]).stats == (#[trigger] b[k]).stats,
        0 <= i,
    ensures
        tied_with_next(a, uncertainties, i) == tied_with_next(b, uncertainties, i),
{
    if i + 1 < a.len() {
        assert(a[i].stats == b[i].stats);
        assert(a[i + 1].stats == b[i + 1].stats);
    }
}

/// Whether two neighbours in rank order are tied.
fn is_tied_with_next(resolvers: &Vec<ScoredResolver>, uncertainties: &[u64], i: usize) -> (r: bool)
    requires
        i + 1 < resolvers@.len(),
        uncertainties@.len() == resolvers@.len(),
    ensures
        r == tied_with_next(resolvers@, uncertainties@, i as int),
{
    let n = resolvers.len();
    let a = resolvers[i].stats.overall_score;
    let b = resolvers[i + 1].stats.overall_score;
    let diff = if a >= b {
        a - b
    } else {
        b - a
    };
    let threshold: u128 = uncertainties[i] as u128 + uncertainties[i + 1] as u128;
    (diff as u128) < threshold
}

/// The label of the tie group that spans two positions.
fn tie_label_string(first: usize, last: usize) -> (r: String)
    requires
        first < last < usize::MAX,
    ensures
        r@ == tie_label(first as int, last as int),
{
    let mut out = String::new();
    push_decimal(&mut out, (first + 1) as u64);
    out.append("-");
    push_decimal(&mut out, (last + 1) as u64);
    proof {
        reveal_strlit("-");
        assert(out@ =~= tie_label(first as int, last as int));
    }
    out
}

/// Detect ties among ranked resolvers based on overlapping uncertainty
/// bands.
///
/// For consecutive pairs: if `|score_a - score_b| < uncertainty_a +
/// uncertainty_b`, they are tied. Runs of tied neighbours form a group and
/// every member of a group of two or more gets the label
/// `"<first rank>-<last rank>"`. Nothing changes when there are fewer than
/// two resolvers or the uncertainties do not match them in number.
pub fn detect_ties(resolvers: &mut Vec<ScoredResolver>, uncertainties: &[u64])
    ensures
        ties_detected(old(resolvers)@, uncertainties@, final(resolvers)@),
{
    let n = resolvers.len();
    if n < 2 || uncertainties.len() != n {
        return ;
    }
    let ghost before = resolvers@;
    let mut i: usize = 0;
    while i < n
        invariant
            i <= n,
            n == before.len(),
            n == uncertainties@.len(),
            resolvers@.len() == n,
            i == 0 || !tied_with_next(before, uncertainties@, i - 1),
            forall|k: int| 0 <= k < n ==> (#[trigger] resolvers@[k]).stats == before[k].stats,
            forall|k: int| 0 <= k < i ==> tie_group_settled(before, uncertainties@, k, #[trigger] resolvers@[k]),
            forall|k: int| i <= k < n ==> #[trigger] resolvers@[k] == before[k],
        decreases n - i,
    {
        let mut j: usize = i;
        while j + 1 < n && is_tied_with_next(resolvers, uncertainties, j)
            invariant
                i <= j < n,
                n == before.len(),
                n == uncertainties@.len(),
                resolvers@.len() == n,
                forall|k: int| 0 <= k < n ==> (#[trigger] resolvers@[k]).stats == before[k].stats,
                forall|k: int| i <= k < j ==> tied_with_next(before, uncertainties@, k),
            decreases n - j,
        {
            proof {
                lemma_groups_follow_scores(resolvers@, before, uncertainties@, j as int);
            }
            j += 1;
        }
        proof {
            lemma_groups_follow_scores(resolvers@, before, uncertainties@, j as int);
            assert(!tied_with_next(before, uncertainties@, j as int));
            assert forall|k: int| i <= k <= j implies group_first(before, uncertainties@, k) == i
                && group_last(before, uncertainties@, k) == j by {
                lemma_group_first(before, uncertainties@, i as int, k);
                lemma_group_last(before, uncertainties@, k, j as int);
            }
        }
        if j > i {
            let label = tie_label_string(i, j);
            let mut m: usize = i;
            while m <= j
                invariant
                    i <= m <= j + 1,
                    i < j < n,
                    n == before.len(),
                    resolvers@.len() == n,
                    label@ == tie_label(i as int, j as int),
                    forall|k: int| i <= k <= j ==> group_first(before, uncertainties@, k) == i
                        && group_last(before, uncertainties@, k) == j,
                    forall|k: int| 0 <= k < n ==> (#[trigger] resolvers@[k]).stats == before[k].stats,
                    forall|k: int|
                        0 <= k < m ==> tie_group_settled(before, uncertainties@, k, #[trigger] resolvers@[k]),
                    forall|k: int| m <= k < n ==> #[trigger] resolvers@[k] == before[k],
                decreases j + 1 - m,
            {
                resolvers[m].tie_group = Some(label.clone());
                m += 1;
            }
        }
        i = j + 1;
    }
}

} // verus!
