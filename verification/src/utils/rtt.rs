//! Summaries of round trip times.

use crate::time::{spec_abs_diff, Duration};
use std::collections::VecDeque;
use vstd::prelude::*;
use vstd::relations::{sorted_by, total_ordering};

verus! {

/// Lost packets out of all packets. An empty history has lost nothing.
#[derive(Clone, Copy, Debug, PartialEq, Eq, Structural)]
pub struct PacketLoss {
    pub lost: usize,
    pub total: usize,
}

/// Summary of a history of round trips.
#[derive(Clone, Copy, Debug, PartialEq, Eq, Structural)]
pub struct RttSummary {
    pub loss: PacketLoss,
    pub avg: Duration,
    /// Mean distance to the average.
    pub stddev: Duration,
    pub p99: Duration,
    pub p90: Duration,
    pub p75: Duration,
}

/// A factor in units of 2^-24: the single precision number that is nearest to 0.99.
pub const P99: u128 = 16_609_444;

/// A factor in units of 2^-24: the single precision number that is nearest to 0.90.
pub const P90: u128 = 15_099_494;

/// A factor in units of 2^-24: the single precision number that is nearest to 0.75.
pub const P75: u128 = 12_582_912;

/// 2^24, the number of steps of a single precision significand.
pub const SIGNIFICAND: u128 = 0x100_0000;

/// The distance between the single precision numbers around the integer `x`.
pub open spec fn ulp(x: nat) -> nat
    decreases x,
{
    if x < SIGNIFICAND {
        1
    } else {
        2 * ulp(x / 2)
    }
}

/// The integer `x`, rounded to single precision: to the nearest such number, and to the one with an
/// even significand where two are equally near.
pub open spec fn round_single(x: nat) -> nat {
    let u = ulp(x);
    let q = x / u;
    let r = x % u;
    if 2 * r < u || (2 * r == u && q % 2 == 0) {
        q * u
    } else {
        (q + 1) * u
    }
}

/// The position of a percentile in `len` sorted samples: `len` times the factor, calculated in
/// single precision and rounded down.
pub open spec fn percentile_index(len: nat, factor: nat) -> nat {
    round_single(round_single(len) * factor) / SIGNIFICAND as nat
}

/// The round trip times of the packets that were not lost.
pub open spec fn samples(history: Seq<Option<Duration>>) -> Seq<u64>
    decreases history.len(),
{
    if history.len() == 0 {
        Seq::empty()
    } else {
        match history.last() {
            Some(d) => samples(history.drop_last()).push(d.nanos),
            None => samples(history.drop_last()),
        }
    }
}

pub open spec fn ascending() -> spec_fn(u64, u64) -> bool {
    |a: u64, b: u64| a <= b
}

/// The round trip times of the packets that were not lost, from fastest to slowest.
pub open spec fn sorted_samples(history: Seq<Option<Duration>>) -> Seq<u64> {
    samples(history).sort_by(ascending())
}

pub open spec fn sum(s: Seq<u64>) -> nat
    decreases s.len(),
{
    if s.len() == 0 {
        0
    } else {
        sum(s.drop_last()) + s.last() as nat
    }
}

/// The sum of the distances to `center`.
pub open spec fn sum_dist(s: Seq<u64>, center: int) -> nat
    decreases s.len(),
{
    if s.len() == 0 {
        0
    } else {
        sum_dist(s.drop_last(), center) + spec_abs_diff(s.last() as int, center)
    }
}

/// The average, rounded down.
pub open spec fn average(s: Seq<u64>) -> nat {
    sum(s) / s.len()
}

impl RttSummary {
    /// Nothing was measured.
    pub open spec fn spec_empty() -> RttSummary {
        RttSummary {
            loss: PacketLoss { lost: 0, total: 0 },
            avg: Duration { nanos: 0 },
            stddev: Duration { nanos: 0 },
            p99: Duration { nanos: 0 },
            p90: Duration { nanos: 0 },
            p75: Duration { nanos: 0 },
        }
    }

    /// Whether this is the summary of `history`.
    pub open spec fn summarizes(&self, history: Seq<Option<Duration>>) -> bool {
        let s = sorted_samples(history);
        let n = s.len();
        &&& self.loss.total == history.len()
        &&& self.loss.lost == history.len() - samples(history).len()
        &&& n == 0 ==> *self == (RttSummary { loss: self.loss, ..Self::spec_empty() })
        &&& n > 0 ==> {
            &&& self.avg.nanos == average(s)
            &&& self.stddev.nanos == sum_dist(s, average(s) as int) / n
            &&& self.p99.nanos == s[percentile_index(n, P99 as nat) as int]
            &&& self.p90.nanos == s[percentile_index(n, P90 as nat) as int]
            &&& self.p75.nanos == s[percentile_index(n, P75 as nat) as int]
        }
    }
}

// ======== Single precision ========

proof fn lemma_ulp(x: nat)
    ensures
        ulp(x) >= 1,
        x < SIGNIFICAND * ulp(x),
        x >= SIGNIFICAND ==> SIGNIFICAND * ulp(x) <= 2 * x,
    decreases x,
{
    if x >= SIGNIFICAND {
        lemma_ulp(x / 2);
    }
}

proof fn lemma_round_bound(x: nat)
    ensures
        SIGNIFICAND * round_single(x) <= (SIGNIFICAND + 1) * x,
        round_single(x) <= 2 * x,
{
    let u = ulp(x);
    lemma_ulp(x);
    let q = x / u;
    let r = x % u;
    vstd::arithmetic::div_mod::lemma_fundamental_div_mod(x as int, u as int);
    assert(u * q + r == x);
    assert(q * u + r == x) by (nonlinear_arith)
        requires
            u * q + r == x,
    ;
    assert((q + 1) * u == q * u + u) by (nonlinear_arith);
    if x < SIGNIFICAND {
        assert(u == 1);
        assert(r == 0);
    }
}

/// A percentile of at least one sample is one of the samples.
pub proof fn law_percentile_in_range(len: nat, factor: nat)
    requires
        len > 0,
        factor <= P99,
    ensures
        percentile_index(len, factor) < len,
{
    let m = round_single(len);
    let r = round_single(m * factor);
    lemma_round_bound(len);
    lemma_round_bound(m * factor);
    assert(r < len * 0x100_0000) by (nonlinear_arith)
        requires
            0x100_0000 * m <= 0x100_0001 * len,
            0x100_0000 * r <= 0x100_0001 * (m * factor),
            0 <= factor <= 16_609_444,
            len > 0,
            m >= 0,
    {
        assert(m * factor <= m * 16_609_444);
        assert(0x100_0000 * r <= 0x100_0001 * (m * 16_609_444));
        assert(0x100_0000 * (0x100_0000 * r) <= 0x100_0001 * 16_609_444 * (0x100_0000 * m));
        assert(0x100_0001 * 16_609_444 * (0x100_0000 * m) <= 0x100_0001 * 16_609_444 * (0x100_0001 * len));
    }
    assert(r / 0x100_0000 < len) by (nonlinear_arith)
        requires
            r < len * 0x100_0000,
            r >= 0,
    ;
}

fn compute_ulp(x: u128) -> (u: u128)
    ensures
        u == ulp(x as nat),
        u <= x + 1,
    decreases x,
{
    if x < SIGNIFICAND {
        1
    } else {
        proof {
            lemma_ulp((x / 2) as nat);
        }
        2 * compute_ulp(x / 2)
    }
}

fn compute_round(x: u128) -> (y: u128)
    requires
        x < 0x1000_0000_0000_0000_0000_0000_0000,
    ensures
        y == round_single(x as nat),
{
    let u: u128 = compute_ulp(x);
    proof {
        lemma_ulp(x as nat);
        lemma_round_bound(x as nat);
    }
    let q: u128 = x / u;
    let r: u128 = x % u;
    proof {
        vstd::arithmetic::div_mod::lemma_fundamental_div_mod(x as int, u as int);
        assert(q * u + r == x) by (nonlinear_arith)
            requires
                u * q + r == x,
        ;
        assert((q + 1) * u == q * u + u) by (nonlinear_arith);
    }
    if 2 * r < u || (2 * r == u && q % 2 == 0) {
        q * u
    } else {
        (q + 1) * u
    }
}

/// The position of a percentile in `len` sorted samples.
pub fn index_of_percentile(len: usize, factor: u128) -> (i: usize)
    requires
        len > 0,
        factor <= P99,
    ensures
        i == percentile_index(len as nat, factor as nat),
        i < len,
{
    proof {
        lemma_round_bound(len as nat);
        law_percentile_in_range(len as nat, factor as nat);
    }
    let m: u128 = compute_round(len as u128);
    assert(m * factor <= 0x2_0000_0000_0000_0000 * 16_609_444) by (nonlinear_arith)
        requires
            m <= 0x2_0000_0000_0000_0000,
            factor <= 16_609_444,
    ;
    let r: u128 = compute_round(m * factor);
    (r / SIGNIFICAND) as usize
}

// ======== Summaries ========

proof fn lemma_samples_step(history: Seq<Option<Duration>>, i: int)
    requires
        0 <= i < history.len(),
    ensures
        samples(history.take(i + 1)) == (match history[i] {
            Some(d) => samples(history.take(i)).push(d.nanos),
            None => samples(history.take(i)),
        }),
{
    assert(history.take(i + 1).drop_last() =~= history.take(i));
}

/// Sorting keeps the number of samples.
pub proof fn lemma_sorted_len(history: Seq<Option<Duration>>)
    ensures
        sorted_samples(history).len() == samples(history).len(),
        samples(history).len() <= history.len(),
    decreases history.len(),
{
    let s = samples(history);
    assert(total_ordering(ascending()));
    s.lemma_sort_by_ensures(ascending());
    vstd::seq_lib::to_multiset_len(s);
    vstd::seq_lib::to_multiset_len(s.sort_by(ascending()));
    if history.len() > 0 {
        lemma_sorted_len(history.drop_last());
    }
}

/// The position at which `x` keeps `sorted` ascending.
fn insert_position(sorted: &Vec<u64>, x: u64) -> (pos: usize)
    requires
        sorted_by(sorted@, ascending()),
    ensures
        pos <= sorted@.len(),
        forall|k: int| 0 <= k < pos ==> sorted@[k] <= x,
        forall|k: int| pos <= k < sorted@.len() ==> x < sorted@[k],
{
    let mut pos: usize = sorted.len();
    while pos > 0 && sorted[pos - 1] > x
        invariant
            pos <= sorted@.len(),
            sorted_by(sorted@, ascending()),
            forall|k: int| pos <= k < sorted@.len() ==> x < sorted@[k],
        decreases pos,
    {
        pos = pos - 1;
    }
    proof {
        if pos > 0 {
            assert forall|k: int| 0 <= k < pos implies sorted@[k] <= x by {
                if k < pos - 1 {
                    assert(ascending()(sorted@[k], sorted@[pos - 1]));
                }
            }
        }
    }
    pos
}

/// A sorted buffer of all valid measurements.
fn collect_sorted(history: &VecDeque<Option<Duration>>) -> (sorted: Vec<u64>)
    ensures
        sorted@ == sorted_samples(history@),
{
    let mut sorted: Vec<u64> = Vec::new();
    let mut i: usize = 0;
    proof {
        assert(samples(history@.take(0)) =~= Seq::<u64>::empty());
        assert(sorted@ =~= Seq::<u64>::empty());
    }
    while i < history.len()
        invariant
            i <= history@.len(),
            sorted_by(sorted@, ascending()),
            sorted@.to_multiset() == samples(history@.take(i as int)).to_multiset(),
        decreases history@.len() - i,
    {
        proof {
            lemma_samples_step(history@, i as int);
        }
        if let Some(d) = history[i] {
            let ghost before = sorted@;
            let pos: usize = insert_position(&sorted, d.nanos);
            sorted.insert(pos, d.nanos);
            proof {
                vstd::seq_lib::to_multiset_insert(before, pos as int, d.nanos);
                vstd::seq_lib::to_multiset_build(samples(history@.take(i as int)), d.nanos);
                assert forall|a: int, b: int| 0 <= a < b < sorted@.len() implies #[trigger]
                ascending()(sorted@[a], sorted@[b]) by {
                    if a < pos && b < pos {
                        assert(ascending()(before[a], before[b]));
                    } else if a > pos {
                        assert(ascending()(before[a - 1], before[b - 1]));
                    } else if a < pos && b > pos {
                        assert(ascending()(before[a], before[b - 1]));
                    }
                }
            }
        }
        i = i + 1;
    }
    proof {
        assert(history@.take(i as int) =~= history@);
        let s = samples(history@);
        assert(total_ordering(ascending()));
        s.lemma_sort_by_ensures(ascending());
        vstd::seq_lib::lemma_sorted_unique(sorted@, s.sort_by(ascending()), ascending());
    }
    sorted
}

proof fn lemma_mean_bound(total: nat, n: nat)
    requires
        n > 0,
        total <= n * u64::MAX,
    ensures
        total / n <= u64::MAX,
{
    assert(total / n <= u64::MAX) by (nonlinear_arith)
        requires
            n > 0,
            total <= n * u64::MAX,
            0 <= total,
    ;
}

/// The average of at least one sample.
fn compute_average(s: &Vec<u64>) -> (avg: u64)
    requires
        0 < s@.len() <= u32::MAX,
    ensures
        avg == average(s@),
{
    let mut total: u128 = 0;
    let mut i: usize = 0;
    while i < s.len()
        invariant
            i <= s@.len() <= u32::MAX,
            total == sum(s@.take(i as int)),
            total <= i * u64::MAX,
        decreases s@.len() - i,
    {
        proof {
            assert(s@.take(i + 1).drop_last() =~= s@.take(i as int));
            assert((i + 1) * u64::MAX == i * u64::MAX + u64::MAX) by (nonlinear_arith);
            assert((i + 1) * u64::MAX <= u32::MAX * u64::MAX) by (nonlinear_arith)
                requires
                    i + 1 <= u32::MAX,
            ;
        }
        total = total + s[i] as u128;
        i = i + 1;
    }
    proof {
        assert(s@.take(i as int) =~= s@);
        lemma_mean_bound(sum(s@), s@.len());
    }
    (total / s.len() as u128) as u64
}

/// The mean distance of at least one sample to `center`.
fn compute_deviation(s: &Vec<u64>, center: u64) -> (dev: u64)
    requires
        0 < s@.len() <= u32::MAX,
    ensures
        dev == sum_dist(s@, center as int) / s@.len(),
{
    let mut total: u128 = 0;
    let mut i: usize = 0;
    while i < s.len()
        invariant
            i <= s@.len() <= u32::MAX,
            total == sum_dist(s@.take(i as int), center as int),
            total <= i * u64::MAX,
        decreases s@.len() - i,
    {
        proof {
            assert(s@.take(i + 1).drop_last() =~= s@.take(i as int));
            assert((i + 1) * u64::MAX == i * u64::MAX + u64::MAX) by (nonlinear_arith);
            assert((i + 1) * u64::MAX <= u32::MAX * u64::MAX) by (nonlinear_arith)
                requires
                    i + 1 <= u32::MAX,
            ;
        }
        let d: Duration = (Duration { nanos: s[i] }).abs_diff(Duration { nanos: center });
        total = total + d.nanos as u128;
        i = i + 1;
    }
    proof {
        assert(s@.take(i as int) =~= s@);
        lemma_mean_bound(sum_dist(s@, center as int), s@.len());
    }
    (total / s.len() as u128) as u64
}

/// Summarizes a history of round trips.
pub fn summarize(history: &VecDeque<Option<Duration>>) -> (r: RttSummary)
    requires
        history@.len() <= u32::MAX,
    ensures
        r.summarizes(history@),
{
    let sorted: Vec<u64> = collect_sorted(history);
    proof {
        lemma_sorted_len(history@);
    }
    let n: usize = sorted.len();
    let loss = PacketLoss { lost: history.len() - n, total: history.len() };
    if n == 0 {
        return RttSummary {
            loss,
            avg: Duration { nanos: 0 },
            stddev: Duration { nanos: 0 },
            p99: Duration { nanos: 0 },
            p90: Duration { nanos: 0 },
            p75: Duration { nanos: 0 },
        };
    }
    let avg: u64 = compute_average(&sorted);
    let stddev: u64 = compute_deviation(&sorted, avg);
    RttSummary {
        loss,
        avg: Duration { nanos: avg },
        stddev: Duration { nanos: stddev },
        p99: Duration { nanos: sorted[index_of_percentile(n, P99)] },
        p90: Duration { nanos: sorted[index_of_percentile(n, P90)] },
        p75: Duration { nanos: sorted[index_of_percentile(n, P75)] },
    }
}

// ======== Laws ========

proof fn lemma_ulp_steps(x: nat, y: nat)
    requires
        x <= y,
    ensures
        ulp(x) == ulp(y) || 2 * ulp(x) <= ulp(y),
    decreases y,
{
    lemma_ulp(y);
    if x >= SIGNIFICAND {
        lemma_ulp_steps(x / 2, y / 2);
    } else if y >= SIGNIFICAND {
        lemma_ulp(y / 2);
    }
}

/// Rounding to single precision keeps the order.
pub proof fn law_round_monotonic(x: nat, y: nat)
    requires
        x <= y,
    ensures
        round_single(x) <= round_single(y),
{
    let u = ulp(x);
    let v = ulp(y);
    lemma_ulp(x);
    lemma_ulp(y);
    lemma_ulp_steps(x, y);
    let q = x / u;
    let p = y / v;
    vstd::arithmetic::div_mod::lemma_fundamental_div_mod(x as int, u as int);
    vstd::arithmetic::div_mod::lemma_fundamental_div_mod(y as int, v as int);
    assert(q * u == u * q) by (nonlinear_arith);
    assert(p * v == v * p) by (nonlinear_arith);
    assert((q + 1) * u == q * u + u) by (nonlinear_arith);
    assert((p + 1) * v == p * v + v) by (nonlinear_arith);
    if u == v {
        assert(q <= p) by {
            vstd::arithmetic::div_mod::lemma_div_is_ordered(x as int, y as int, u as int);
        }
        if q < p {
            assert((q + 1) * u <= p * u) by (nonlinear_arith)
                requires
                    q < p,
                    u >= 1,
            ;
        }
    } else {
        assert(q < SIGNIFICAND) by (nonlinear_arith)
            requires
                u * q <= x,
                x < SIGNIFICAND * u,
                u >= 1,
        ;
        assert((q + 1) * u <= SIGNIFICAND * u) by (nonlinear_arith)
            requires
                q < SIGNIFICAND,
                u >= 1,
        ;
        assert(y >= SIGNIFICAND);
        assert(p + 1 > SIGNIFICAND / 2) by (nonlinear_arith)
            requires
                v * p + y % v == y,
                0 <= y % v < v,
                SIGNIFICAND * v <= 2 * y,
                v >= 1,
                p >= 0,
        ;
        assert(SIGNIFICAND / 2 * (2 * u) <= p * v) by (nonlinear_arith)
            requires
                p >= SIGNIFICAND / 2,
                2 * u <= v,
                u >= 1,
        ;
    }
}

/// A larger factor never selects an earlier sample.
pub proof fn law_percentile_monotonic(len: nat, f: nat, g: nat)
    requires
        f <= g,
    ensures
        percentile_index(len, f) <= percentile_index(len, g),
{
    let m = round_single(len);
    assert(m * f <= m * g) by (nonlinear_arith)
        requires
            f <= g,
            m >= 0,
    ;
    law_round_monotonic(m * f, m * g);
    vstd::arithmetic::div_mod::lemma_div_is_ordered(
        round_single(m * f) as int,
        round_single(m * g) as int,
        SIGNIFICAND as int,
    );
}

/// The percentiles of a summary are ascending.
pub proof fn law_percentiles_ordered(history: Seq<Option<Duration>>, r: RttSummary)
    requires
        r.summarizes(history),
    ensures
        r.p75.nanos <= r.p90.nanos <= r.p99.nanos,
{
    let s = sorted_samples(history);
    if s.len() > 0 {
        assert(total_ordering(ascending()));
        samples(history).lemma_sort_by_ensures(ascending());
        law_percentile_monotonic(s.len(), P75 as nat, P90 as nat);
        law_percentile_monotonic(s.len(), P90 as nat, P99 as nat);
        law_percentile_in_range(s.len(), P99 as nat);
        let a = percentile_index(s.len(), P75 as nat) as int;
        let b = percentile_index(s.len(), P90 as nat) as int;
        let c = percentile_index(s.len(), P99 as nat) as int;
        if a < b {
            assert(ascending()(s[a], s[b]));
        }
        if b < c {
            assert(ascending()(s[b], s[c]));
        }
    }
}

/// A history cannot lose more packets than it holds.
pub proof fn law_loss_bound(history: Seq<Option<Duration>>, r: RttSummary)
    requires
        r.summarizes(history),
    ensures
        r.loss.lost <= r.loss.total,
        r.loss.lost == 0 <==> forall|i: int| 0 <= i < history.len() ==> history[i] is Some,
        r.loss.lost == r.loss.total <==> forall|i: int| 0 <= i < history.len() ==> history[i] is None,
{
    lemma_sample_count(history);
}

proof fn lemma_sample_count(history: Seq<Option<Duration>>)
    ensures
        samples(history).len() <= history.len(),
        samples(history).len() == history.len() <==> forall|i: int|
            0 <= i < history.len() ==> history[i] is Some,
        samples(history).len() == 0 <==> forall|i: int|
            0 <= i < history.len() ==> history[i] is None,
    decreases history.len(),
{
    if history.len() > 0 {
        let init = history.drop_last();
        lemma_sample_count(init);
        let n = history.len() - 1;
        assert(forall|i: int| 0 <= i < n ==> init[i] == history[i]);
        assert(history[n] == history.last());
        if forall|i: int| 0 <= i < init.len() ==> init[i] is Some {
            assert forall|i: int| 0 <= i < n implies history[i] is Some by {
                assert(init[i] is Some);
            }
        }
        if forall|i: int| 0 <= i < init.len() ==> init[i] is None {
            assert forall|i: int| 0 <= i < n implies history[i] is None by {
                assert(init[i] is None);
            }
        }
    }
}

/// The average lies between the fastest and the slowest sample.
pub proof fn law_average_between(history: Seq<Option<Duration>>, r: RttSummary, low: u64, high: u64)
    requires
        r.summarizes(history),
        samples(history).len() > 0,
        forall|i: int| 0 <= i < samples(history).len() ==> low <= #[trigger] samples(history)[i] <= high,
    ensures
        low <= r.avg.nanos <= high,
{
    let t = samples(history);
    let s = sorted_samples(history);
    assert(total_ordering(ascending()));
    t.lemma_sort_by_ensures(ascending());
    lemma_sorted_len(history);
    assert forall|i: int| 0 <= i < s.len() implies low <= #[trigger] s[i] <= high by {
        assert(s.contains(s[i]));
        let k = choose|k: int| 0 <= k < t.len() && t[k] == s[i];
        assert(t[k] == s[i]);
    }
    lemma_sum_between(s, low, high);
    let n = s.len();
    assert(low <= sum(s) / n <= high) by (nonlinear_arith)
        requires
            n > 0,
            low * n <= sum(s) <= high * n,
    ;
}

proof fn lemma_sum_between(s: Seq<u64>, low: u64, high: u64)
    requires
        forall|i: int| 0 <= i < s.len() ==> low <= #[trigger] s[i] <= high,
    ensures
        low * s.len() <= sum(s) <= high * s.len(),
    decreases s.len(),
{
    if s.len() > 0 {
        let init = s.drop_last();
        assert forall|i: int| 0 <= i < init.len() implies low <= #[trigger] init[i] <= high by {
            assert(init[i] == s[i]);
        }
        lemma_sum_between(init, low, high);
        assert(low <= s[s.len() - 1] <= high);
        assert(low * s.len() == low * (s.len() - 1) + low) by (nonlinear_arith);
        assert(high * s.len() == high * (s.len() - 1) + high) by (nonlinear_arith);
    }
}

/// A summary says all there is to say of a history: two summaries of one history are the same.
pub proof fn law_summary_is_unique(history: Seq<Option<Duration>>, r: RttSummary, t: RttSummary)
    requires
        r.summarizes(history),
        t.summarizes(history),
    ensures
        r == t,
{
}

/// The summary of a history: the losses, and of the round trips that were received, in ascending
/// order, the average, the mean distance to it, and three percentiles, which are among them.
pub proof fn law_summary(history: Seq<Option<Duration>>, r: RttSummary)
    requires
        r.summarizes(history),
    ensures
        ({
            let s = sorted_samples(history);
            let n = s.len();
            &&& s.to_multiset() == samples(history).to_multiset()
            &&& forall|i: int, j: int| 0 <= i <= j < n ==> #[trigger] s[i] <= #[trigger] s[j]
            &&& r.loss.total == history.len()
            &&& r.loss.lost == history.len() - n
            &&& n == 0 ==> {
                &&& r.avg.nanos == 0
                &&& r.stddev.nanos == 0
                &&& r.p75.nanos == 0
                &&& r.p90.nanos == 0
                &&& r.p99.nanos == 0
            }
            &&& n > 0 ==> {
                &&& r.avg.nanos == sum(s) / n
                &&& s[0] <= r.avg.nanos <= s[n - 1]
                &&& r.stddev.nanos == sum_dist(s, r.avg.nanos as int) / n
                &&& r.p75.nanos <= r.p90.nanos <= r.p99.nanos
                &&& s.contains(r.p75.nanos)
                &&& s.contains(r.p90.nanos)
                &&& s.contains(r.p99.nanos)
            }
        }),
{
    let t = samples(history);
    let s = sorted_samples(history);
    let n = s.len();
    assert(total_ordering(ascending()));
    t.lemma_sort_by_ensures(ascending());
    lemma_sorted_len(history);
    assert forall|i: int, j: int| 0 <= i <= j < n implies #[trigger] s[i] <= #[trigger] s[j] by {
        if i < j {
            assert(ascending()(s[i], s[j]));
        }
    }
    if n > 0 {
        law_percentiles_ordered(history, r);
        law_percentile_in_range(n, P75 as nat);
        law_percentile_in_range(n, P90 as nat);
        law_percentile_in_range(n, P99 as nat);
        assert(s[percentile_index(n, P75 as nat) as int] == r.p75.nanos);
        assert forall|i: int| 0 <= i < t.len() implies s[0] <= #[trigger] t[i] <= s[n - 1] by {
            assert(t.to_multiset().count(t[i]) > 0) by {
                t.to_multiset_ensures();
                assert(t.contains(t[i]));
            }
            s.to_multiset_ensures();
            assert(s.contains(t[i]));
            let k = choose|k: int| 0 <= k < s.len() && s[k] == t[i];
            assert(s[0] <= s[k] <= s[n - 1]);
        }
        law_average_between(history, r, s[0], s[n - 1]);
    }
}

// ======== The measured times ========

/// How many packets were answered.
pub open spec fn answered(history: Seq<Option<Duration>>) -> nat {
    history.filter(|o: Option<Duration>| o is Some).len()
}

/// All measured times together, in nanoseconds.
pub open spec fn total_time(history: Seq<Option<Duration>>) -> int {
    history.fold_left(
        0int,
        |t: int, o: Option<Duration>|
            match o {
                Some(d) => t + d.nanos,
                None => t,
            },
    )
}

/// How far all measured times together are away from `center`.
pub open spec fn total_distance(history: Seq<Option<Duration>>, center: int) -> int {
    history.fold_left(
        0int,
        |t: int, o: Option<Duration>|
            match o {
                Some(d) => t + if d.nanos >= center {
                    d.nanos - center
                } else {
                    center - d.nanos
                },
                None => t,
            },
    )
}

/// What a summary says of the measured times: it counts the packets without an answer, the average
/// is the total time divided by the number of answers, and the spread is the total distance from
/// the average divided by that number, both rounded down. The percentiles are measured times.
pub proof fn law_summary_of_times(history: Seq<Option<Duration>>, r: RttSummary)
    requires
        r.summarizes(history),
    ensures
        r.loss.total == history.len(),
        r.loss.lost == history.len() - answered(history),
        answered(history) == 0 ==> r.avg.nanos == 0 && r.stddev.nanos == 0 && r.p75.nanos == 0
            && r.p90.nanos == 0 && r.p99.nanos == 0,
        answered(history) > 0 ==> {
            let n = answered(history) as int;
            &&& r.avg.nanos * n <= total_time(history) < (r.avg.nanos + 1) * n
            &&& r.stddev.nanos * n <= total_distance(history, r.avg.nanos as int) < (r.stddev.nanos
                + 1) * n
            &&& history.contains(Some(r.p75))
            &&& history.contains(Some(r.p90))
            &&& history.contains(Some(r.p99))
        },
{
    law_summary(history, r);
    let t = samples(history);
    let s = sorted_samples(history);
    let n = s.len() as int;
    lemma_sorted_len(history);
    lemma_times(history, r.avg.nanos as int);
    lemma_sum_of_same(t, s, r.avg.nanos as int);
    if n > 0 {
        lemma_quotient(sum(s) as int, n);
        lemma_quotient(sum_dist(s, r.avg.nanos as int) as int, n);
        lemma_is_sample(history, r.p75.nanos);
        lemma_is_sample(history, r.p90.nanos);
        lemma_is_sample(history, r.p99.nanos);
    }
}

proof fn lemma_quotient(x: int, n: int)
    requires
        n > 0,
        x >= 0,
    ensures
        (x / n) * n <= x < (x / n + 1) * n,
{
    vstd::arithmetic::div_mod::lemma_fundamental_div_mod(x, n);
    assert((x / n) * n == n * (x / n)) by (nonlinear_arith);
    assert((x / n + 1) * n == (x / n) * n + n) by (nonlinear_arith);
}

proof fn lemma_times(history: Seq<Option<Duration>>, center: int)
    ensures
        samples(history).len() == answered(history),
        sum(samples(history)) == total_time(history),
        sum_dist(samples(history), center) == total_distance(history, center),
    decreases history.len(),
{
    reveal(Seq::filter);
    if history.len() > 0 {
        let init = history.drop_last();
        lemma_times(init, center);
        if let Some(d) = history.last() {
            assert(samples(history).drop_last() =~= samples(init));
        }
    }
}

proof fn lemma_is_sample(history: Seq<Option<Duration>>, nanos: u64)
    requires
        sorted_samples(history).contains(nanos),
    ensures
        history.contains(Some(Duration { nanos })),
{
    let t = samples(history);
    let s = sorted_samples(history);
    assert(total_ordering(ascending()));
    t.lemma_sort_by_ensures(ascending());
    t.to_multiset_ensures();
    s.to_multiset_ensures();
    assert(s.to_multiset().count(nanos) > 0);
    assert(t.contains(nanos));
    lemma_samples_occur(history, nanos);
}

proof fn lemma_samples_occur(history: Seq<Option<Duration>>, nanos: u64)
    requires
        samples(history).contains(nanos),
    ensures
        history.contains(Some(Duration { nanos })),
    decreases history.len(),
{
    let t = samples(history);
    let k = choose|k: int| 0 <= k < t.len() && t[k] == nanos;
    if history.len() > 0 {
        let init = history.drop_last();
        if history.last() is Some && k == t.len() - 1 {
            assert(history[history.len() - 1] == Some(Duration { nanos }));
        } else {
            assert(samples(init)[k] == nanos);
            lemma_samples_occur(init, nanos);
            let j = choose|j: int| 0 <= j < init.len() && init[j] == Some(Duration { nanos });
            assert(history[j] == Some(Duration { nanos }));
        }
    }
}

/// The sums do not depend on the order.
proof fn lemma_sum_of_same(t: Seq<u64>, s: Seq<u64>, center: int)
    requires
        t.to_multiset() == s.to_multiset(),
    ensures
        sum(t) == sum(s),
        sum_dist(t, center) == sum_dist(s, center),
{
    let f = |a: int, x: u64| a + x;
    let g = |a: int, x: u64| a + spec_abs_diff(x as int, center);
    lemma_sum_is_fold(t, center);
    lemma_sum_is_fold(s, center);
    assert(vstd::seq_lib::commutative_foldl(f));
    assert(vstd::seq_lib::commutative_foldl(g));
    vstd::seq_lib::lemma_fold_left_permutation(t, s, f, 0);
    vstd::seq_lib::lemma_fold_left_permutation(t, s, g, 0);
}

proof fn lemma_sum_is_fold(s: Seq<u64>, center: int)
    ensures
        sum(s) == s.fold_left(0int, |a: int, x: u64| a + x),
        sum_dist(s, center) == s.fold_left(
            0int,
            |a: int, x: u64| a + spec_abs_diff(x as int, center),
        ),
    decreases s.len(),
{
    if s.len() > 0 {
        lemma_sum_is_fold(s.drop_last(), center);
    }
}

/// Where the percentiles stand: of up to 100000 samples in ascending order, at least 99, 90 and 75
/// percent stand up to and with the percentile, and no more than that in front of it, but for the
/// rounding of the calculation.
pub proof fn law_percentile_position(n: nat)
    requires
        0 < n <= 100_000,
    ensures
        100 * (percentile_index(n, P99 as nat) + 1) >= 99 * n,
        100 * percentile_index(n, P99 as nat) <= 99 * n + 2,
        10 * (percentile_index(n, P90 as nat) + 1) >= 9 * n,
        10 * percentile_index(n, P90 as nat) <= 9 * n,
        4 * (percentile_index(n, P75 as nat) + 1) >= 3 * n,
        4 * percentile_index(n, P75 as nat) <= 3 * n,
{
    assert(ulp(n) == 1);
    assert(round_single(n) == n);
    lemma_round_near(n * P99 as nat);
    lemma_round_near(n * P90 as nat);
    lemma_round_near(n * P75 as nat);
}

proof fn lemma_round_near(x: nat)
    ensures
        SIGNIFICAND * round_single(x) <= (SIGNIFICAND + 1) * x,
        SIGNIFICAND * round_single(x) >= (SIGNIFICAND - 1) * x,
{
    lemma_round_bound(x);
    let u = ulp(x);
    lemma_ulp(x);
    vstd::arithmetic::div_mod::lemma_fundamental_div_mod(x as int, u as int);
    let q = x / u;
    assert(q * u == u * q) by (nonlinear_arith);
    assert((q + 1) * u == q * u + u) by (nonlinear_arith);
}

} // verus!
