//! What all targets and resolvers together show.
use vstd::prelude::*;
use crate::app::{
    elapsed_secs, lost_of, secs_between, total_of, App, AppV,
};
use crate::dns::{
    larger, larger_of, law_matrix_takes_the_largest, matrix_means, matrix_p90, worst_last,
};
use crate::exact::{mean, mean_of};
use crate::probe::{max_nat, ProbeV, BASELINE_MIN};
use crate::state::LinkState;
use crate::stats::{
    lemma_stat_bound, median, median_of, percentile_of, present, present_values, stat_zero, LatStat,
    Ratio,
};
use crate::text::Double;
use crate::time::{Duration, Instant};

verus! {

/// The parts of a point that the score is counted in.
pub const POINT: u64 = 1_000_000_000;

/// The points of a perfect link, in parts.
pub const FULL_SCORE: u64 = 100_000_000_000;

/// The most points that a degraded link can have, in parts.
pub const DEGRADED_SCORE: u64 = 55_000_000_000;

// ------------------------------------------------------------------- targets

/// The latest jitter of a target.
pub open spec fn latest_jitter(p: ProbeV) -> Option<u64> {
    if p.jitter_ring.items.len() == 0 {
        None
    } else {
        p.jitter_ring.items.last()
    }
}

/// The latest round trips of the targets that answered.
pub open spec fn last_values(ps: Seq<ProbeV>) -> Seq<u64> {
    present(Seq::new(ps.len(), |i: int| ps[i].last_value))
}

/// The latest jitters of the targets that have one.
pub open spec fn last_jitters(ps: Seq<ProbeV>) -> Seq<u64> {
    present(Seq::new(ps.len(), |i: int| latest_jitter(ps[i])))
}

/// What nine of ten round trips of a target stay below, once enough are known.
pub open spec fn latency_p90(p: ProbeV) -> Option<u64> {
    if p.baseline.latencies.len() >= BASELINE_MIN {
        percentile_of(p.baseline.latencies, 90)
    } else {
        None
    }
}

/// What nine of ten jitters of a target stay below, once enough are known.
pub open spec fn jitter_p90(p: ProbeV) -> Option<u64> {
    if p.baseline.jitters.len() >= BASELINE_MIN {
        percentile_of(p.baseline.jitters, 90)
    } else {
        None
    }
}

/// The highest [`latency_p90`] of the targets.
pub open spec fn pooled_latency_p90(ps: Seq<ProbeV>) -> Option<u64>
    decreases ps.len(),
{
    if ps.len() == 0 {
        None
    } else {
        larger(pooled_latency_p90(ps.drop_last()), latency_p90(ps.last()))
    }
}

/// The highest [`jitter_p90`] of the targets.
pub open spec fn pooled_jitter_p90(ps: Seq<ProbeV>) -> Option<u64>
    decreases ps.len(),
{
    if ps.len() == 0 {
        None
    } else {
        larger(pooled_jitter_p90(ps.drop_last()), jitter_p90(ps.last()))
    }
}

/// Two statistics as one. The extremes of the second count even when it is empty,
/// unless the first is.
pub open spec fn merged(a: LatStat, b: LatStat) -> LatStat {
    LatStat {
        count: (a.count + b.count) as u64,
        sum: (a.sum + b.sum) as u128,
        min: if a.count == 0 || b.min < a.min {
            b.min
        } else {
            a.min
        },
        max: if a.count == 0 || b.max > a.max {
            b.max
        } else {
            a.max
        },
        last: None,
    }
}

/// The statistics of all targets as one.
pub open spec fn pooled_stat(ps: Seq<ProbeV>) -> LatStat
    decreases ps.len(),
{
    if ps.len() == 0 {
        stat_zero()
    } else {
        merged(pooled_stat(ps.drop_last()), ps.last().stat)
    }
}

/// `factor` times a learned value, but at least `floor`.
pub open spec fn threshold(p90: Option<u64>, factor: nat, floor: nat) -> nat {
    match p90 {
        Some(v) => max_nat(factor * v as nat, floor),
        None => floor,
    }
}

/// A share in percent, exactly; `none` where there is nothing to share.
pub open spec fn percent(part: nat, whole: nat, none: nat) -> Ratio {
    if whole == 0 {
        Ratio { num: none as u128, den: 1 }
    } else {
        Ratio { num: (part * 100) as u128, den: whole as u128 }
    }
}

/// Points taken off for a value above its threshold: `factor` per nanosecond,
/// `cap` at most.
pub open spec fn penalty(value: nat, threshold: nat, factor: nat, cap: nat) -> nat {
    if value <= threshold {
        0
    } else if (value - threshold) * factor < cap {
        ((value - threshold) * factor) as nat
    } else {
        cap
    }
}

pub open spec fn or_zero(v: Option<u64>) -> nat {
    match v {
        Some(x) => x as nat,
        None => 0,
    }
}

impl AppV {
    /// The median of the latest round trips.
    pub open spec fn last_value(self) -> Option<u64> {
        median_of(last_values(self.primaries))
    }

    /// The median of the latest jitters.
    pub open spec fn jitter(self) -> Option<u64> {
        median_of(last_jitters(self.primaries))
    }

    /// The share of lost probes in percent.
    pub open spec fn loss(self) -> Ratio {
        percent(lost_of(self.primaries), total_of(self.primaries), 0)
    }

    /// The latency that is too high: the floor, or twice what is usual.
    pub open spec fn lat_warn(self) -> nat {
        threshold(pooled_latency_p90(self.primaries), 2, self.cfg.latency_warn_ns as nat)
    }

    /// The latency that is far too high: the floor, or four times what is usual.
    pub open spec fn lat_bad(self) -> nat {
        threshold(pooled_latency_p90(self.primaries), 4, self.cfg.latency_bad_ns as nat)
    }

    /// Twice the jitter that is too high: that is the floor, or two and a half times
    /// the usual.
    pub open spec fn jit_warn_twice(self) -> nat {
        threshold(pooled_jitter_p90(self.primaries), 5, 2 * self.cfg.jitter_warn_ns as nat)
    }

    /// The answer time that is too high: the floor, or twice what is usual.
    pub open spec fn dns_warn(self) -> nat {
        threshold(matrix_p90(self.dns.cells), 2, self.cfg.dns_warn_ns as nat)
    }

    /// The answer time that is far too high: the floor, or four times the usual.
    pub open spec fn dns_bad(self) -> nat {
        threshold(matrix_p90(self.dns.cells), 4, self.cfg.dns_bad_ns as nat)
    }

    /// The slowest latest answer of the system's resolver.
    pub open spec fn resolver_worst(self) -> Option<u64> {
        if self.dns.cells.len() == 0 {
            None
        } else {
            worst_last(self.dns.cells[0])
        }
    }

    /// The mean of the means of all cells, in milliseconds.
    pub open spec fn dns_mean(self) -> Double {
        mean_of(matrix_means(self.dns.cells))
    }

    /// What the points are shared out over: the probes that were sent, or one.
    pub open spec fn shares(self) -> nat {
        if total_of(self.primaries) == 0 {
            1
        } else {
            total_of(self.primaries)
        }
    }

    /// Points taken off for loss, times the shares: one for each percent, forty at
    /// most.
    pub open spec fn loss_penalty(self) -> nat {
        if lost_of(self.primaries) * 100 < total_of(self.primaries) * 40 {
            lost_of(self.primaries) * FULL_SCORE as nat
        } else {
            total_of(self.primaries) * 40_000_000_000
        }
    }

    /// The points of a link that is not down, times the shares, before its state is
    /// weighed.
    pub open spec fn raw_score(self) -> int {
        (FULL_SCORE - penalty(or_zero(self.last_value()), self.lat_warn(), 100, 30_000_000_000)
            - penalty(2 * or_zero(self.jitter()), self.jit_warn_twice(), 100, 20_000_000_000)
            - penalty(or_zero(self.resolver_worst()), self.dns_warn(), 100, 10_000_000_000))
            * self.shares() - self.loss_penalty()
    }

    /// The quality of the link in points, from 0 to 100: nothing for one that is
    /// down, little more than half for a degraded one.
    pub open spec fn quality(self) -> Ratio {
        Ratio {
            num: (if self.state == LinkState::Down {
                0
            } else if self.state == LinkState::Degraded && self.raw_score() > DEGRADED_SCORE
                * self.shares() {
                DEGRADED_SCORE * self.shares()
            } else {
                self.raw_score()
            }) as u128,
            den: (POINT * self.shares()) as u128,
        }
    }
}

proof fn lemma_total_take(ps: Seq<ProbeV>, k: int)
    requires
        0 <= k <= ps.len(),
    ensures
        total_of(ps.take(k)) <= total_of(ps),
    decreases ps.len(),
{
    if k < ps.len() {
        assert(ps.drop_last().take(k) =~= ps.take(k));
        lemma_total_take(ps.drop_last(), k);
    } else {
        assert(ps.take(k) =~= ps);
    }
}

/// No more probes are lost than were sent, and no more answered.
pub proof fn law_lost_at_most_total(ps: Seq<ProbeV>)
    requires
        forall|i: int| 0 <= i < ps.len() ==> (#[trigger] ps[i]).wf(),
    ensures
        lost_of(ps) <= total_of(ps),
    decreases ps.len(),
{
    if ps.len() > 0 {
        assert(ps.last().wf());
        law_lost_at_most_total(ps.drop_last());
    }
}

proof fn lemma_merged(a: LatStat, b: LatStat)
    requires
        a.wf(),
        b.wf(),
        a.count + b.count <= u64::MAX,
    ensures
        merged(a, b).wf(),
        a.sum + b.sum <= u128::MAX,
{
    let m = merged(a, b);
    assert(a.count * a.max <= u64::MAX * u64::MAX && b.count * b.max <= u64::MAX * u64::MAX
        && (a.count * a.max + b.count * b.max) <= u64::MAX * u64::MAX) by (nonlinear_arith)
        requires
            a.count + b.count <= u64::MAX,
            0 <= a.max <= u64::MAX,
            0 <= b.max <= u64::MAX,
            a.count >= 0,
            b.count >= 0,
    ;
    if a.count == 0 {
        assert(0 * a.max == 0);
        assert(a.sum == 0);
    } else {
        assert(m.count * m.min <= m.sum <= m.count * m.max) by (nonlinear_arith)
            requires
                m.count == a.count + b.count,
                m.sum == a.sum + b.sum,
                m.min <= a.min,
                m.min <= b.min,
                m.max >= a.max,
                m.max >= b.max,
                a.count >= 0,
                b.count >= 0,
                a.count * a.min <= a.sum <= a.count * a.max,
                b.count * b.min <= b.sum <= b.count * b.max,
        ;
    }
}

/// The pooled statistics are sound: the mean lies between the extremes.
pub proof fn law_pooled_stat(ps: Seq<ProbeV>)
    requires
        forall|i: int| 0 <= i < ps.len() ==> (#[trigger] ps[i]).wf(),
        total_of(ps) <= u64::MAX,
    ensures
        pooled_stat(ps).wf(),
        pooled_stat(ps).count <= total_of(ps),
        pooled_stat(ps).last is None,
    decreases ps.len(),
{
    if ps.len() > 0 {
        assert(ps.last().wf());
        law_pooled_stat(ps.drop_last());
        lemma_merged(pooled_stat(ps.drop_last()), ps.last().stat);
    }
}

/// The score of a link lies between nothing and a hundred points.
pub proof fn law_score_range(a: AppV)
    requires
        total_of(a.primaries) <= u64::MAX,
        lost_of(a.primaries) <= total_of(a.primaries),
    ensures
        a.quality().den > 0,
        a.quality().num <= 100 * a.quality().den,
        a.state == LinkState::Down ==> a.quality().num == 0,
        a.state == LinkState::Degraded ==> a.quality().num <= 55 * a.quality().den,
{
    lemma_raw_score(a);
}

proof fn lemma_raw_score(a: AppV)
    requires
        total_of(a.primaries) <= u64::MAX,
        lost_of(a.primaries) <= total_of(a.primaries),
    ensures
        0 <= a.raw_score() <= FULL_SCORE * a.shares(),
        0 < a.shares() <= u64::MAX,
        a.loss_penalty() <= 40_000_000_000 * a.shares(),
        FULL_SCORE * a.shares() <= FULL_SCORE * u64::MAX,
        a.quality().den == POINT * a.shares(),
        a.quality().num == (if a.state == LinkState::Down {
            0
        } else if a.state == LinkState::Degraded && a.raw_score() > DEGRADED_SCORE * a.shares() {
            DEGRADED_SCORE * a.shares()
        } else {
            a.raw_score()
        }),
{
    let n = a.shares();
    let left = FULL_SCORE - penalty(
        or_zero(a.last_value()),
        a.lat_warn(),
        100,
        30_000_000_000,
    ) - penalty(2 * or_zero(a.jitter()), a.jit_warn_twice(), 100, 20_000_000_000) - penalty(
        or_zero(a.resolver_worst()),
        a.dns_warn(),
        100,
        10_000_000_000,
    );
    assert(40_000_000_000 * n <= left * n <= FULL_SCORE * n) by (nonlinear_arith)
        requires
            40_000_000_000 <= left <= FULL_SCORE,
    ;
    assert(FULL_SCORE * n <= FULL_SCORE * u64::MAX) by (nonlinear_arith)
        requires
            n <= u64::MAX,
    ;
}

/// `factor` times the value, but at least `floor`.
fn scaled(p90: Option<u64>, factor: u128, floor: u128) -> (r: u128)
    requires
        factor <= 8,
        floor <= 2 * u64::MAX,
    ensures
        r == threshold(p90, factor as nat, floor as nat),
        r <= 8 * u64::MAX,
{
    match p90 {
        Some(v) => {
            proof {
                assert(factor * v <= 8 * u64::MAX) by (nonlinear_arith)
                    requires
                        factor <= 8,
                        v <= u64::MAX,
                ;
            }
            let t: u128 = factor * (v as u128);
            if t >= floor {
                t
            } else {
                floor
            }
        },
        None => floor,
    }
}

fn points_off(value: u128, threshold: u128, cap: u64) -> (r: u64)
    requires
        value <= 2 * u64::MAX,
    ensures
        r == penalty(value as nat, threshold as nat, 100, cap as nat),
        r <= cap,
{
    if value <= threshold {
        0
    } else {
        let off: u128 = (value - threshold) * 100;
        if off < cap as u128 {
            off as u64
        } else {
            cap
        }
    }
}

fn zero_or(v: Option<u64>) -> (r: u128)
    ensures
        r == or_zero(v),
        r <= u64::MAX,
{
    match v {
        Some(x) => x as u128,
        None => 0,
    }
}

/// A share in percent.
pub fn percent_of(part: u64, whole: u64, none: u64) -> (r: Ratio)
    ensures
        r == percent(part as nat, whole as nat, none as nat),
{
    if whole == 0 {
        Ratio { num: none as u128, den: 1 }
    } else {
        Ratio { num: (part as u128) * 100, den: whole as u128 }
    }
}

impl App {
    /// Probes of all targets together.
    pub fn pooled_total(&self) -> (r: u64)
        requires
            self.wf(),
        ensures
            r == total_of(self@.primaries),
    {
        let mut n: u64 = 0;
        let mut i: usize = 0;
        let ghost ps = self@.primaries;
        while i < self.primaries.len()
            invariant
                i <= self.primaries.len(),
                ps == self@.primaries,
                total_of(ps) <= u64::MAX,
                n == total_of(ps.take(i as int)),
            decreases self.primaries.len() - i,
        {
            proof {
                assert(ps.take(i + 1).drop_last() =~= ps.take(i as int));
                lemma_total_take(ps, i + 1);
            }
            n = n + self.primaries[i].total;
            i = i + 1;
        }
        proof {
            assert(ps.take(i as int) =~= ps);
        }
        n
    }

    /// Lost probes of all targets together.
    pub fn pooled_lost(&self) -> (r: u64)
        requires
            self.wf(),
        ensures
            r == lost_of(self@.primaries),
            r <= total_of(self@.primaries),
    {
        let mut n: u64 = 0;
        let mut i: usize = 0;
        let ghost ps = self@.primaries;
        while i < self.primaries.len()
            invariant
                i <= self.primaries.len(),
                ps == self@.primaries,
                self.wf(),
                n == lost_of(ps.take(i as int)),
            decreases self.primaries.len() - i,
        {
            proof {
                assert(ps.take(i + 1).drop_last() =~= ps.take(i as int));
                lemma_total_take(ps, i + 1);
                law_lost_at_most_total(ps.take(i + 1));
            }
            n = n + self.primaries[i].lost;
            i = i + 1;
        }
        proof {
            assert(ps.take(i as int) =~= ps);
            law_lost_at_most_total(ps);
        }
        n
    }

    /// The share of lost probes in percent.
    pub fn pooled_loss_pct(&self) -> (r: Ratio)
        requires
            self.wf(),
        ensures
            r == self@.loss(),
    {
        percent_of(self.pooled_lost(), self.pooled_total(), 0)
    }

    pub fn loss_pct(&self) -> (r: Ratio)
        requires
            self.wf(),
        ensures
            r == self@.loss(),
    {
        self.pooled_loss_pct()
    }

    /// What nine of ten round trips and jitters stay below, on the slowest target.
    pub fn pooled_p90s(&self) -> (r: (Option<u64>, Option<u64>))
        ensures
            r.0 == pooled_latency_p90(self@.primaries),
            r.1 == pooled_jitter_p90(self@.primaries),
    {
        let mut lat: Option<u64> = None;
        let mut jit: Option<u64> = None;
        let mut i: usize = 0;
        let ghost ps = self@.primaries;
        while i < self.primaries.len()
            invariant
                i <= self.primaries.len(),
                ps == self@.primaries,
                lat == pooled_latency_p90(ps.take(i as int)),
                jit == pooled_jitter_p90(ps.take(i as int)),
            decreases self.primaries.len() - i,
        {
            proof {
                assert(ps.take(i + 1).drop_last() =~= ps.take(i as int));
            }
            if self.primaries[i].baseline.latency_len() >= BASELINE_MIN {
                lat = larger_of(lat, self.primaries[i].baseline.lat_p90());
            }
            if self.primaries[i].baseline.jitter_len() >= BASELINE_MIN {
                jit = larger_of(jit, self.primaries[i].baseline.jit_p90());
            }
            i = i + 1;
        }
        proof {
            assert(ps.take(i as int) =~= ps);
        }
        (lat, jit)
    }

    pub fn lat_warn_ms(&self) -> (r: Duration)
        ensures
            r.ns == self@.lat_warn(),
    {
        let (lat, _jit) = self.pooled_p90s();
        Duration { ns: scaled(lat, 2, self.cfg.latency_warn_ns as u128) }
    }

    pub fn lat_bad_ms(&self) -> (r: Duration)
        ensures
            r.ns == self@.lat_bad(),
    {
        let (lat, _jit) = self.pooled_p90s();
        Duration { ns: scaled(lat, 4, self.cfg.latency_bad_ns as u128) }
    }

    /// The jitter that is too high, in nanoseconds.
    pub fn jit_warn_ms(&self) -> (r: Ratio)
        ensures
            r.num == self@.jit_warn_twice(),
            r.den == 2,
    {
        let (_lat, jit) = self.pooled_p90s();
        Ratio { num: scaled(jit, 5, 2 * (self.cfg.jitter_warn_ns as u128)), den: 2 }
    }

    pub fn dns_warn_ms(&self) -> (r: Duration)
        ensures
            r.ns == self@.dns_warn(),
    {
        Duration { ns: scaled(self.dns.p90(), 2, self.cfg.dns_warn_ns as u128) }
    }

    pub fn dns_bad_ms(&self) -> (r: Duration)
        ensures
            r.ns == self@.dns_bad(),
    {
        Duration { ns: scaled(self.dns.p90(), 4, self.cfg.dns_bad_ns as u128) }
    }

    /// The median of the latest round trips.
    pub fn last_value_view(&self) -> (r: Option<u64>)
        ensures
            r == self@.last_value(),
    {
        let mut vals: Vec<Option<u64>> = Vec::new();
        let mut i: usize = 0;
        while i < self.primaries.len()
            invariant
                i <= self.primaries.len(),
                vals@.len() == i,
                forall|k: int| 0 <= k < i ==> #[trigger] vals@[k] == self@.primaries[k].last_value,
            decreases self.primaries.len() - i,
        {
            vals.push(self.primaries[i].last_value);
            i = i + 1;
        }
        proof {
            assert(vals@ =~= Seq::new(
                self@.primaries.len(),
                |i: int| self@.primaries[i].last_value,
            ));
        }
        median(&present_values(&vals))
    }

    /// The median of the latest jitters.
    pub fn jitter_view(&self) -> (r: Option<u64>)
        ensures
            r == self@.jitter(),
    {
        let mut vals: Vec<Option<u64>> = Vec::new();
        let mut i: usize = 0;
        while i < self.primaries.len()
            invariant
                i <= self.primaries.len(),
                vals@.len() == i,
                forall|k: int|
                    0 <= k < i ==> #[trigger] vals@[k] == latest_jitter(self@.primaries[k]),
            decreases self.primaries.len() - i,
        {
            let n: usize = self.primaries[i].jitter_ring.buf.len();
            vals.push(
                if n == 0 {
                    None
                } else {
                    self.primaries[i].jitter_ring.buf[n - 1]
                },
            );
            i = i + 1;
        }
        proof {
            assert(vals@ =~= Seq::new(
                self@.primaries.len(),
                |i: int| latest_jitter(self@.primaries[i]),
            ));
        }
        median(&present_values(&vals))
    }

    /// The statistics of all targets as one; it has no latest value.
    pub fn pooled_ping_stat(&self) -> (r: LatStat)
        requires
            self.wf(),
        ensures
            r == pooled_stat(self@.primaries),
            r.wf(),
            r.last is None,
    {
        let mut out = LatStat::default();
        let mut i: usize = 0;
        let ghost ps = self@.primaries;
        while i < self.primaries.len()
            invariant
                i <= self.primaries.len(),
                ps == self@.primaries,
                self.wf(),
                out == pooled_stat(ps.take(i as int)),
            decreases self.primaries.len() - i,
        {
            proof {
                assert(ps.take(i + 1).drop_last() =~= ps.take(i as int));
                lemma_total_take(ps, i as int);
                lemma_total_take(ps, i + 1);
                law_pooled_stat(ps.take(i as int));
                assert(ps[i as int].wf());
                lemma_merged(out, ps[i as int].stat);
            }
            let s = self.primaries[i].stat;
            let first = out.count == 0;
            out = LatStat {
                count: out.count + s.count,
                sum: out.sum + s.sum,
                min: if first || s.min < out.min {
                    s.min
                } else {
                    out.min
                },
                max: if first || s.max > out.max {
                    s.max
                } else {
                    out.max
                },
                last: None,
            };
            i = i + 1;
        }
        proof {
            assert(ps.take(i as int) =~= ps);
            law_pooled_stat(ps);
        }
        out
    }

    /// The slowest latest answer of the system's resolver.
    pub fn system_resolver_worst(&self) -> (r: Option<u64>)
        ensures
            r == self@.resolver_worst(),
    {
        self.dns.first_row_worst()
    }

    /// The mean of the means of all cells, in milliseconds.
    pub fn dns_avg(&self) -> (r: Double)
        requires
            self.wf(),
        ensures
            r == self@.dns_mean(),
    {
        let means = self.dns.means();
        mean(&means)
    }

    /// The quality of the link, from 0 to 100 points.
    pub fn score(&self) -> (r: Ratio)
        requires
            self.wf(),
        ensures
            r == self@.quality(),
            0 < r.den <= POINT * u64::MAX,
            r.num <= 100 * r.den,
    {
        let total: u64 = self.pooled_total();
        let lost: u64 = self.pooled_lost();
        let shares: u128 = if total == 0 {
            1
        } else {
            total as u128
        };
        proof {
            lemma_raw_score(self@);
            law_score_range(self@);
        }
        if self.state == LinkState::Down {
            return Ratio { num: 0, den: POINT as u128 * shares };
        }
        let lat = points_off(zero_or(self.last_value_view()), self.lat_warn_ms().ns, 30_000_000_000);
        let jit = points_off(
            2 * zero_or(self.jitter_view()),
            self.jit_warn_ms().num,
            20_000_000_000,
        );
        let dns = points_off(
            zero_or(self.system_resolver_worst()),
            self.dns_warn_ms().ns,
            10_000_000_000,
        );
        let loss: u128 = if (lost as u128) * 100 < (total as u128) * 40 {
            lost as u128 * FULL_SCORE as u128
        } else {
            total as u128 * 40_000_000_000
        };
        let left: u64 = FULL_SCORE - lat - jit - dns;
        proof {
            assert(left * shares <= FULL_SCORE * u64::MAX) by (nonlinear_arith)
                requires
                    left <= FULL_SCORE,
                    shares <= u64::MAX,
            ;
            assert(left * shares >= 0) by (nonlinear_arith)
                requires
                    left >= 0,
                    shares >= 0,
            ;
        }
        let s: u128 = left as u128 * shares - loss;
        let most: u128 = DEGRADED_SCORE as u128 * shares;
        Ratio {
            num: if self.state == LinkState::Degraded && s > most {
                most
            } else {
                s
            },
            den: POINT as u128 * shares,
        }
    }

    /// Whole seconds since the link came up; zero while it is not up.
    pub fn cur_uptime_secs(&self, now: Instant) -> (r: u64)
        ensures
            r == elapsed_secs(self.up_since, now),
    {
        secs_between(self.up_since, now)
    }

    /// What is left of the dwell that holds the recovery; `None` when it is served.
    pub fn recovery_remaining(&self, now: Instant) -> (r: Option<Duration>)
        requires
            self.recovery.has_room(),
        ensures
            match r {
                None => self.recovery.total_ns(now) >= self.cfg.recover_dwell.ns,
                Some(d) => self.recovery.total_ns(now) + d.ns == self.cfg.recover_dwell.ns && d.ns
                    > 0,
            },
    {
        self.recovery.remaining(now, self.cfg.recover_dwell)
    }

    /// The mean time to recover, in milliseconds.
    pub fn mttr_ms(&self) -> (r: u64)
        ensures
            r == (if self.recoveries == 0 {
                0
            } else {
                self.mttr_ms_total as int / self.recoveries as int
            }),
    {
        if self.recoveries == 0 {
            0
        } else {
            self.mttr_ms_total / (self.recoveries as u64)
        }
    }

    pub fn uptime_pct(&self) -> (r: Ratio)
        requires
            self.wf(),
        ensures
            r == percent(self.sess_up_ms as nat, self@.session_ms(), 100),
    {
        percent_of(
            self.sess_up_ms,
            self.sess_up_ms + self.sess_degraded_ms + self.sess_down_ms,
            100,
        )
    }

    pub fn degraded_pct(&self) -> (r: Ratio)
        requires
            self.wf(),
        ensures
            r == percent(self.sess_degraded_ms as nat, self@.session_ms(), 0),
    {
        percent_of(
            self.sess_degraded_ms,
            self.sess_up_ms + self.sess_degraded_ms + self.sess_down_ms,
            0,
        )
    }

    pub fn down_pct(&self) -> (r: Ratio)
        requires
            self.wf(),
        ensures
            r == percent(self.sess_down_ms as nat, self@.session_ms(), 0),
    {
        percent_of(
            self.sess_down_ms,
            self.sess_up_ms + self.sess_degraded_ms + self.sess_down_ms,
            0,
        )
    }
}

/// The three shares of a session add up to the whole.
pub proof fn law_shares_add_up(a: AppV)
    requires
        a.session_ms() > 0,
    ensures
        percent(a.sess_up_ms as nat, a.session_ms(), 100).num + percent(
            a.sess_degraded_ms as nat,
            a.session_ms(),
            0,
        ).num + percent(a.sess_down_ms as nat, a.session_ms(), 0).num == 100 * a.session_ms(),
{
}

/// No threshold falls below its configured floor.
pub proof fn law_floors_hold(a: AppV)
    ensures
        a.lat_warn() >= a.cfg.latency_warn_ns,
        a.lat_bad() >= a.cfg.latency_bad_ns,
        a.jit_warn_twice() >= 2 * a.cfg.jitter_warn_ns,
        a.dns_warn() >= a.cfg.dns_warn_ns,
        a.dns_bad() >= a.cfg.dns_bad_ns,
{
}

// ---------------------------------------------------------------------- laws

/// Probes and losses of the targets together are the sums of their own.
pub proof fn law_pooled_counts_add_up(ps: Seq<ProbeV>, p: ProbeV)
    ensures
        total_of(Seq::empty()) == 0,
        lost_of(Seq::empty()) == 0,
        total_of(ps.push(p)) == total_of(ps) + p.total,
        lost_of(ps.push(p)) == lost_of(ps) + p.lost,
{
    assert(ps.push(p).drop_last() =~= ps);
}

/// The pooled loss is the share of the lost probes in all, in percent; before the first
/// probe there is none.
pub proof fn law_loss_is_a_share(a: AppV)
    requires
        lost_of(a.primaries) <= total_of(a.primaries) <= u64::MAX,
    ensures
        a.loss().den > 0,
        total_of(a.primaries) == 0 ==> a.loss().num == 0,
        total_of(a.primaries) > 0 ==> a.loss().num * total_of(a.primaries) == 100 * lost_of(
            a.primaries,
        ) * a.loss().den,
        a.loss().num <= 100 * a.loss().den,
{
    let l = lost_of(a.primaries);
    let t = total_of(a.primaries);
    if t > 0 {
        assert(l * 100 * t == 100 * l * t) by (nonlinear_arith);
    }
}

/// A part of a whole in percent: part over whole, times a hundred. Where there is no whole,
/// it is what was agreed for that.
pub proof fn law_percent_is_exact(part: nat, whole: nat, none: nat)
    requires
        part <= whole <= u64::MAX,
        none <= u64::MAX,
    ensures
        percent(part, whole, none).den > 0,
        whole > 0 ==> percent(part, whole, none).num * whole == 100 * part * percent(
            part,
            whole,
            none,
        ).den,
        whole == 0 ==> percent(part, whole, none).num == none * percent(part, whole, none).den,
{
    if whole > 0 {
        assert(part * 100 * whole == 100 * part * whole) by (nonlinear_arith);
    }
}

/// The latency shown is the median of the latest round trips of the targets that answered
/// last time, the jitter that of their latest jitters: here for targets that all have one.
pub proof fn law_shown_values_are_medians(a: AppV, vals: Seq<u64>, jits: Seq<u64>)
    requires
        vals.len() == a.primaries.len(),
        jits.len() == a.primaries.len(),
    ensures
        (forall|i: int|
            0 <= i < vals.len() ==> (#[trigger] a.primaries[i]).last_value == Some(vals[i]))
            ==> a.last_value() == median_of(vals),
        (forall|i: int|
            0 <= i < jits.len() ==> (#[trigger] a.primaries[i]).jitter_ring.items.len() > 0
                && a.primaries[i].jitter_ring.items.last() == Some(jits[i])) ==> a.jitter()
            == median_of(jits),
        (forall|i: int|
            0 <= i < vals.len() ==> (#[trigger] a.primaries[i]).last_value is None)
            ==> a.last_value() is None,
{
    let lv = Seq::new(a.primaries.len(), |i: int| a.primaries[i].last_value);
    let lj = Seq::new(a.primaries.len(), |i: int| latest_jitter(a.primaries[i]));
    if forall|i: int|
        0 <= i < vals.len() ==> (#[trigger] a.primaries[i]).last_value == Some(vals[i]) {
        lemma_all_present(lv, vals);
    }
    if forall|i: int|
        0 <= i < jits.len() ==> (#[trigger] a.primaries[i]).jitter_ring.items.len() > 0
            && a.primaries[i].jitter_ring.items.last() == Some(jits[i]) {
        lemma_all_present(lj, jits);
    }
    if forall|i: int| 0 <= i < vals.len() ==> (#[trigger] a.primaries[i]).last_value is None {
        lemma_none_present(lv);
    }
}

proof fn lemma_all_present(s: Seq<Option<u64>>, vals: Seq<u64>)
    requires
        s.len() == vals.len(),
        forall|i: int| 0 <= i < s.len() ==> #[trigger] s[i] == Some(vals[i]),
    ensures
        present(s) == vals,
    decreases s.len(),
{
    if s.len() > 0 {
        assert(s[s.len() - 1] == Some(vals[s.len() - 1]));
        assert forall|i: int| 0 <= i < s.drop_last().len() implies #[trigger] s.drop_last()[i]
            == Some(vals.drop_last()[i]) by {
            assert(s[i] == Some(vals[i]));
        }
        lemma_all_present(s.drop_last(), vals.drop_last());
    }
    assert(present(s) =~= vals);
}

proof fn lemma_none_present(s: Seq<Option<u64>>)
    requires
        forall|i: int| 0 <= i < s.len() ==> (#[trigger] s[i]) is None,
    ensures
        present(s).len() == 0,
    decreases s.len(),
{
    if s.len() > 0 {
        assert(s[s.len() - 1] is None);
        assert forall|i: int| 0 <= i < s.drop_last().len() implies (#[trigger] s.drop_last()[i])
            is None by {
            assert(s[i] is None);
        }
        lemma_none_present(s.drop_last());
    }
}

/// Target `i` has fifty latencies, and `v` is their 90th percentile.
pub open spec fn usual_latency(a: AppV, i: int, v: u64) -> bool {
    &&& 0 <= i < a.primaries.len()
    &&& a.primaries[i].baseline.latencies.len() >= 50
    &&& percentile_of(a.primaries[i].baseline.latencies, 90) == Some(v)
}

/// Target `i` has fifty jitters, and `v` is their 90th percentile.
pub open spec fn usual_jitter(a: AppV, i: int, v: u64) -> bool {
    &&& 0 <= i < a.primaries.len()
    &&& a.primaries[i].baseline.jitters.len() >= 50
    &&& percentile_of(a.primaries[i].baseline.jitters, 90) == Some(v)
}

proof fn lemma_pooled_p90s(ps: Seq<ProbeV>)
    ensures
        forall|i: int|
            0 <= i < ps.len() && latency_p90(#[trigger] ps[i]) is Some ==> pooled_latency_p90(ps)
                is Some && latency_p90(ps[i])->0 <= pooled_latency_p90(ps)->0,
        pooled_latency_p90(ps) is Some ==> exists|i: int|
            0 <= i < ps.len() && latency_p90(#[trigger] ps[i]) == pooled_latency_p90(ps),
        forall|i: int|
            0 <= i < ps.len() && jitter_p90(#[trigger] ps[i]) is Some ==> pooled_jitter_p90(ps)
                is Some && jitter_p90(ps[i])->0 <= pooled_jitter_p90(ps)->0,
        pooled_jitter_p90(ps) is Some ==> exists|i: int|
            0 <= i < ps.len() && jitter_p90(#[trigger] ps[i]) == pooled_jitter_p90(ps),
    decreases ps.len(),
{
    if ps.len() > 0 {
        let d = ps.drop_last();
        let last = ps.len() - 1;
        lemma_pooled_p90s(d);
        assert(ps[last] == ps.last());
        assert forall|i: int| 0 <= i < d.len() implies #[trigger] ps[i] == d[i] by {}
        assert forall|i: int| 0 <= i < ps.len() && latency_p90(#[trigger] ps[i]) is Some implies
            pooled_latency_p90(ps) is Some && latency_p90(ps[i])->0 <= pooled_latency_p90(ps)->0 by {
            if i < last {
                assert(latency_p90(d[i]) is Some);
            }
        }
        assert forall|i: int| 0 <= i < ps.len() && jitter_p90(#[trigger] ps[i]) is Some implies
            pooled_jitter_p90(ps) is Some && jitter_p90(ps[i])->0 <= pooled_jitter_p90(ps)->0 by {
            if i < last {
                assert(jitter_p90(d[i]) is Some);
            }
        }
        if pooled_latency_p90(ps) is Some && pooled_latency_p90(ps) != latency_p90(ps.last()) {
            let i = choose|i: int|
                0 <= i < d.len() && latency_p90(#[trigger] d[i]) == pooled_latency_p90(d);
            assert(latency_p90(ps[i]) == pooled_latency_p90(ps));
        }
        if pooled_jitter_p90(ps) is Some && pooled_jitter_p90(ps) != jitter_p90(ps.last()) {
            let i = choose|i: int|
                0 <= i < d.len() && jitter_p90(#[trigger] d[i]) == pooled_jitter_p90(d);
            assert(jitter_p90(ps[i]) == pooled_jitter_p90(ps));
        }
    }
}

/// The thresholds of the connection follow its least steady target: the latency that is too
/// high is twice, the one that is far too high four times the largest usual latency, and
/// the jitter that is too high two and a half times the largest usual jitter, each where
/// that is more than the configured floor. Targets with fewer than fifty values have no
/// part in it.
pub proof fn law_thresholds_follow_the_targets(a: AppV, i: int, v: u64)
    ensures
        usual_latency(a, i, v) ==> a.lat_warn() >= 2 * v && a.lat_bad() >= 4 * v,
        usual_jitter(a, i, v) ==> a.jit_warn_twice() >= 5 * v,
        a.lat_warn() >= a.cfg.latency_warn_ns && a.lat_bad() >= a.cfg.latency_bad_ns,
        a.jit_warn_twice() >= 2 * a.cfg.jitter_warn_ns,
        a.lat_warn() == a.cfg.latency_warn_ns || exists|k: int, u: u64| #[trigger]
            usual_latency(a, k, u) && a.lat_warn() == 2 * u,
        a.lat_bad() == a.cfg.latency_bad_ns || exists|k: int, u: u64| #[trigger]
            usual_latency(a, k, u) && a.lat_bad() == 4 * u,
        a.jit_warn_twice() == 2 * a.cfg.jitter_warn_ns || exists|k: int, u: u64| #[trigger]
            usual_jitter(a, k, u) && a.jit_warn_twice() == 5 * u,
{
    let ps = a.primaries;
    lemma_pooled_p90s(ps);
    if usual_latency(a, i, v) {
        assert(latency_p90(ps[i]) == Some(v));
    }
    if usual_jitter(a, i, v) {
        assert(jitter_p90(ps[i]) == Some(v));
    }
    if pooled_latency_p90(ps) is Some {
        let k = choose|k: int|
            0 <= k < ps.len() && latency_p90(#[trigger] ps[k]) == pooled_latency_p90(ps);
        assert(usual_latency(a, k, pooled_latency_p90(ps)->0));
    }
    if pooled_jitter_p90(ps) is Some {
        let k = choose|k: int|
            0 <= k < ps.len() && jitter_p90(#[trigger] ps[k]) == pooled_jitter_p90(ps);
        assert(usual_jitter(a, k, pooled_jitter_p90(ps)->0));
    }
}

/// The thresholds of DNS are twice and four times the largest usual time of the matrix, or
/// their floors where those are more.
pub proof fn law_dns_thresholds_follow_the_matrix(a: AppV, i: int, j: int)
    ensures
        0 <= i < a.dns.cells.len() && 0 <= j < a.dns.cells[i].len() ==> (
        a.dns.cells[i][j].p90() matches Some(v) ==> a.dns_warn() >= 2 * v && a.dns_bad() >= 4 * v),
        a.dns_warn() >= a.cfg.dns_warn_ns && a.dns_bad() >= a.cfg.dns_bad_ns,
        a.dns_warn() == a.cfg.dns_warn_ns || exists|k: int, l: int|
            0 <= k < a.dns.cells.len() && 0 <= l < a.dns.cells[k].len() && (
            #[trigger] a.dns.cells[k][l]).p90() is Some && a.dns_warn() == 2
                * a.dns.cells[k][l].p90()->0,
        a.dns_bad() == a.cfg.dns_bad_ns || exists|k: int, l: int|
            0 <= k < a.dns.cells.len() && 0 <= l < a.dns.cells[k].len() && (
            #[trigger] a.dns.cells[k][l]).p90() is Some && a.dns_bad() == 4
                * a.dns.cells[k][l].p90()->0,
{
    let rows = a.dns.cells;
    law_matrix_takes_the_largest(rows);
    if 0 <= i < rows.len() && 0 <= j < rows[i].len() && rows[i][j].p90() is Some {
        assert(rows[i][j].p90()->0 <= matrix_p90(rows)->0);
    }
    if matrix_p90(rows) is Some {
        let (k, l) = choose|k: int, l: int|
            0 <= k < rows.len() && 0 <= l < rows[k].len() && (#[trigger] rows[k][l]).p90()
                == matrix_p90(rows);
        assert(a.dns.cells[k][l].p90() == matrix_p90(rows));
    }
}

/// The statistics of the targets together: all their values counted and summed. Where every
/// target has an answer, the least and the greatest are those of all of them.
pub proof fn law_pooled_statistics_add_up(ps: Seq<ProbeV>, p: ProbeV)
    requires
        forall|i: int| 0 <= i < ps.len() ==> (#[trigger] ps[i]).wf(),
        p.wf(),
        total_of(ps) + p.total <= u64::MAX,
    ensures
        ({
            let s = pooled_stat(ps.push(p));
            let t = pooled_stat(ps);
            &&& s.count == t.count + p.stat.count
            &&& s.sum == t.sum + p.stat.sum
            &&& t.count > 0 ==> s.min <= t.min && s.min <= p.stat.min && (s.min == t.min || s.min
                == p.stat.min)
            &&& t.count > 0 ==> s.max >= t.max && s.max >= p.stat.max && (s.max == t.max || s.max
                == p.stat.max)
            &&& t.count == 0 ==> s.min == p.stat.min && s.max == p.stat.max
        }),
        pooled_stat(Seq::empty()).count == 0,
        pooled_stat(Seq::empty()).sum == 0,
{
    assert(ps.push(p).drop_last() =~= ps);
    law_pooled_stat(ps);
    let t = pooled_stat(ps);
    lemma_stat_bound(t);
    lemma_stat_bound(p.stat);
    assert(t.sum + p.stat.sum <= (t.count + p.stat.count) * u64::MAX) by (nonlinear_arith)
        requires
            t.sum <= t.count * t.max,
            p.stat.sum <= p.stat.count * p.stat.max,
            0 <= t.max <= u64::MAX,
            0 <= p.stat.max <= u64::MAX,
            0 <= t.count,
            0 <= p.stat.count,
    ;
    assert((t.count + p.stat.count) * u64::MAX <= u64::MAX * u64::MAX) by (nonlinear_arith)
        requires
            t.count + p.stat.count <= u64::MAX,
    ;
}

/// The smaller of two numbers.
pub open spec fn lesser(a: int, b: int) -> int {
    if a <= b {
        a
    } else {
        b
    }
}

/// The score of a connection that is up: a hundred points, less a tenth of a point for each
/// millisecond that the latency stands above its threshold (thirty at most), a fifth for
/// each of the jitter (twenty at most), a tenth for each of the slowest system answer (ten
/// at most), and one for each percent of loss (forty at most).
pub proof fn law_score_of_a_connection(a: AppV, lat: nat, jit: nat, dns: nat)
    requires
        a.state == LinkState::Up,
        0 < total_of(a.primaries) <= u64::MAX,
        lost_of(a.primaries) <= total_of(a.primaries),
        a.last_value() == Some(lat as u64) && lat <= u64::MAX || a.last_value() is None && lat == 0,
        a.jitter() == Some(jit as u64) && jit <= u64::MAX || a.jitter() is None && jit == 0,
        a.resolver_worst() == Some(dns as u64) && dns <= u64::MAX || a.resolver_worst() is None
            && dns == 0,
    ensures
        ({
            let q = a.quality();
            let t = total_of(a.primaries) as int;
            let over_lat = if lat > a.lat_warn() {
                lat - a.lat_warn()
            } else {
                0
            };
            let over_jit = if 2 * jit > a.jit_warn_twice() {
                2 * jit - a.jit_warn_twice()
            } else {
                0
            };
            let over_dns = if dns > a.dns_warn() {
                dns - a.dns_warn()
            } else {
                0
            };
            &&& q.den == 1_000_000_000 * t
            &&& q.num == (100_000_000_000 - lesser(100 * over_lat, 30_000_000_000) - lesser(
                100 * over_jit,
                20_000_000_000,
            ) - lesser(100 * over_dns, 10_000_000_000)) * t - lesser(
                100_000_000_000 * lost_of(a.primaries) as int,
                40_000_000_000 * t,
            )
        }),
{
    lemma_raw_score(a);
}

/// A degraded connection has the points of one that is up with the same figures, but 55 at
/// most; one that is down has none.
pub proof fn law_trouble_costs_points(up: AppV, degraded: AppV, down: AppV)
    requires
        up.state == LinkState::Up,
        degraded == (AppV { state: LinkState::Degraded, ..up }),
        down == (AppV { state: LinkState::Down, ..up }),
        total_of(up.primaries) <= u64::MAX,
        lost_of(up.primaries) <= total_of(up.primaries),
    ensures
        degraded.quality().den == up.quality().den,
        degraded.quality().num == lesser(up.quality().num as int, 55 * up.quality().den),
        down.quality().num == 0,
{
    lemma_raw_score(up);
    lemma_raw_score(degraded);
    assert(degraded.raw_score() == up.raw_score());
    assert(DEGRADED_SCORE * up.shares() == 55 * (POINT * up.shares())) by (nonlinear_arith)
        requires
            DEGRADED_SCORE == 55 * POINT,
    ;
}

} // verus!
