//! A recursive detector: a fast and a slow moving average of one metric, and a
//! latch that holds while the fast one stands far above the slow one.
use vstd::prelude::*;
use crate::stats::Ratio;
use crate::text::{chars_of, spells};
use crate::time::{elapsed_ns, Instant};

verus! {

/// Time constant of the fast average.
pub const TAU_S_NS: u64 = 3_000_000_000;

/// Time constant of the slow average.
pub const TAU_L_NS: u64 = 60_000_000_000;

pub const WARMUP_SAMPLES: u32 = 30;

pub const WARMUP_ELAPSED_NS: u128 = 60_000_000_000;

pub const TRIGGER_RATIO: u128 = 4;

pub const DETRIGGER_RATIO: u128 = 2;

pub const MINIMUM_DELTA_NS: u64 = 20_000_000;

/// The slow average counts as at least this much in a ratio.
pub const EPSILON_NS: u64 = 1_000_000;

pub const GAP_RESET_NS: u64 = 300_000_000_000;

pub const RELEARNING_NS: u64 = 600_000_000_000;

/// The shortest time between two samples that the averages are moved by.
pub const MINIMUM_GAP_NS: u64 = 1_000_000;

/// A weight of one.
pub const ONE: u64 = 0x1_0000_0000;

/// The parts of a nanosecond that the averages are kept in.
pub const GRAINS: u128 = 0x1_0000_0000;

/// The largest average.
pub const AVERAGE_LIMIT: u128 = 0xFFFF_FFFF_FFFF_FFFF_0000_0000;

/// How far one sample moves each average, in units of `1 / ONE`.
///
/// After a gap of `dt` the weight of an average with time constant `tau` is
/// `1 - exp(-dt / tau)`. Weights above `ONE` count as `ONE`.
#[derive(Clone, Copy, PartialEq, Eq, Structural, Debug)]
pub struct Weights {
    pub short: u64,
    pub long: u64,
}

/// The two averages, in grains, and what is known of their samples.
#[derive(Clone, Copy, PartialEq, Eq, Structural, Debug)]
pub struct EwmaDetector {
    pub short: Option<u128>,
    pub long: Option<u128>,
    pub last_valid_at: Option<Instant>,
    pub last_long_admitted_at: Option<Instant>,
    pub valid_count: u32,
    pub elapsed_ns: u128,
    pub warmup_done: bool,
    pub latch_active: bool,
    pub continuity_broken: bool,
}

/// The weights of one round of one target.
#[derive(Clone, Copy, PartialEq, Eq, Structural, Debug)]
pub struct ProbeWeights {
    pub latency: Weights,
    pub jitter: Weights,
}

/// What the detectors are for: nothing, a log, or a say in the state of a target.
#[derive(Clone, Copy, PartialEq, Eq, Structural, Debug)]
pub enum DetectorMode {
    Legacy,
    Shadow,
    Hybrid,
}

/// The mode that a setting names; anything unknown is the default.
pub open spec fn mode_named(value: Option<Seq<char>>) -> DetectorMode {
    if value == Some("shadow"@) {
        DetectorMode::Shadow
    } else if value == Some("hybrid"@) {
        DetectorMode::Hybrid
    } else {
        DetectorMode::Legacy
    }
}

impl DetectorMode {
    /// The mode that the value of `PM_RECURSIVE_MODE` selects.
    pub fn from_env(value: Option<&str>) -> (m: Self)
        ensures
            m == mode_named(
                match value {
                    Some(v) => Some(v@),
                    None => None,
                },
            ),
    {
        match value {
            Some(v) => {
                let c = chars_of(v);
                let shadow = spells(&c, "shadow");
                let hybrid = spells(&c, "hybrid");
                if shadow {
                    DetectorMode::Shadow
                } else if hybrid {
                    DetectorMode::Hybrid
                } else {
                    DetectorMode::Legacy
                }
            },
            None => DetectorMode::Legacy,
        }
    }
}

/// A weight that is at most one.
pub open spec fn bounded(w: u64) -> nat {
    if w <= ONE {
        w as nat
    } else {
        ONE as nat
    }
}

/// A time in grains.
pub open spec fn grains(ns: u64) -> u128 {
    (ns * GRAINS) as u128
}

/// `old` moved towards `x` by the weight `w`, in whole grains.
pub open spec fn mix(old: u128, x: u64, w: u64) -> u128 {
    ((old * (ONE - bounded(w)) + grains(x) * bounded(w)) / ONE as int) as u128
}

/// The larger of two values.
pub open spec fn at_least(v: u128, floor: u128) -> u128 {
    if v >= floor {
        v
    } else {
        floor
    }
}

pub open spec fn or_else<T>(v: Option<T>, d: T) -> T {
    match v {
        Some(a) => a,
        None => d,
    }
}

/// `x` reaches the severe level, if there is one.
pub open spec fn is_severe(x: u64, severe: Option<u64>) -> bool {
    severe is Some && x >= severe->0
}

/// `level` stands at four times the slow average or more, and well above it.
pub open spec fn stands_out(level: u128, long: u128) -> bool {
    &&& level >= TRIGGER_RATIO * at_least(long, grains(EPSILON_NS))
    &&& level - long >= grains(MINIMUM_DELTA_NS)
}

/// `level` is back at twice the slow average or below.
pub open spec fn is_calm(level: u128, long: u128) -> bool {
    level <= DETRIGGER_RATIO * at_least(long, grains(EPSILON_NS))
}

/// What one observation reports: the latch, the fast average in grains, its ratio
/// to the slow one, and whether the slow one took the sample in.
pub type Report = (bool, Option<u128>, Ratio, bool);

pub open spec fn detector_zero() -> EwmaDetector {
    EwmaDetector {
        short: None,
        long: None,
        last_valid_at: None,
        last_long_admitted_at: None,
        valid_count: 0,
        elapsed_ns: 0,
        warmup_done: false,
        latch_active: false,
        continuity_broken: false,
    }
}

/// A detector that has seen one sample.
pub open spec fn detector_started(x: u64, now: Instant) -> EwmaDetector {
    EwmaDetector {
        short: Some(grains(x)),
        long: Some(grains(x)),
        last_valid_at: Some(now),
        last_long_admitted_at: Some(now),
        valid_count: 1,
        elapsed_ns: 0,
        warmup_done: false,
        latch_active: false,
        continuity_broken: false,
    }
}

impl EwmaDetector {
    /// The time that the warm-up has counted fits the number of samples, and the
    /// averages are those of samples.
    pub open spec fn wf(self) -> bool {
        &&& self.elapsed_ns <= self.valid_count * GAP_RESET_NS
        &&& self.short is Some ==> self.short->0 <= AVERAGE_LIMIT
        &&& self.long is Some ==> self.long->0 <= AVERAGE_LIMIT
    }

    /// The sample count can be raised where a sample at `now` raises it.
    pub open spec fn takes_sample(self, now: Instant) -> bool {
        self.blending_gap(now) is Some ==> self.valid_count < u32::MAX
    }

    /// Nanoseconds since the last sample.
    pub open spec fn gap(self, now: Instant) -> nat {
        match self.last_valid_at {
            Some(t) => elapsed_ns(t, now),
            None => 0,
        }
    }

    /// The next sample starts the detector over: the first one, one after a long
    /// gap, and one after the slow average took nothing in for a long time.
    pub open spec fn restarts(self, now: Instant) -> bool {
        ||| self.last_valid_at is None
        ||| self.gap(now) >= GAP_RESET_NS
        ||| {
            &&& !self.continuity_broken
            &&& self.last_long_admitted_at is Some
            &&& elapsed_ns(self.last_long_admitted_at->0, now) >= RELEARNING_NS
        }
    }

    /// The time that the next sample moves the averages by, if it moves them.
    pub open spec fn blending_gap(self, now: Instant) -> Option<nat> {
        if self.restarts(now) || self.continuity_broken {
            None
        } else if self.gap(now) >= MINIMUM_GAP_NS {
            Some(self.gap(now))
        } else {
            Some(MINIMUM_GAP_NS as nat)
        }
    }

    /// The detector after the first sample behind a loss: the fast average starts
    /// over, the slow one and the warm-up stand still, the latch may close.
    pub open spec fn after_gap(
        self,
        x: u64,
        now: Instant,
        warn: u64,
        severe: Option<u64>,
    ) -> EwmaDetector {
        let long = or_else(self.long, grains(x));
        EwmaDetector {
            short: Some(grains(x)),
            latch_active: self.latch_active || is_severe(x, severe) || (self.warmup_done && x
                >= warn && stands_out(grains(x), long)),
            continuity_broken: false,
            last_valid_at: Some(now),
            ..self
        }
    }

    /// The fast average after a sample that moves it.
    pub open spec fn next_short(self, x: u64, w: Weights) -> u128 {
        mix(or_else(self.short, grains(x)), x, w.short)
    }

    /// The warm-up after a sample that moves the averages.
    pub open spec fn next_warm(self, now: Instant) -> bool {
        self.warmup_done || (self.valid_count + 1 >= WARMUP_SAMPLES && self.elapsed_ns
            + self.blending_gap(now)->0 >= WARMUP_ELAPSED_NS)
    }

    /// The latch after a sample that moves the averages.
    pub open spec fn next_latch(
        self,
        x: u64,
        now: Instant,
        warn: u64,
        severe: Option<u64>,
        w: Weights,
    ) -> bool {
        let long = or_else(self.long, grains(x));
        let short = self.next_short(x, w);
        if is_severe(x, severe) {
            true
        } else if self.latch_active {
            !(is_calm(short, long) || x < warn)
        } else {
            self.next_warm(now) && x >= warn && stands_out(short, long)
        }
    }

    /// The slow average takes a sample in only while the latch is open and the
    /// fast average is calm.
    pub open spec fn admits(
        self,
        x: u64,
        now: Instant,
        warn: u64,
        severe: Option<u64>,
        w: Weights,
    ) -> bool {
        !self.next_latch(x, now, warn, severe, w) && is_calm(
            self.next_short(x, w),
            or_else(self.long, grains(x)),
        )
    }

    /// The detector after a sample that moves the averages.
    pub open spec fn blended(
        self,
        x: u64,
        now: Instant,
        warn: u64,
        severe: Option<u64>,
        w: Weights,
    ) -> EwmaDetector {
        let long = or_else(self.long, grains(x));
        let admitted = self.admits(x, now, warn, severe, w);
        EwmaDetector {
            short: Some(self.next_short(x, w)),
            long: if admitted {
                Some(mix(long, x, w.long))
            } else {
                self.long
            },
            last_valid_at: Some(now),
            last_long_admitted_at: if admitted {
                Some(now)
            } else {
                self.last_long_admitted_at
            },
            valid_count: (self.valid_count + 1) as u32,
            elapsed_ns: (self.elapsed_ns + self.blending_gap(now)->0) as u128,
            warmup_done: self.next_warm(now),
            latch_active: self.next_latch(x, now, warn, severe, w),
            continuity_broken: false,
        }
    }

    /// The detector after one sample.
    pub open spec fn observed(
        self,
        x: u64,
        now: Instant,
        warn: u64,
        severe: Option<u64>,
        w: Weights,
    ) -> EwmaDetector {
        if self.restarts(now) {
            detector_started(x, now)
        } else if self.continuity_broken {
            self.after_gap(x, now, warn, severe)
        } else {
            self.blended(x, now, warn, severe, w)
        }
    }

    /// What one sample reports.
    pub open spec fn report(
        self,
        x: u64,
        now: Instant,
        warn: u64,
        severe: Option<u64>,
        w: Weights,
    ) -> Report {
        let next = self.observed(x, now, warn, severe, w);
        let floor = at_least(or_else(self.long, grains(x)), grains(EPSILON_NS));
        if self.restarts(now) {
            (false, Some(grains(x)), Ratio { num: 1, den: 1 }, true)
        } else {
            (
                next.latch_active,
                next.short,
                Ratio { num: next.short->0, den: floor },
                !self.continuity_broken && self.admits(x, now, warn, severe, w),
            )
        }
    }

    pub fn new() -> (d: Self)
        ensures
            d == detector_zero(),
            d.wf(),
    {
        EwmaDetector {
            short: None,
            long: None,
            last_valid_at: None,
            last_long_admitted_at: None,
            valid_count: 0,
            elapsed_ns: 0,
            warmup_done: false,
            latch_active: false,
            continuity_broken: false,
        }
    }

    pub fn reset(&mut self)
        ensures
            *final(self) == detector_zero(),
            final(self).wf(),
    {
        *self = Self::new();
    }

    /// The time that a sample at `now` would move the averages by; `None` when it
    /// would start them over instead. The weights of that sample belong to this
    /// time.
    pub fn weighing_gap(&self, now: Instant) -> (r: Option<u64>)
        ensures
            match r {
                Some(dt) => self.blending_gap(now) == Some(dt as nat),
                None => self.blending_gap(now) is None,
            },
    {
        let last = match self.last_valid_at {
            Some(t) => t,
            None => {
                return None;
            },
        };
        let dt: u64 = now.nanos_since(last);
        if dt >= GAP_RESET_NS || self.continuity_broken {
            return None;
        }
        if let Some(t) = self.last_long_admitted_at {
            if now.nanos_since(t) >= RELEARNING_NS {
                return None;
            }
        }
        if dt >= MINIMUM_GAP_NS {
            Some(dt)
        } else {
            Some(MINIMUM_GAP_NS)
        }
    }

    /// Takes one valid sample in.
    ///
    /// `x` is the metric, `warn` its warning floor, `severe` its severe floor (a
    /// metric without one passes `None`), `w` how far the sample moves the two
    /// averages.
    pub fn observe(
        &mut self,
        x: u64,
        now: Instant,
        warn: u64,
        severe: Option<u64>,
        w: Weights,
    ) -> (r: Report)
        requires
            old(self).wf(),
            old(self).takes_sample(now),
        ensures
            final(self).wf(),
            *final(self) == old(self).observed(x, now, warn, severe, w),
            r == old(self).report(x, now, warn, severe, w),
    {
        let ghost before = *self;
        let relearn = match self.last_long_admitted_at {
            Some(t) => !self.continuity_broken && now.nanos_since(t) >= RELEARNING_NS,
            None => false,
        };
        let gap: Option<u64> = match self.last_valid_at {
            Some(t) => Some(now.nanos_since(t)),
            None => None,
        };
        let restart = match gap {
            Some(dt) => dt >= GAP_RESET_NS || relearn,
            None => true,
        };
        let level: u128 = in_grains(x);
        if restart {
            *self = EwmaDetector {
                short: Some(level),
                long: Some(level),
                last_valid_at: Some(now),
                last_long_admitted_at: Some(now),
                valid_count: 1,
                elapsed_ns: 0,
                warmup_done: false,
                latch_active: false,
                continuity_broken: false,
            };
            return (false, Some(level), Ratio { num: 1, den: 1 }, true);
        }
        let long_val: u128 = match self.long {
            Some(v) => v,
            None => level,
        };
        let least: u128 = in_grains(EPSILON_NS);
        let floor: u128 = if long_val >= least {
            long_val
        } else {
            least
        };
        let severe_hit = match severe {
            Some(s) => x >= s,
            None => false,
        };
        if self.continuity_broken {
            self.short = Some(level);
            if severe_hit || (self.warmup_done && x >= warn && out_of_line(level, long_val)) {
                self.latch_active = true;
            }
            self.continuity_broken = false;
            self.last_valid_at = Some(now);
            let ratio = Ratio { num: level, den: floor };
            return (self.latch_active, Some(level), ratio, false);
        }
        let dt: u64 = match gap {
            Some(d) => if d >= MINIMUM_GAP_NS {
                d
            } else {
                MINIMUM_GAP_NS
            },
            None => MINIMUM_GAP_NS,
        };
        let short_val: u128 = match self.short {
            Some(v) => v,
            None => level,
        };
        let short_new: u128 = blend(short_val, x, w.short);
        proof {
            assert((before.valid_count + 1) * GAP_RESET_NS == before.valid_count * GAP_RESET_NS
                + GAP_RESET_NS) by (nonlinear_arith);
            assert(before.valid_count * GAP_RESET_NS <= u32::MAX * GAP_RESET_NS)
                by (nonlinear_arith)
                requires
                    before.valid_count <= u32::MAX,
            ;
        }
        self.valid_count = self.valid_count + 1;
        self.elapsed_ns = self.elapsed_ns + dt as u128;
        self.warmup_done = self.warmup_done || (self.valid_count >= WARMUP_SAMPLES
            && self.elapsed_ns >= WARMUP_ELAPSED_NS);
        let calm = short_new <= DETRIGGER_RATIO * floor;
        if severe_hit {
            self.latch_active = true;
        } else if self.latch_active && (calm || x < warn) {
            self.latch_active = false;
        } else if !self.latch_active && self.warmup_done && x >= warn && out_of_line(
            short_new,
            long_val,
        ) {
            self.latch_active = true;
        }
        self.short = Some(short_new);
        let long_admitted = !self.latch_active && calm;
        if long_admitted {
            self.long = Some(blend(long_val, x, w.long));
            self.last_long_admitted_at = Some(now);
        }
        self.last_valid_at = Some(now);
        let ratio = Ratio { num: short_new, den: floor };
        (self.latch_active, Some(short_new), ratio, long_admitted)
    }

    /// Marks that a sample was lost. The averages stand still.
    pub fn mark_gap(&mut self)
        ensures
            *final(self) == (EwmaDetector { continuity_broken: true, ..*old(self) }),
    {
        self.continuity_broken = true;
    }
}

fn in_grains(ns: u64) -> (r: u128)
    ensures
        r == grains(ns),
        r == ns * GRAINS,
        r <= AVERAGE_LIMIT,
{
    ns as u128 * GRAINS
}

fn out_of_line(level: u128, long: u128) -> (r: bool)
    requires
        level <= AVERAGE_LIMIT,
        long <= AVERAGE_LIMIT,
    ensures
        r == stands_out(level, long),
{
    let least: u128 = in_grains(EPSILON_NS);
    let floor: u128 = if long >= least {
        long
    } else {
        least
    };
    level >= TRIGGER_RATIO * floor && level >= long && level - long >= in_grains(MINIMUM_DELTA_NS)
}

fn blend(old: u128, x: u64, w: u64) -> (r: u128)
    requires
        old <= AVERAGE_LIMIT,
    ensures
        r == mix(old, x, w),
        r <= AVERAGE_LIMIT,
{
    let b: u64 = if w <= ONE {
        w
    } else {
        ONE
    };
    let level: u128 = in_grains(x);
    proof {
        law_mix_lies_between(old, x, w);
        assert(old * (ONE - b) + level * b <= AVERAGE_LIMIT * ONE) by (nonlinear_arith)
            requires
                0 <= b <= ONE,
                0 <= old <= AVERAGE_LIMIT,
                0 <= level <= AVERAGE_LIMIT,
        ;
        assert(0 <= old * (ONE - b) && 0 <= level * b) by (nonlinear_arith)
            requires
                0 <= b <= ONE,
                0 <= old,
                0 <= level,
        ;
    }
    (old * ((ONE - b) as u128) + level * (b as u128)) / (ONE as u128)
}

/// A moving average never leaves the range between itself and the sample.
pub proof fn law_mix_lies_between(old: u128, x: u64, w: u64)
    requires
        old <= AVERAGE_LIMIT,
    ensures
        old <= grains(x) ==> old <= mix(old, x, w) <= grains(x),
        grains(x) <= old ==> grains(x) <= mix(old, x, w) <= old,
{
    let b = bounded(w) as int;
    let level = grains(x);
    let s = old * (ONE - b) + level * b;
    assert(old <= level ==> old * ONE <= s <= level * ONE) by (nonlinear_arith)
        requires
            s == old * (ONE - b) + level * b,
            0 <= b <= ONE,
    ;
    assert(level <= old ==> level * ONE <= s <= old * ONE) by (nonlinear_arith)
        requires
            s == old * (ONE - b) + level * b,
            0 <= b <= ONE,
    ;
}

/// While the latch is closed the slow average is frozen: an anomaly cannot become
/// the new normal.
pub proof fn law_latch_freezes_the_slow_average(
    d: EwmaDetector,
    x: u64,
    now: Instant,
    warn: u64,
    severe: Option<u64>,
    w: Weights,
)
    requires
        d.observed(x, now, warn, severe, w).latch_active,
    ensures
        d.observed(x, now, warn, severe, w).long == d.long,
        d.report(x, now, warn, severe, w).3 == false,
{
}

/// Between the two ratios the latch keeps its position.
pub proof fn law_intermediate_keeps_the_latch(
    d: EwmaDetector,
    x: u64,
    now: Instant,
    warn: u64,
    severe: Option<u64>,
    w: Weights,
)
    requires
        d.blending_gap(now) is Some,
        !is_severe(x, severe),
        x >= warn,
        !is_calm(d.next_short(x, w), or_else(d.long, grains(x))),
        d.next_short(x, w) < TRIGGER_RATIO * at_least(or_else(d.long, grains(x)), grains(EPSILON_NS)),
    ensures
        d.observed(x, now, warn, severe, w).latch_active == d.latch_active,
{
}

/// Before the warm-up is over only a severe sample can close the latch.
pub proof fn law_warmup_blocks_the_relative_trigger(
    d: EwmaDetector,
    x: u64,
    now: Instant,
    warn: u64,
    severe: Option<u64>,
    w: Weights,
)
    requires
        !d.latch_active,
        !d.observed(x, now, warn, severe, w).warmup_done,
        !is_severe(x, severe),
    ensures
        !d.observed(x, now, warn, severe, w).latch_active,
{
}

/// A severe sample closes the latch in every state but the one in which it starts
/// the detector over.
pub proof fn law_severe_closes_the_latch(
    d: EwmaDetector,
    x: u64,
    now: Instant,
    warn: u64,
    severe: Option<u64>,
    w: Weights,
)
    requires
        is_severe(x, severe),
        !d.restarts(now),
    ensures
        d.observed(x, now, warn, severe, w).latch_active,
{
}

/// The first sample after a loss never enters the slow average.
pub proof fn law_first_after_gap_is_not_admitted(
    d: EwmaDetector,
    x: u64,
    now: Instant,
    warn: u64,
    severe: Option<u64>,
    w: Weights,
)
    requires
        d.continuity_broken,
        !d.restarts(now),
    ensures
        d.report(x, now, warn, severe, w).3 == false,
        d.observed(x, now, warn, severe, w).long == d.long,
        d.observed(x, now, warn, severe, w).short == Some(grains(x)),
        !d.observed(x, now, warn, severe, w).continuity_broken,
{
}

/// A sudden rise closes the latch. Where a sample moves the averages and the latch is
/// open, the latch is closed afterwards exactly when the sample is severe, or when the
/// warm-up is over, the sample reaches the warning level, and the new fast average
/// stands at four times the slow one (taken as 1 ms at least) or more and at least
/// 20 ms above it.
pub proof fn law_a_rise_closes_the_latch(
    d: EwmaDetector,
    x: u64,
    now: Instant,
    warn: u64,
    severe: Option<u64>,
    w: Weights,
)
    requires
        !d.continuity_broken,
        d.last_valid_at matches Some(t) && now.ns - t.ns < 300_000_000_000,
        d.last_long_admitted_at matches Some(u) ==> now.ns - u.ns < 600_000_000_000,
        !d.latch_active,
    ensures
        ({
            let e = d.observed(x, now, warn, severe, w);
            let unit = 4_294_967_296int;
            let slow = if d.long is Some {
                d.long->0 as int
            } else {
                x * unit
            };
            let fast = e.short->0;
            let severe_hit = severe matches Some(s) && s <= x;
            &&& e.short is Some
            &&& e.latch_active <==> severe_hit || {
                &&& e.warmup_done
                &&& warn <= x
                &&& fast >= 4 * slow
                &&& fast >= 4 * 1_000_000 * unit
                &&& fast >= slow + 20_000_000 * unit
            }
        }),
{
}

/// A closed latch opens when the trouble is over. Where a sample moves the averages and
/// the latch is closed, it stays closed exactly when the sample is severe, or when it
/// reaches the warning level while the new fast average stands above twice the slow one
/// (taken as 1 ms at least).
pub proof fn law_calm_opens_the_latch(
    d: EwmaDetector,
    x: u64,
    now: Instant,
    warn: u64,
    severe: Option<u64>,
    w: Weights,
)
    requires
        !d.continuity_broken,
        d.last_valid_at matches Some(t) && now.ns - t.ns < 300_000_000_000,
        d.last_long_admitted_at matches Some(u) ==> now.ns - u.ns < 600_000_000_000,
        d.latch_active,
    ensures
        ({
            let e = d.observed(x, now, warn, severe, w);
            let unit = 4_294_967_296int;
            let slow = if d.long is Some {
                d.long->0 as int
            } else {
                x * unit
            };
            let fast = e.short->0;
            let severe_hit = severe matches Some(s) && s <= x;
            &&& e.short is Some
            &&& e.latch_active <==> severe_hit || (warn <= x && fast > 2 * slow && fast > 2
                * 1_000_000 * unit)
        }),
{
}

/// A sample moves the fast average towards itself by its share: of the distance, as
/// many parts of 2^32 as the weight has, cut to whole grains. The slow average moves
/// in the same way where it takes the sample in, and stands still where it does not.
pub proof fn law_averages_move_by_their_weights(
    d: EwmaDetector,
    x: u64,
    now: Instant,
    warn: u64,
    severe: Option<u64>,
    w: Weights,
)
    requires
        !d.continuity_broken,
        d.last_valid_at matches Some(t) && now.ns - t.ns < 300_000_000_000,
        d.last_long_admitted_at matches Some(u) ==> now.ns - u.ns < 600_000_000_000,
        d.wf(),
        d.short is Some,
        d.long is Some,
        w.short <= 4_294_967_296,
        w.long <= 4_294_967_296,
    ensures
        ({
            let e = d.observed(x, now, warn, severe, w);
            let unit = 4_294_967_296int;
            &&& e.short is Some && e.long is Some
            &&& e.short->0 * unit <= d.short->0 * (unit - w.short) + x * unit * w.short
                < (e.short->0 + 1) * unit
            &&& e.last_long_admitted_at == Some(now) && d.last_long_admitted_at != Some(now)
                ==> e.long->0 * unit <= d.long->0 * (unit - w.long) + x * unit * w.long
                < (e.long->0 + 1) * unit
            &&& e.last_long_admitted_at == d.last_long_admitted_at && d.last_long_admitted_at
                != Some(now) ==> e.long == d.long
        }),
{
    lemma_mix_is_exact(d.short->0, x, w.short);
    lemma_mix_is_exact(d.long->0, x, w.long);
}

proof fn lemma_mix_is_exact(old: u128, x: u64, w: u64)
    requires
        old <= AVERAGE_LIMIT,
        w <= 4_294_967_296,
    ensures
        mix(old, x, w) * 4_294_967_296 <= old * (4_294_967_296 - w) + x * 4_294_967_296 * w < (mix(
            old,
            x,
            w,
        ) + 1) * 4_294_967_296,
{
    law_mix_lies_between(old, x, w);
    let unit = 4_294_967_296int;
    let s = old * (unit - w) + x * unit * w;
    assert(grains(x) * bounded(w) == x * unit * w);
    assert(0 <= s) by (nonlinear_arith)
        requires
            s == old * (unit - w) + x * unit * w,
            0 <= w <= unit,
            0 <= old,
            0 <= x,
            unit == 4_294_967_296int,
    ;
    assert(s <= AVERAGE_LIMIT * unit) by (nonlinear_arith)
        requires
            s == old * (unit - w) + x * unit * w,
            0 <= w <= unit,
            0 <= old <= AVERAGE_LIMIT,
            0 <= x <= 0xFFFF_FFFF_FFFF_FFFF,
            unit == 4_294_967_296int,
            AVERAGE_LIMIT == 0xFFFF_FFFF_FFFF_FFFFint * unit,
    ;
    assert(s / unit <= AVERAGE_LIMIT);
    assert(mix(old, x, w) == s / unit);
}

/// The slow average takes a sample in exactly when the latch is open afterwards and the
/// new fast average stands at twice the slow one (taken as 1 ms at least) or below.
/// The report says whether it did.
pub proof fn law_only_calm_samples_are_learned(
    d: EwmaDetector,
    x: u64,
    now: Instant,
    warn: u64,
    severe: Option<u64>,
    w: Weights,
)
    requires
        !d.continuity_broken,
        d.last_valid_at matches Some(t) && now.ns - t.ns < 300_000_000_000,
        d.last_long_admitted_at matches Some(u) ==> now.ns - u.ns < 600_000_000_000,
    ensures
        ({
            let e = d.observed(x, now, warn, severe, w);
            let unit = 4_294_967_296int;
            let slow = if d.long is Some {
                d.long->0 as int
            } else {
                x * unit
            };
            let calm = !e.latch_active && (e.short->0 <= 2 * slow || e.short->0 <= 2 * 1_000_000
                * unit);
            &&& d.report(x, now, warn, severe, w).3 == calm
            &&& e.last_long_admitted_at == (if calm {
                Some(now)
            } else {
                d.last_long_admitted_at
            })
            &&& !calm ==> e.long == d.long
            &&& calm ==> e.long is Some
        }),
{
}

/// The warm-up counts every sample that moves the averages, and the time since the one
/// before (a millisecond at least); with thirty samples and a minute it is over, and it
/// stays over.
pub proof fn law_warmup_counts_samples_and_time(
    d: EwmaDetector,
    x: u64,
    now: Instant,
    warn: u64,
    severe: Option<u64>,
    w: Weights,
)
    requires
        !d.continuity_broken,
        d.last_valid_at matches Some(t) && now.ns - t.ns < 300_000_000_000,
        d.last_long_admitted_at matches Some(u) ==> now.ns - u.ns < 600_000_000_000,
        d.wf(),
        d.valid_count < u32::MAX,
    ensures
        ({
            let e = d.observed(x, now, warn, severe, w);
            let since = now.ns - d.last_valid_at->0.ns;
            &&& e.valid_count == d.valid_count + 1
            &&& e.elapsed_ns == d.elapsed_ns + (if since >= 1_000_000 {
                since
            } else {
                1_000_000
            })
            &&& e.warmup_done <==> d.warmup_done || (e.valid_count >= 30 && e.elapsed_ns
                >= 60_000_000_000)
            &&& e.last_valid_at == Some(now)
            &&& !e.continuity_broken
        }),
{
    assert(d.valid_count * GAP_RESET_NS <= u32::MAX * GAP_RESET_NS) by (nonlinear_arith)
        requires
            d.valid_count <= u32::MAX,
    ;
}

/// The first sample of all, one after five minutes without any, and one after ten
/// minutes in which the slow average took nothing in start the detector over, from
/// that sample alone: both averages at it, one sample counted, the latch open.
pub proof fn law_long_gaps_start_over(
    d: EwmaDetector,
    x: u64,
    now: Instant,
    warn: u64,
    severe: Option<u64>,
    w: Weights,
)
    requires
        d.last_valid_at is None || now.ns - d.last_valid_at->0.ns >= 300_000_000_000 || (
        !d.continuity_broken && d.last_long_admitted_at is Some && now.ns
            - d.last_long_admitted_at->0.ns >= 600_000_000_000),
    ensures
        ({
            let e = d.observed(x, now, warn, severe, w);
            let r = d.report(x, now, warn, severe, w);
            &&& e.short == Some((x * 4_294_967_296) as u128) && e.long == e.short
            &&& e.last_valid_at == Some(now) && e.last_long_admitted_at == Some(now)
            &&& e.valid_count == 1 && e.elapsed_ns == 0
            &&& !e.warmup_done && !e.latch_active && !e.continuity_broken
            &&& !r.0 && r.1 == e.short && r.2.num == r.2.den && r.2.den > 0 && r.3
        }),
{
}

/// The first sample after a loss, if it does not start the detector over, sets the fast
/// average, moves neither the slow one nor the warm-up, and can close the latch but not
/// open it: it closes where the sample is severe, or where the warm-up is over and the
/// sample reaches the warning level, stands at four times the slow average (taken as
/// 1 ms at least) or more and at least 20 ms above it.
pub proof fn law_sample_after_a_loss(
    d: EwmaDetector,
    x: u64,
    now: Instant,
    warn: u64,
    severe: Option<u64>,
    w: Weights,
)
    requires
        d.continuity_broken,
        d.last_valid_at matches Some(t) && now.ns - t.ns < 300_000_000_000,
    ensures
        ({
            let e = d.observed(x, now, warn, severe, w);
            let unit = 4_294_967_296int;
            let slow = if d.long is Some {
                d.long->0 as int
            } else {
                x * unit
            };
            let severe_hit = severe matches Some(s) && s <= x;
            &&& e.short == Some((x * unit) as u128)
            &&& e.long == d.long && e.last_long_admitted_at == d.last_long_admitted_at
            &&& e.valid_count == d.valid_count && e.elapsed_ns == d.elapsed_ns
            &&& e.warmup_done == d.warmup_done
            &&& e.last_valid_at == Some(now) && !e.continuity_broken
            &&& e.latch_active <==> d.latch_active || severe_hit || {
                &&& d.warmup_done
                &&& warn <= x
                &&& x * unit >= 4 * slow
                &&& x >= 4 * 1_000_000
                &&& x * unit >= slow + 20_000_000 * unit
            }
            &&& !d.report(x, now, warn, severe, w).3
        }),
{
}

/// What a sample reports is what it leaves behind: the latch, the fast average, and the
/// fast average over the slow one of before (taken as 1 ms at least).
pub proof fn law_report_tells_the_outcome(
    d: EwmaDetector,
    x: u64,
    now: Instant,
    warn: u64,
    severe: Option<u64>,
    w: Weights,
)
    requires
        d.last_valid_at matches Some(t) && now.ns - t.ns < 300_000_000_000,
        d.last_long_admitted_at matches Some(u) ==> d.continuity_broken || now.ns - u.ns
            < 600_000_000_000,
        d.long is Some,
    ensures
        ({
            let e = d.observed(x, now, warn, severe, w);
            let r = d.report(x, now, warn, severe, w);
            &&& r.0 == e.latch_active
            &&& r.1 == e.short && e.short is Some
            &&& r.2.num == e.short->0
            &&& r.2.den >= d.long->0 && r.2.den >= 1_000_000 * 4_294_967_296
            &&& r.2.den == d.long->0 || r.2.den == 1_000_000 * 4_294_967_296
        }),
{
}

/// The detectors are logged or heard only where the setting names exactly that; every
/// other value leaves them off.
pub proof fn law_mode_is_named_exactly(value: Option<Seq<char>>)
    ensures
        mode_named(value) == DetectorMode::Shadow <==> value == Some("shadow"@),
        mode_named(value) == DetectorMode::Hybrid <==> value == Some("hybrid"@),
        value is None ==> mode_named(value) == DetectorMode::Legacy,
{
    reveal_strlit("shadow");
    reveal_strlit("hybrid");
    assert("shadow"@[0] != "hybrid"@[0]);
}

/// A weight above one counts as one.
pub proof fn law_weights_are_bounded(
    d: EwmaDetector,
    x: u64,
    now: Instant,
    warn: u64,
    severe: Option<u64>,
    w: Weights,
)
    ensures
        ({
            let one = 4_294_967_296u64;
            let v = Weights {
                short: if w.short > one {
                    one
                } else {
                    w.short
                },
                long: if w.long > one {
                    one
                } else {
                    w.long
                },
            };
            &&& d.observed(x, now, warn, severe, w) == d.observed(x, now, warn, severe, v)
            &&& d.report(x, now, warn, severe, w) == d.report(x, now, warn, severe, v)
        }),
{
    let one = 4_294_967_296u64;
    let v = Weights {
        short: if w.short > one {
            one
        } else {
            w.short
        },
        long: if w.long > one {
            one
        } else {
            w.long
        },
    };
    assert(bounded(w.short) == bounded(v.short));
    assert(bounded(w.long) == bounded(v.long));
}

/// A fresh detector knows nothing: the next sample, whenever it comes, is its first.
pub proof fn law_fresh_detector_starts_with_the_next_sample(
    x: u64,
    now: Instant,
    warn: u64,
    severe: Option<u64>,
    w: Weights,
)
    ensures
        ({
            let z = detector_zero();
            let e = z.observed(x, now, warn, severe, w);
            &&& !z.latch_active && !z.warmup_done && !z.continuity_broken && z.valid_count == 0
            &&& e.valid_count == 1 && e.last_valid_at == Some(now) && !e.latch_active
            &&& e.short == Some((x * 4_294_967_296) as u128) && e.long == e.short
        }),
{
}

} // verus!
