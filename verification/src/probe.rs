//! The probes: the targets that vote on the connection, and the extra ones that
//! only inform (the gateway among them).
use vstd::prelude::*;
use crate::config::Config;
use crate::detector::{
    detector_zero, DetectorMode, EwmaDetector, ProbeWeights, Report, Weights, AVERAGE_LIMIT,
};
use crate::state::{countable, reduce_target, target_step, LinkState};
use crate::stats::{
    below, latest, latest_of, law_percentile_has_its_rank, percentile_of, present, present_values, stat_zero, sum, total, Baseline,
    BaselineV, LatStat, Ratio, Ring, RingV,
};
use crate::time::Instant;

verus! {

/// Samples that each window of a target holds.
pub const WIN: usize = 120;

/// Samples that the window of an extra probe holds.
pub const EXTRA_WIN: usize = 30;

/// Values that a baseline needs before thresholds follow it.
pub const BASELINE_MIN: usize = 50;

/// A target that takes part in the vote.
#[derive(Clone)]
pub struct PrimaryProbe {
    pub label: String,
    pub host: String,
    pub port: u16,
    pub lat_ring: Ring<Option<u64>>,
    pub loss_ring: Ring<bool>,
    pub jitter_ring: Ring<Option<u64>>,
    pub baseline: Baseline,
    pub stat: LatStat,
    pub last_value: Option<u64>,
    pub prev_rtt_adjacent: Option<u64>,
    pub consec_loss: u32,
    pub cur_loss_burst: u32,
    pub pending_worse: Option<(LinkState, u32)>,
    pub state: LinkState,
    pub state_since: Instant,
    pub total: u64,
    pub lost: u64,
    pub last_target_state: LinkState,
    pub latency_detector: EwmaDetector,
    pub jitter_detector: EwmaDetector,
}

/// What a [`PrimaryProbe`] holds.
#[verifier::ext_equal]
pub struct ProbeV {
    pub label: Seq<char>,
    pub host: Seq<char>,
    pub port: u16,
    pub lat_ring: RingV<Option<u64>>,
    pub loss_ring: RingV<bool>,
    pub jitter_ring: RingV<Option<u64>>,
    pub baseline: BaselineV,
    pub stat: LatStat,
    pub last_value: Option<u64>,
    pub prev_rtt_adjacent: Option<u64>,
    pub consec_loss: u32,
    pub cur_loss_burst: u32,
    pub pending_worse: Option<(LinkState, u32)>,
    pub state: LinkState,
    pub state_since: Instant,
    pub total: u64,
    pub lost: u64,
    pub last_target_state: LinkState,
    pub latency_detector: EwmaDetector,
    pub jitter_detector: EwmaDetector,
}

impl View for PrimaryProbe {
    type V = ProbeV;

    open spec fn view(&self) -> ProbeV {
        ProbeV {
            label: self.label@,
            host: self.host@,
            port: self.port,
            lat_ring: self.lat_ring@,
            loss_ring: self.loss_ring@,
            jitter_ring: self.jitter_ring@,
            baseline: self.baseline@,
            stat: self.stat,
            last_value: self.last_value,
            prev_rtt_adjacent: self.prev_rtt_adjacent,
            consec_loss: self.consec_loss,
            cur_loss_burst: self.cur_loss_burst,
            pending_worse: self.pending_worse,
            state: self.state,
            state_since: self.state_since,
            total: self.total,
            lost: self.lost,
            last_target_state: self.last_target_state,
            latency_detector: self.latency_detector,
            jitter_detector: self.jitter_detector,
        }
    }
}

/// A target that has seen nothing yet.
pub open spec fn probe_new(label: Seq<char>, host: Seq<char>, port: u16, now: Instant) -> ProbeV {
    ProbeV {
        label,
        host,
        port,
        lat_ring: RingV::empty(WIN as nat),
        loss_ring: RingV::empty(WIN as nat),
        jitter_ring: RingV::empty(WIN as nat),
        baseline: BaselineV::empty(),
        stat: stat_zero(),
        last_value: None,
        prev_rtt_adjacent: None,
        consec_loss: 0,
        cur_loss_burst: 0,
        pending_worse: None,
        state: LinkState::Up,
        state_since: now,
        total: 0,
        lost: 0,
        last_target_state: LinkState::Up,
        latency_detector: detector_zero(),
        jitter_detector: detector_zero(),
    }
}

/// What a detector watches.
#[derive(Clone, Copy, PartialEq, Eq, Structural, Debug)]
pub enum Metric {
    Latency,
    Jitter,
}

/// A latch of a detector that opened or closed; `short` is in grains.
#[derive(Clone, Copy, PartialEq, Eq, Structural, Debug)]
pub struct ShadowEvent {
    pub ts: Instant,
    pub metric: Metric,
    pub old_latch: bool,
    pub new_latch: bool,
    pub ratio: Ratio,
    pub short: u128,
}

/// The ratio of a latch event has a denominator, and all fits.
pub open spec fn sound_ratio(e: ShadowEvent) -> bool {
    0 < e.ratio.den <= AVERAGE_LIMIT && e.ratio.num <= AVERAGE_LIMIT && e.short <= AVERAGE_LIMIT
}

/// The latch events of one report: one if the latch moved, else none.
pub open spec fn latch_events(old_latch: bool, r: Report, ts: Instant, metric: Metric) -> Seq<
    ShadowEvent,
> {
    if old_latch == r.0 {
        Seq::empty()
    } else {
        seq![
            ShadowEvent {
                ts,
                metric,
                old_latch,
                new_latch: r.0,
                ratio: r.2,
                short: match r.1 {
                    Some(s) => s,
                    None => 0,
                },
            },
        ]
    }
}

/// What one sample of a target brought.
pub struct Sampled {
    pub candidate: LinkState,
    pub jitter: Option<u64>,
    pub shadow: Vec<ShadowEvent>,
}

/// The distance of two values.
pub open spec fn distance(a: u64, b: u64) -> u64 {
    if a >= b {
        (a - b) as u64
    } else {
        (b - a) as u64
    }
}

/// The larger of two numbers.
pub open spec fn max_nat(a: nat, b: nat) -> nat {
    if a >= b {
        a
    } else {
        b
    }
}

/// Twice the latency that nine of ten samples stay below.
pub open spec fn twice(v: Option<u64>) -> nat {
    match v {
        Some(x) => 2 * x as nat,
        None => 0,
    }
}

/// Five times the jitter that nine of ten samples stay below.
pub open spec fn five_times(v: Option<u64>) -> nat {
    match v {
        Some(x) => 5 * x as nat,
        None => 0,
    }
}

impl ProbeV {
    /// Counters that fit each other.
    pub open spec fn wf(self) -> bool {
        &&& self.stat.wf()
        &&& self.stat.count <= self.total
        &&& self.lost <= self.total
        &&& countable(self.pending_worse)
        &&& self.latency_detector.wf()
        &&& self.jitter_detector.wf()
    }

    /// Every counter can be raised once more.
    pub open spec fn has_room(self) -> bool {
        &&& self.total < u64::MAX
        &&& self.consec_loss < u32::MAX
        &&& self.cur_loss_burst < u32::MAX
        &&& self.latency_detector.valid_count < u32::MAX
        &&& self.jitter_detector.valid_count < u32::MAX
    }

    /// The jitter of a round trip: its distance from the one just before it. After
    /// a loss there is none.
    pub open spec fn jitter(self, rtt: Option<u64>) -> Option<u64> {
        match (rtt, self.prev_rtt_adjacent) {
            (Some(v), Some(p)) => Some(distance(v, p)),
            _ => None,
        }
    }

    /// The target with one more sample in its windows and counters.
    pub open spec fn recorded(self, rtt: Option<u64>) -> ProbeV {
        let seen = ProbeV {
            total: (self.total + 1) as u64,
            lat_ring: self.lat_ring.pushed(rtt),
            loss_ring: self.loss_ring.pushed(rtt is None),
            jitter_ring: self.jitter_ring.pushed(self.jitter(rtt)),
            last_value: rtt,
            prev_rtt_adjacent: rtt,
            ..self
        };
        match rtt {
            Some(v) => ProbeV {
                stat: self.stat.added(v),
                cur_loss_burst: 0,
                consec_loss: 0,
                ..seen
            },
            None => ProbeV {
                lost: (self.lost + 1) as u64,
                consec_loss: (self.consec_loss + 1) as u32,
                cur_loss_burst: (self.cur_loss_burst + 1) as u32,
                ..seen
            },
        }
    }

    /// The latency above which the target counts as bad: the floor, or twice the
    /// baseline where that is known and higher.
    pub open spec fn latency_threshold(self, cfg: Config) -> nat {
        if self.baseline.latencies.len() >= BASELINE_MIN {
            max_nat(twice(percentile_of(self.baseline.latencies, 90)), cfg.latency_warn_ns as nat)
        } else {
            cfg.latency_warn_ns as nat
        }
    }

    /// Twice the jitter above which the target counts as bad: twice the floor, or
    /// five times the baseline where that is known and higher.
    pub open spec fn jitter_threshold_twice(self, cfg: Config) -> nat {
        if self.baseline.jitters.len() >= BASELINE_MIN {
            max_nat(
                five_times(percentile_of(self.baseline.jitters, 90)),
                2 * cfg.jitter_warn_ns as nat,
            )
        } else {
            2 * cfg.jitter_warn_ns as nat
        }
    }

    /// How many of the latest samples the verdict looks at.
    pub open spec fn window(self, cfg: Config) -> nat {
        if self.lat_ring.items.len() < cfg.state_window {
            self.lat_ring.items.len()
        } else {
            cfg.state_window as nat
        }
    }

    /// The verdict on the latest samples: is the target bad, and is it down?
    ///
    /// Fewer than five samples are no evidence. It is down when too many were
    /// lost, and bad when many were lost or when the mean latency or the mean
    /// jitter exceeds its threshold.
    pub open spec fn verdict(self, cfg: Config) -> (bool, bool) {
        let n = self.window(cfg);
        let lats = present(latest(self.lat_ring.items, n));
        let jits = present(latest(self.jitter_ring.items, n));
        let losses = n - lats.len();
        if n < 5 {
            (false, false)
        } else {
            (
                losses * 1_000_000 >= cfg.degraded_loss_ppm * n || total(lats)
                    > self.latency_threshold(cfg) * max_nat(lats.len(), 1) || 2 * total(jits)
                    > self.jitter_threshold_twice(cfg) * max_nat(jits.len(), 1),
                losses * 1_000_000 >= cfg.down_loss_ppm * n,
            )
        }
    }

    /// The target with its detectors fed.
    pub open spec fn detected(
        self,
        rtt: Option<u64>,
        jit: Option<u64>,
        cfg: Config,
        now: Instant,
        w: ProbeWeights,
    ) -> ProbeV {
        ProbeV {
            latency_detector: fed(
                self.latency_detector,
                rtt,
                now,
                cfg.latency_warn_ns,
                Some(cfg.latency_bad_ns),
                w.latency,
            ),
            jitter_detector: fed(
                self.jitter_detector,
                jit,
                now,
                cfg.jitter_warn_ns,
                None,
                w.jitter,
            ),
            ..self
        }
    }

    /// The target after the candidate state has been weighed, and after the
    /// samples of a healthy round have entered the baseline.
    pub open spec fn settled(
        self,
        candidate: LinkState,
        rtt: Option<u64>,
        jit: Option<u64>,
        cfg: Config,
        now: Instant,
    ) -> ProbeV {
        let next = target_step(
            self.state,
            Some(candidate),
            self.pending_worse,
            cfg.hysteresis_bad,
        );
        let with_latency = if candidate == LinkState::Up && rtt is Some {
            self.baseline.with_latency(rtt->0)
        } else {
            self.baseline
        };
        let with_both = if candidate == LinkState::Up && jit is Some {
            with_latency.with_jitter(jit->0)
        } else {
            with_latency
        };
        ProbeV {
            last_target_state: self.state,
            state: next.0,
            state_since: if next.0 != self.state {
                now
            } else {
                self.state_since
            },
            pending_worse: next.1,
            baseline: with_both,
            ..self
        }
    }

    /// What the latency detector reports of a round trip.
    pub open spec fn heard_latency(
        self,
        rtt: Option<u64>,
        cfg: Config,
        now: Instant,
        w: ProbeWeights,
    ) -> Report {
        fed_report(
            self.latency_detector,
            rtt,
            now,
            cfg.latency_warn_ns,
            Some(cfg.latency_bad_ns),
            w.latency,
        )
    }

    /// What the jitter detector reports of a jitter, which is never severe.
    pub open spec fn heard_jitter(
        self,
        jit: Option<u64>,
        cfg: Config,
        now: Instant,
        w: ProbeWeights,
    ) -> Report {
        fed_report(self.jitter_detector, jit, now, cfg.jitter_warn_ns, None, w.jitter)
    }

    /// The state that a sample speaks for: Down or Degraded by the verdict on the
    /// window, Degraded also by a latch where the detectors have a say.
    #[verifier::opaque]
    pub open spec fn candidate(
        self,
        rtt: Option<u64>,
        cfg: Config,
        mode: DetectorMode,
        now: Instant,
        w: ProbeWeights,
    ) -> LinkState {
        let verdict = self.recorded(rtt).verdict(cfg);
        let latched = self.heard_latency(rtt, cfg, now, w).0 || self.heard_jitter(
            self.jitter(rtt),
            cfg,
            now,
            w,
        ).0;
        if verdict.1 {
            LinkState::Down
        } else if verdict.0 || (mode == DetectorMode::Hybrid && latched) {
            LinkState::Degraded
        } else {
            LinkState::Up
        }
    }

    /// The latches that a sample moves, where the detectors are logged.
    #[verifier::opaque]
    pub open spec fn shadow(
        self,
        rtt: Option<u64>,
        cfg: Config,
        mode: DetectorMode,
        now: Instant,
        w: ProbeWeights,
    ) -> Seq<ShadowEvent> {
        if mode == DetectorMode::Shadow {
            latch_events(
                self.latency_detector.latch_active,
                self.heard_latency(rtt, cfg, now, w),
                now,
                Metric::Latency,
            ) + latch_events(
                self.jitter_detector.latch_active,
                self.heard_jitter(self.jitter(rtt), cfg, now, w),
                now,
                Metric::Jitter,
            )
        } else {
            Seq::empty()
        }
    }

    /// The target after one sample.
    #[verifier::opaque]
    pub open spec fn sampled(
        self,
        rtt: Option<u64>,
        cfg: Config,
        mode: DetectorMode,
        now: Instant,
        w: ProbeWeights,
    ) -> ProbeV {
        let jit = self.jitter(rtt);
        let heard = if mode == DetectorMode::Legacy {
            self.recorded(rtt)
        } else {
            self.recorded(rtt).detected(rtt, jit, cfg, now, w)
        };
        heard.settled(self.candidate(rtt, cfg, mode, now, w), rtt, jit, cfg, now)
    }
}

/// A detector that was given a sample, or told of a missing one.
pub open spec fn fed(
    d: EwmaDetector,
    x: Option<u64>,
    now: Instant,
    warn: u64,
    severe: Option<u64>,
    w: Weights,
) -> EwmaDetector {
    match x {
        Some(v) => d.observed(v, now, warn, severe, w),
        None => EwmaDetector { continuity_broken: true, ..d },
    }
}

/// What a detector reports of a sample, or of a missing one.
pub open spec fn fed_report(
    d: EwmaDetector,
    x: Option<u64>,
    now: Instant,
    warn: u64,
    severe: Option<u64>,
    w: Weights,
) -> Report {
    match x {
        Some(v) => d.report(v, now, warn, severe, w),
        None => (d.latch_active, None, Ratio { num: 0, den: 1 }, false),
    }
}

fn feed(
    d: &mut EwmaDetector,
    x: Option<u64>,
    now: Instant,
    warn: u64,
    severe: Option<u64>,
    w: Weights,
) -> (r: Report)
    requires
        old(d).wf(),
        x is Some ==> old(d).takes_sample(now),
    ensures
        final(d).wf(),
        *final(d) == fed(*old(d), x, now, warn, severe, w),
        r == fed_report(*old(d), x, now, warn, severe, w),
{
    match x {
        Some(v) => d.observe(v, now, warn, severe, w),
        None => {
            d.mark_gap();
            (d.latch_active, None, Ratio { num: 0, den: 1 }, false)
        },
    }
}

/// Whether `sum / n` exceeds half of `twice`, where no samples count as a mean of
/// zero.
fn mean_exceeds(sum: u128, n: u128, twice: u128) -> (r: bool)
    requires
        n == 0 ==> sum == 0,
        n <= u64::MAX,
    ensures
        r == (2 * sum > twice * max_nat(n as nat, 1)),
{
    if n == 0 {
        proof {
            assert(twice * 1 >= 0) by (nonlinear_arith)
                requires
                    twice >= 0,
            ;
        }
        return false;
    }
    let q: u128 = sum / n;
    let rem: u128 = sum % n;
    let h: u128 = twice / 2;
    let odd = twice % 2 == 1;
    proof {
        assert(sum == q * n + rem && 0 <= rem < n) by (nonlinear_arith)
            requires
                q == sum / n,
                rem == sum % n,
                n > 0,
        ;
        assert(twice * n == 2 * (h * n) + (twice % 2) * n) by (nonlinear_arith)
            requires
                twice == 2 * h + twice % 2,
        ;
        assert(0 * n == 0 && 1 * n == n);
        if q > h {
            assert(q * n >= (h + 1) * n) by (nonlinear_arith)
                requires
                    q >= h + 1,
                    n > 0,
            ;
            assert((h + 1) * n == h * n + n) by (nonlinear_arith);
        } else if q < h {
            assert((q + 1) * n <= h * n) by (nonlinear_arith)
                requires
                    q + 1 <= h,
                    n > 0,
            ;
            assert((q + 1) * n == q * n + n) by (nonlinear_arith);
        }
    }
    q > h || (q == h && (if odd {
        2 * rem > n
    } else {
        rem > 0
    }))
}

impl PrimaryProbe {
    pub open spec fn wf(&self) -> bool {
        self@.wf()
    }

    pub fn new(label: &str, host: &str, port: u16, now: Instant) -> (p: Self)
        ensures
            p@ == probe_new(label@, host@, port, now),
            p.wf(),
    {
        let p = PrimaryProbe {
            label: String::from_str(label),
            host: String::from_str(host),
            port,
            lat_ring: Ring::new(WIN),
            loss_ring: Ring::new(WIN),
            jitter_ring: Ring::new(WIN),
            baseline: Baseline::new(),
            stat: LatStat::default(),
            last_value: None,
            prev_rtt_adjacent: None,
            consec_loss: 0,
            cur_loss_burst: 0,
            pending_worse: None,
            state: LinkState::Up,
            state_since: now,
            total: 0,
            lost: 0,
            last_target_state: LinkState::Up,
            latency_detector: EwmaDetector::new(),
            jitter_detector: EwmaDetector::new(),
        };
        p
    }

    /// Forgets everything but the name and the address of the target.
    pub fn reset(&mut self, now: Instant)
        ensures
            final(self)@ == probe_new(old(self)@.label, old(self)@.host, old(self)@.port, now),
            final(self).wf(),
    {
        self.lat_ring = Ring::new(WIN);
        self.loss_ring = Ring::new(WIN);
        self.jitter_ring = Ring::new(WIN);
        self.baseline = Baseline::new();
        self.stat = LatStat::default();
        self.last_value = None;
        self.prev_rtt_adjacent = None;
        self.consec_loss = 0;
        self.cur_loss_burst = 0;
        self.pending_worse = None;
        self.state = LinkState::Up;
        self.state_since = now;
        self.last_target_state = LinkState::Up;
        self.total = 0;
        self.lost = 0;
        self.latency_detector.reset();
        self.jitter_detector.reset();
    }

    /// Enters one sample and returns its jitter.
    pub fn record(&mut self, rtt: Option<u64>) -> (jit: Option<u64>)
        requires
            old(self).wf(),
            old(self)@.has_room(),
        ensures
            final(self).wf(),
            final(self)@ == old(self)@.recorded(rtt),
            jit == old(self)@.jitter(rtt),
    {
        self.total = self.total + 1;
        self.lat_ring.push(rtt);
        self.loss_ring.push(rtt.is_none());
        match rtt {
            Some(v) => {
                self.stat.add(v);
                self.last_value = Some(v);
                let j: Option<u64> = match self.prev_rtt_adjacent {
                    Some(p) => Some(
                        if v >= p {
                            v - p
                        } else {
                            p - v
                        },
                    ),
                    None => None,
                };
                self.prev_rtt_adjacent = Some(v);
                self.jitter_ring.push(j);
                self.cur_loss_burst = 0;
                self.consec_loss = 0;
                j
            },
            None => {
                self.lost = self.lost + 1;
                self.consec_loss = self.consec_loss + 1;
                self.cur_loss_burst = self.cur_loss_burst + 1;
                self.last_value = None;
                self.prev_rtt_adjacent = None;
                self.jitter_ring.push(None);
                None
            },
        }
    }

    /// The latency and the jitter threshold in nanoseconds and the two loss
    /// thresholds in parts per million.
    pub fn adaptive_thresholds(&self, cfg: &Config) -> (r: (u128, Ratio, u64, u64))
        ensures
            r.0 == self@.latency_threshold(*cfg),
            r.0 <= 2 * u64::MAX,
            r.1.num == self@.jitter_threshold_twice(*cfg),
            r.1.den == 2,
            r.2 == cfg.degraded_loss_ppm,
            r.3 == cfg.down_loss_ppm,
    {
        let mut lat: u128 = cfg.latency_warn_ns as u128;
        if self.baseline.latency_len() >= BASELINE_MIN {
            if let Some(p90) = self.baseline.lat_p90() {
                let t: u128 = 2 * (p90 as u128);
                if t > lat {
                    lat = t;
                }
            }
        }
        let mut jit: u128 = 2 * (cfg.jitter_warn_ns as u128);
        if self.baseline.jitter_len() >= BASELINE_MIN {
            if let Some(p90) = self.baseline.jit_p90() {
                let t: u128 = 5 * (p90 as u128);
                if t > jit {
                    jit = t;
                }
            }
        }
        (lat, Ratio { num: jit, den: 2 }, cfg.degraded_loss_ppm, cfg.down_loss_ppm)
    }

    /// Whether the latest samples are bad, and whether they mean down.
    pub fn classify(&self, cfg: &Config) -> (r: (bool, bool))
        ensures
            r == self@.verdict(*cfg),
    {
        let len: usize = self.lat_ring.len();
        let n: usize = if len < cfg.state_window {
            len
        } else {
            cfg.state_window
        };
        if n < 5 {
            return (false, false);
        }
        let win = latest_of(&self.lat_ring.as_vec(), n);
        let lats = present_values(&win);
        let losses: usize = n - lats.len();
        let jits = present_values(&latest_of(&self.jitter_ring.as_vec(), n));
        let (lat_t, jit_t, loss_t, down_t) = self.adaptive_thresholds(cfg);
        let lat_sum: u128 = sum(&lats);
        let jit_sum: u128 = sum(&jits);
        proof {
            assert(loss_t * n <= u64::MAX * u64::MAX && down_t * n <= u64::MAX * u64::MAX)
                by (nonlinear_arith)
                requires
                    loss_t <= u64::MAX,
                    down_t <= u64::MAX,
                    n <= u64::MAX,
            ;
        }
        let lost: u128 = (losses as u128) * 1_000_000;
        proof {
            let k = max_nat(lats@.len(), 1);
            assert(2 * lat_t * k == 2 * (lat_t * k)) by (nonlinear_arith);
        }
        let is_bad = lost >= (loss_t as u128) * (n as u128) || mean_exceeds(
            lat_sum,
            lats.len() as u128,
            2 * lat_t,
        ) || mean_exceeds(jit_sum, jits.len() as u128, jit_t.num);
        let is_down = lost >= (down_t as u128) * (n as u128);
        (is_bad, is_down)
    }

    /// Feeds both detectors and returns what they report.
    pub fn detect(
        &mut self,
        rtt: Option<u64>,
        jit: Option<u64>,
        cfg: &Config,
        now: Instant,
        w: ProbeWeights,
    ) -> (r: (Report, Report))
        requires
            old(self).wf(),
            rtt is Some ==> old(self).latency_detector.takes_sample(now),
            jit is Some ==> old(self).jitter_detector.takes_sample(now),
        ensures
            final(self).wf(),
            final(self)@ == old(self)@.detected(rtt, jit, *cfg, now, w),
            r.0 == old(self)@.heard_latency(rtt, *cfg, now, w),
            r.1 == old(self)@.heard_jitter(jit, *cfg, now, w),
    {
        let lat = feed(
            &mut self.latency_detector,
            rtt,
            now,
            cfg.latency_warn_ns,
            Some(cfg.latency_bad_ns),
            w.latency,
        );
        let jitter = feed(
            &mut self.jitter_detector,
            jit,
            now,
            cfg.jitter_warn_ns,
            None,
            w.jitter,
        );
        (lat, jitter)
    }

    /// Weighs the candidate state; a healthy round enters the baseline.
    pub fn settle(
        &mut self,
        candidate: LinkState,
        rtt: Option<u64>,
        jit: Option<u64>,
        cfg: &Config,
        now: Instant,
    )
        requires
            old(self).wf(),
        ensures
            final(self).wf(),
            final(self)@ == old(self)@.settled(candidate, rtt, jit, *cfg, now),
    {
        self.last_target_state = self.state;
        let (new_state, new_pending) = reduce_target(
            self.state,
            Some(candidate),
            self.pending_worse,
            cfg.hysteresis_bad,
        );
        if new_state != self.state {
            self.state = new_state;
            self.state_since = now;
        }
        self.pending_worse = new_pending;
        if candidate == LinkState::Up {
            if let Some(v) = rtt {
                self.baseline.push_latency(v);
            }
            if let Some(j) = jit {
                self.baseline.push_jitter(j);
            }
        }
    }
}

/// Appends the event of a latch that moved.
fn note_latch(
    shadow: &mut Vec<ShadowEvent>,
    old_latch: bool,
    r: Report,
    ts: Instant,
    metric: Metric,
)
    ensures
        final(shadow)@ == old(shadow)@ + latch_events(old_latch, r, ts, metric),
{
    if old_latch != r.0 {
        let short: u128 = match r.1 {
            Some(s) => s,
            None => 0,
        };
        shadow.push(ShadowEvent { ts, metric, old_latch, new_latch: r.0, ratio: r.2, short });
    }
    proof {
        assert(shadow@ =~= old(shadow)@ + latch_events(old_latch, r, ts, metric));
    }
}

impl PrimaryProbe {
    /// Feeds the detectors where they are used. Returns whether a latch holds, and
    /// the latches that moved where they are logged.
    fn listen(
        &mut self,
        rtt: Option<u64>,
        jit: Option<u64>,
        cfg: &Config,
        mode: DetectorMode,
        now: Instant,
        w: ProbeWeights,
    ) -> (r: (bool, Vec<ShadowEvent>))
        requires
            old(self).wf(),
            rtt is Some ==> old(self).latency_detector.takes_sample(now),
            jit is Some ==> old(self).jitter_detector.takes_sample(now),
        ensures
            final(self).wf(),
            final(self)@ == (if mode == DetectorMode::Legacy {
                old(self)@
            } else {
                old(self)@.detected(rtt, jit, *cfg, now, w)
            }),
            r.0 == (mode != DetectorMode::Legacy && (old(self)@.heard_latency(
                rtt,
                *cfg,
                now,
                w,
            ).0 || old(self)@.heard_jitter(jit, *cfg, now, w).0)),
            r.1@ == (if mode == DetectorMode::Shadow {
                latch_events(
                    old(self)@.latency_detector.latch_active,
                    old(self)@.heard_latency(rtt, *cfg, now, w),
                    now,
                    Metric::Latency,
                ) + latch_events(
                    old(self)@.jitter_detector.latch_active,
                    old(self)@.heard_jitter(jit, *cfg, now, w),
                    now,
                    Metric::Jitter,
                )
            } else {
                Seq::empty()
            }),
            forall|i: int| 0 <= i < r.1@.len() ==> sound_ratio(#[trigger] r.1@[i]),
    {
        let lat_old = self.latency_detector.latch_active;
        let jit_old = self.jitter_detector.latch_active;
        let mut shadow: Vec<ShadowEvent> = Vec::new();
        let mut latched = false;
        if mode != DetectorMode::Legacy {
            let (lat, jit) = self.detect(rtt, jit, cfg, now, w);
            if mode == DetectorMode::Shadow {
                note_latch(&mut shadow, lat_old, lat, now, Metric::Latency);
                note_latch(&mut shadow, jit_old, jit, now, Metric::Jitter);
            }
            latched = lat.0 || jit.0;
        }
        (latched, shadow)
    }

    /// Takes in one sample: windows, verdict, detectors, state and baseline.
    pub fn sample(
        &mut self,
        rtt: Option<u64>,
        cfg: &Config,
        mode: DetectorMode,
        now: Instant,
        w: ProbeWeights,
    ) -> (r: Sampled)
        requires
            old(self).wf(),
            old(self)@.has_room(),
        ensures
            final(self).wf(),
            final(self)@ == old(self)@.sampled(rtt, *cfg, mode, now, w),
            r.candidate == old(self)@.candidate(rtt, *cfg, mode, now, w),
            r.jitter == old(self)@.jitter(rtt),
            r.shadow@ == old(self)@.shadow(rtt, *cfg, mode, now, w),
            forall|i: int| 0 <= i < r.shadow@.len() ==> sound_ratio(#[trigger] r.shadow@[i]),
            final(self)@.total == old(self)@.total + 1,
    {
        proof {
            reveal(ProbeV::sampled);
            reveal(ProbeV::candidate);
            reveal(ProbeV::shadow);
        }
        let jitter = self.record(rtt);
        let (is_bad, is_down) = self.classify(cfg);
        let (latched, shadow) = self.listen(rtt, jitter, cfg, mode, now, w);
        let candidate = if is_down {
            LinkState::Down
        } else if is_bad || (mode == DetectorMode::Hybrid && latched) {
            LinkState::Degraded
        } else {
            LinkState::Up
        };
        self.settle(candidate, rtt, jitter, cfg, now);
        Sampled { candidate, jitter, shadow }
    }
}

// -------------------------------------------------------------------- extras

/// A probe that informs but does not vote.
#[derive(Clone)]
pub struct ExtraProbe {
    pub label: String,
    pub host: String,
    pub port: u16,
    pub last: Option<u64>,
    pub state: LinkState,
    pub total: u64,
    pub lost: u64,
    pub ring: Ring<Option<u64>>,
    pub consec_loss: u32,
    pub last_sample_at: Option<Instant>,
}

/// What an [`ExtraProbe`] holds.
#[verifier::ext_equal]
pub struct ExtraV {
    pub label: Seq<char>,
    pub host: Seq<char>,
    pub port: u16,
    pub last: Option<u64>,
    pub state: LinkState,
    pub total: u64,
    pub lost: u64,
    pub ring: RingV<Option<u64>>,
    pub consec_loss: u32,
    pub last_sample_at: Option<Instant>,
}

impl View for ExtraProbe {
    type V = ExtraV;

    open spec fn view(&self) -> ExtraV {
        ExtraV {
            label: self.label@,
            host: self.host@,
            port: self.port,
            last: self.last,
            state: self.state,
            total: self.total,
            lost: self.lost,
            ring: self.ring@,
            consec_loss: self.consec_loss,
            last_sample_at: self.last_sample_at,
        }
    }
}

/// An extra probe that has seen nothing yet.
pub open spec fn extra_new(label: Seq<char>, host: Seq<char>, port: u16) -> ExtraV {
    ExtraV {
        label,
        host,
        port,
        last: None,
        state: LinkState::Up,
        total: 0,
        lost: 0,
        ring: RingV::empty(EXTRA_WIN as nat),
        consec_loss: 0,
        last_sample_at: None,
    }
}

impl ExtraV {
    pub open spec fn wf(self) -> bool {
        self.lost <= self.total
    }

    /// Every counter can be raised once more.
    pub open spec fn has_room(self) -> bool {
        &&& self.total < u64::MAX
        &&& self.consec_loss < u32::MAX
    }

    /// The probe with one more sample: an answer makes it Up, the second loss in a
    /// row Down.
    pub open spec fn sampled(self, rtt: Option<u64>, now: Instant) -> ExtraV {
        let seen = ExtraV {
            total: (self.total + 1) as u64,
            last_sample_at: Some(now),
            ring: self.ring.pushed(rtt),
            ..self
        };
        match rtt {
            Some(v) => ExtraV {
                last: Some(v),
                consec_loss: 0,
                state: if self.state == LinkState::Down {
                    LinkState::Up
                } else {
                    self.state
                },
                ..seen
            },
            None => ExtraV {
                lost: (self.lost + 1) as u64,
                consec_loss: (self.consec_loss + 1) as u32,
                state: if self.consec_loss + 1 >= 2 {
                    LinkState::Down
                } else {
                    self.state
                },
                ..seen
            },
        }
    }
}

impl ExtraProbe {
    pub open spec fn wf(&self) -> bool {
        self@.wf()
    }

    pub fn new(label: &str, host: &str, port: u16) -> (e: Self)
        ensures
            e@ == extra_new(label@, host@, port),
    {
        ExtraProbe {
            label: String::from_str(label),
            host: String::from_str(host),
            port,
            last: None,
            state: LinkState::Up,
            total: 0,
            lost: 0,
            ring: Ring::new(EXTRA_WIN),
            consec_loss: 0,
            last_sample_at: None,
        }
    }

    /// Forgets everything but the name and the address.
    pub fn reset(&mut self)
        ensures
            final(self)@ == extra_new(old(self)@.label, old(self)@.host, old(self)@.port),
    {
        self.last = None;
        self.state = LinkState::Up;
        self.total = 0;
        self.lost = 0;
        self.consec_loss = 0;
        self.ring = Ring::new(EXTRA_WIN);
        self.last_sample_at = None;
    }

    /// Enters one sample.
    pub fn sample(&mut self, rtt: Option<u64>, now: Instant)
        requires
            old(self).wf(),
            old(self)@.has_room(),
        ensures
            final(self).wf(),
            final(self)@ == old(self)@.sampled(rtt, now),
    {
        self.total = self.total + 1;
        self.last_sample_at = Some(now);
        self.ring.push(rtt);
        match rtt {
            Some(v) => {
                self.last = Some(v);
                self.consec_loss = 0;
                if self.state == LinkState::Down {
                    self.state = LinkState::Up;
                }
            },
            None => {
                self.lost = self.lost + 1;
                self.consec_loss = self.consec_loss + 1;
                if self.consec_loss >= 2 && self.state != LinkState::Down {
                    self.state = LinkState::Down;
                }
            },
        }
    }
}

// --------------------------------------------------------------------- laws

/// The first answer after a loss has no jitter: only adjacent answers are
/// compared.
pub proof fn law_no_jitter_across_a_loss(p: ProbeV, v: u64)
    ensures
        p.recorded(None).jitter(Some(v)) is None,
        p.recorded(None).last_value is None,
        p.recorded(None).prev_rtt_adjacent is None,
{
}

/// Thresholds never fall below the configured floors.
pub proof fn law_thresholds_respect_the_floor(p: ProbeV, cfg: Config)
    ensures
        p.latency_threshold(cfg) >= cfg.latency_warn_ns,
        p.jitter_threshold_twice(cfg) >= 2 * cfg.jitter_warn_ns,
{
}

/// Latency and jitter baselines count on their own: the threshold of one does not
/// depend on the baseline of the other.
pub proof fn law_baselines_are_independent(p: ProbeV, q: ProbeV, cfg: Config)
    ensures
        p.baseline.latencies == q.baseline.latencies ==> p.latency_threshold(cfg)
            == q.latency_threshold(cfg),
        p.baseline.jitters == q.baseline.jitters ==> p.jitter_threshold_twice(cfg)
            == q.jitter_threshold_twice(cfg),
{
}

/// A round that is not healthy leaves the baseline as it is.
pub proof fn law_bad_rounds_do_not_teach(
    p: ProbeV,
    candidate: LinkState,
    rtt: Option<u64>,
    jit: Option<u64>,
    cfg: Config,
    now: Instant,
)
    requires
        candidate != LinkState::Up,
    ensures
        p.settled(candidate, rtt, jit, cfg, now).baseline == p.baseline,
{
}

/// When nothing but losses is in the window the target is both bad and down, and
/// neither latency nor jitter plays a part.
pub proof fn law_all_lost_is_down(p: ProbeV, cfg: Config)
    requires
        cfg.degraded_loss_ppm <= 1_000_000,
        cfg.down_loss_ppm <= 1_000_000,
        p.window(cfg) >= 5,
        present(latest(p.lat_ring.items, p.window(cfg))).len() == 0,
    ensures
        p.verdict(cfg) == (true, true),
{
    let n = p.window(cfg);
    assert(cfg.degraded_loss_ppm * n <= 1_000_000 * n && cfg.down_loss_ppm * n <= 1_000_000 * n)
        by (nonlinear_arith)
        requires
            cfg.degraded_loss_ppm <= 1_000_000,
            cfg.down_loss_ppm <= 1_000_000,
            n >= 0,
    ;
}

/// Many losses make a target bad, and more of them make it down. With five samples in
/// the window it is down exactly when the share of the lost ones reaches the limit for
/// that, and bad where their share reaches the lower limit.
pub proof fn law_loss_share_decides(p: ProbeV, cfg: Config, n: nat)
    requires
        n == p.lat_ring.items.len() || n == cfg.state_window,
        n <= p.lat_ring.items.len(),
        n <= cfg.state_window,
        n >= 5,
    ensures
        ({
            let recent = p.lat_ring.items.skip(p.lat_ring.items.len() - n);
            let lost = n - present(recent).len();
            &&& p.verdict(cfg).1 <==> lost * 1_000_000 >= cfg.down_loss_ppm * n
            &&& lost * 1_000_000 >= cfg.degraded_loss_ppm * n ==> p.verdict(cfg).0
        }),
{
    lemma_window(p, cfg, n);
}

proof fn lemma_window(p: ProbeV, cfg: Config, n: nat)
    requires
        n == p.lat_ring.items.len() || n == cfg.state_window,
        n <= p.lat_ring.items.len(),
        n <= cfg.state_window,
    ensures
        p.window(cfg) == n,
        latest(p.lat_ring.items, n) == p.lat_ring.items.skip(p.lat_ring.items.len() - n),
{
    assert(p.lat_ring.items.skip(0) =~= p.lat_ring.items);
}

/// A high mean makes a target bad. With at least five samples in the window, a target
/// whose answers there take longer on the mean than its threshold is bad, and so is
/// one whose jitters there exceed their threshold on the mean.
pub proof fn law_high_mean_is_bad(p: ProbeV, cfg: Config, n: nat)
    requires
        n == p.lat_ring.items.len() || n == cfg.state_window,
        n <= p.lat_ring.items.len(),
        n <= cfg.state_window,
        n >= 5,
    ensures
        ({
            let answers = present(p.lat_ring.items.skip(p.lat_ring.items.len() - n));
            let jitters = present(latest(p.jitter_ring.items, n));
            &&& total(answers) > p.latency_threshold(cfg) * answers.len() ==> p.verdict(cfg).0
            &&& 2 * total(jitters) > p.jitter_threshold_twice(cfg) * jitters.len() ==> p.verdict(
                cfg,
            ).0
        }),
{
    lemma_window(p, cfg, n);
    let answers = present(p.lat_ring.items.skip(p.lat_ring.items.len() - n));
    let jitters = present(latest(p.jitter_ring.items, n));
    lemma_mean_of_some(answers, p.latency_threshold(cfg));
    lemma_mean_of_some(jitters, p.jitter_threshold_twice(cfg));
}

proof fn lemma_mean_of_some(s: Seq<u64>, limit: nat)
    ensures
        s.len() == 0 ==> total(s) == 0,
        limit * max_nat(s.len(), 1) >= limit * s.len(),
        s.len() > 0 ==> limit * max_nat(s.len(), 1) == limit * s.len(),
{
    assert(limit * 1 >= limit * 0);
}

/// Where neither the losses nor the mean latency nor the mean jitter is too high, a
/// target is not bad; with fewer than five samples in the window it is neither bad nor
/// down, whatever they are.
pub proof fn law_nothing_else_is_bad(p: ProbeV, cfg: Config, n: nat)
    requires
        n == p.lat_ring.items.len() || n == cfg.state_window,
        n <= p.lat_ring.items.len(),
        n <= cfg.state_window,
    ensures
        n < 5 ==> !p.verdict(cfg).0 && !p.verdict(cfg).1,
        ({
            let answers = present(p.lat_ring.items.skip(p.lat_ring.items.len() - n));
            let jitters = present(latest(p.jitter_ring.items, n));
            (n - answers.len()) * 1_000_000 < cfg.degraded_loss_ppm * n && total(answers)
                <= p.latency_threshold(cfg) * answers.len() && 2 * total(jitters)
                <= p.jitter_threshold_twice(cfg) * jitters.len() ==> !p.verdict(cfg).0
        }),
{
    lemma_window(p, cfg, n);
    let answers = present(p.lat_ring.items.skip(p.lat_ring.items.len() - n));
    let jitters = present(latest(p.jitter_ring.items, n));
    lemma_mean_of_some(answers, p.latency_threshold(cfg));
    lemma_mean_of_some(jitters, p.jitter_threshold_twice(cfg));
}

proof fn lemma_total_above(s: Seq<Option<u64>>, limit: nat)
    requires
        forall|i: int| 0 <= i < s.len() && (#[trigger] s[i]) is Some ==> s[i]->0 > limit,
    ensures
        total(present(s)) >= limit * present(s).len() + present(s).len(),
        (exists|i: int| 0 <= i < s.len() && (#[trigger] s[i]) is Some) ==> present(s).len() > 0,
    decreases s.len(),
{
    if s.len() > 0 {
        let d = s.drop_last();
        assert forall|i: int| 0 <= i < d.len() && (#[trigger] d[i]) is Some implies d[i]->0
            > limit by {
            assert(d[i] == s[i]);
        }
        lemma_total_above(d, limit);
        if exists|i: int| 0 <= i < s.len() && (#[trigger] s[i]) is Some {
            let i = choose|i: int| 0 <= i < s.len() && (#[trigger] s[i]) is Some;
            if i < d.len() {
                assert(d[i] is Some);
            }
        }
        if s.last() is Some {
            let k = present(d).len();
            assert(present(s).drop_last() =~= present(d));
            assert(s[s.len() - 1]->0 > limit);
            assert(limit * (k + 1) == limit * k + limit) by (nonlinear_arith);
        }
    }
}

/// A target that answers, but too slowly every time, is bad: with at least five samples
/// in the window, one of them answered, and every answer above the threshold.
pub proof fn law_slow_answers_are_bad(p: ProbeV, cfg: Config, n: nat, k: int)
    requires
        n == p.lat_ring.items.len() || n == cfg.state_window,
        n <= p.lat_ring.items.len(),
        n <= cfg.state_window,
        n >= 5,
        forall|i: int|
            p.lat_ring.items.len() - n <= i < p.lat_ring.items.len() && (
            #[trigger] p.lat_ring.items[i]) is Some ==> p.lat_ring.items[i]->0
                > p.latency_threshold(cfg),
        p.lat_ring.items.len() - n <= k < p.lat_ring.items.len(),
        p.lat_ring.items[k] is Some,
    ensures
        p.verdict(cfg).0,
{
    let from = p.lat_ring.items.len() - n;
    let recent = p.lat_ring.items.skip(from);
    let limit = p.latency_threshold(cfg);
    assert forall|i: int| 0 <= i < recent.len() && (#[trigger] recent[i]) is Some implies
        recent[i]->0 > limit by {
        assert(recent[i] == p.lat_ring.items[from + i]);
    }
    assert(recent[k - from] is Some);
    lemma_total_above(recent, limit);
    law_high_mean_is_bad(p, cfg, n);
}

/// What counts as slow follows the target: once fifty values are known it is twice the
/// latency below which nine of ten of them lie, and two and a half times the jitter,
/// or the configured floor where that is more. Before that it is the floor.
pub proof fn law_thresholds_follow_the_baseline(p: ProbeV, cfg: Config, v: u64)
    ensures
        p.baseline.latencies.len() < 50 ==> p.latency_threshold(cfg) == cfg.latency_warn_ns,
        p.baseline.jitters.len() < 50 ==> p.jitter_threshold_twice(cfg) == 2 * cfg.jitter_warn_ns,
        p.baseline.latencies.len() >= 50 && below(p.baseline.latencies, v as int) <= 90
            * p.baseline.latencies.len() / 100 < below(p.baseline.latencies, v + 1) ==> {
            let t = p.latency_threshold(cfg);
            t >= 2 * v && t >= cfg.latency_warn_ns && (t == 2 * v || t == cfg.latency_warn_ns)
        },
        p.baseline.jitters.len() >= 50 && below(p.baseline.jitters, v as int) <= 90
            * p.baseline.jitters.len() / 100 < below(p.baseline.jitters, v + 1) ==> {
            let t = p.jitter_threshold_twice(cfg);
            t >= 5 * v && t >= 2 * cfg.jitter_warn_ns && (t == 5 * v || t == 2
                * cfg.jitter_warn_ns)
        },
{
    law_percentile_has_its_rank(p.baseline.latencies, 90);
    law_percentile_has_its_rank(p.baseline.jitters, 90);
    if p.baseline.latencies.len() >= 50 {
        lemma_rank_is_unique(
            p.baseline.latencies,
            v,
            percentile_of(p.baseline.latencies, 90)->0,
            90 * p.baseline.latencies.len() as int / 100,
        );
    }
    if p.baseline.jitters.len() >= 50 {
        lemma_rank_is_unique(
            p.baseline.jitters,
            v,
            percentile_of(p.baseline.jitters, 90)->0,
            90 * p.baseline.jitters.len() as int / 100,
        );
    }
}

proof fn lemma_below_is_monotone(s: Seq<u64>, a: int, b: int)
    requires
        a <= b,
    ensures
        below(s, a) <= below(s, b),
    decreases s.len(),
{
    if s.len() > 0 {
        lemma_below_is_monotone(s.drop_last(), a, b);
    }
}

proof fn lemma_rank_is_unique(s: Seq<u64>, v: u64, u: u64, k: int)
    requires
        below(s, u as int) <= k < below(s, u + 1),
    ensures
        below(s, v as int) <= k < below(s, v + 1) ==> u == v,
{
    if v < u {
        lemma_below_is_monotone(s, v + 1, u as int);
    } else if u < v {
        lemma_below_is_monotone(s, u + 1, v as int);
    }
}

/// After a healthy round with an answer the latency baseline is the former one with that
/// round trip behind it, less its oldest value where it held 300. The jitter baseline
/// takes the jitter of the round in the same way.
pub proof fn law_healthy_rounds_teach(
    p: ProbeV,
    v: u64,
    jit: Option<u64>,
    cfg: Config,
    now: Instant,
)
    requires
        p.baseline.latencies.len() <= 300,
        p.baseline.jitters.len() <= 300,
    ensures
        ({
            let b = p.settled(LinkState::Up, Some(v), jit, cfg, now).baseline;
            let old_l = p.baseline.latencies;
            let old_j = p.baseline.jitters;
            &&& b.latencies == (if old_l.len() == 300 {
                old_l.skip(1)
            } else {
                old_l
            }).push(v)
            &&& jit is None ==> b.jitters == old_j
            &&& jit is Some ==> b.jitters == (if old_j.len() == 300 {
                old_j.skip(1)
            } else {
                old_j
            }).push(jit->0)
        }),
{
    assert(p.baseline.latencies.len() > 0 ==> p.baseline.latencies.drop_first()
        =~= p.baseline.latencies.skip(1));
    assert(p.baseline.jitters.len() > 0 ==> p.baseline.jitters.drop_first()
        =~= p.baseline.jitters.skip(1));
}

/// A target after a run of healthy rounds, each with its round trip and its jitter.
pub open spec fn taught(
    p: ProbeV,
    rounds: Seq<(u64, u64)>,
    cfg: Config,
    now: Instant,
) -> ProbeV
    decreases rounds.len(),
{
    if rounds.len() == 0 {
        p
    } else {
        taught(p, rounds.drop_last(), cfg, now).settled(
            LinkState::Up,
            Some(rounds.last().0),
            Some(rounds.last().1),
            cfg,
            now,
        )
    }
}

/// However many healthy rounds there are, the baselines go with them: what they held
/// before and all that came since, in order, of which the latest 300 are left.
pub proof fn law_baseline_holds_the_latest(
    p: ProbeV,
    rounds: Seq<(u64, u64)>,
    cfg: Config,
    now: Instant,
)
    requires
        p.baseline.latencies.len() <= 300,
        p.baseline.jitters.len() <= 300,
    ensures
        ({
            let b = taught(p, rounds, cfg, now).baseline;
            let lats = p.baseline.latencies + Seq::new(rounds.len(), |i: int| rounds[i].0);
            let jits = p.baseline.jitters + Seq::new(rounds.len(), |i: int| rounds[i].1);
            &&& b.latencies == (if lats.len() <= 300 {
                lats
            } else {
                lats.skip(lats.len() - 300)
            })
            &&& b.jitters == (if jits.len() <= 300 {
                jits
            } else {
                jits.skip(jits.len() - 300)
            })
        }),
    decreases rounds.len(),
{
    let b = taught(p, rounds, cfg, now).baseline;
    let lats = p.baseline.latencies + Seq::new(rounds.len(), |i: int| rounds[i].0);
    let jits = p.baseline.jitters + Seq::new(rounds.len(), |i: int| rounds[i].1);
    if rounds.len() == 0 {
        assert(lats =~= p.baseline.latencies);
        assert(jits =~= p.baseline.jitters);
    } else {
        let d = rounds.drop_last();
        law_baseline_holds_the_latest(p, d, cfg, now);
        let q = taught(p, d, cfg, now);
        law_healthy_rounds_teach(q, rounds.last().0, Some(rounds.last().1), cfg, now);
        let lats0 = p.baseline.latencies + Seq::new(d.len(), |i: int| d[i].0);
        let jits0 = p.baseline.jitters + Seq::new(d.len(), |i: int| d[i].1);
        assert(lats =~= lats0.push(rounds.last().0));
        assert(jits =~= jits0.push(rounds.last().1));
        assert(b.latencies =~= if lats.len() <= 300 {
            lats
        } else {
            lats.skip(lats.len() - 300)
        });
        assert(b.jitters =~= if jits.len() <= 300 {
            jits
        } else {
            jits.skip(jits.len() - 300)
        });
    }
}

/// A whole sample teaches the baseline exactly when it speaks for Up: then an answer is
/// appended to the latencies and its jitter to the jitters, of which 300 are kept; else
/// the baseline stays as it is.
pub proof fn law_samples_teach_when_healthy(
    p: ProbeV,
    rtt: Option<u64>,
    cfg: Config,
    mode: DetectorMode,
    now: Instant,
    w: ProbeWeights,
)
    requires
        p.baseline.latencies.len() <= 300,
        p.baseline.jitters.len() <= 300,
    ensures
        ({
            let b = p.sampled(rtt, cfg, mode, now, w).baseline;
            let healthy = p.candidate(rtt, cfg, mode, now, w) == LinkState::Up;
            let lats = if healthy && rtt is Some {
                p.baseline.latencies.push(rtt->0)
            } else {
                p.baseline.latencies
            };
            let jits = if healthy && rtt is Some && p.prev_rtt_adjacent is Some {
                p.baseline.jitters.push(p.jitter(rtt)->0)
            } else {
                p.baseline.jitters
            };
            &&& b.latencies == (if lats.len() <= 300 {
                lats
            } else {
                lats.skip(1)
            })
            &&& b.jitters == (if jits.len() <= 300 {
                jits
            } else {
                jits.skip(1)
            })
        }),
{
    reveal(ProbeV::sampled);
    let b = p.sampled(rtt, cfg, mode, now, w).baseline;
    let lats = p.baseline.latencies;
    let jits = p.baseline.jitters;
    if rtt is Some {
        assert(lats.len() == 300 ==> lats.drop_first().push(rtt->0) =~= lats.push(rtt->0).skip(1));
        if p.prev_rtt_adjacent is Some {
            let j = p.jitter(rtt)->0;
            assert(jits.len() == 300 ==> jits.drop_first().push(j) =~= jits.push(j).skip(1));
        }
    }
}

/// The jitter of an answer is its distance from the answer just before it, whichever of
/// the two is longer.
pub proof fn law_jitter_is_a_distance(p: ProbeV, v: u64, before: u64)
    requires
        p.prev_rtt_adjacent == Some(before),
    ensures
        p.jitter(Some(v)) matches Some(j) && (before + j == v || v + j == before),
        p.jitter(None) is None,
{
}

/// One sample in the records of a target: it is counted, it stands last in the windows,
/// and nothing that came before is changed. A loss is counted as one and lengthens the
/// present run of losses; an answer ends the run and enters the statistics.
pub proof fn law_samples_are_recorded(
    p: ProbeV,
    rtt: Option<u64>,
    cfg: Config,
    mode: DetectorMode,
    now: Instant,
    w: ProbeWeights,
)
    requires
        p.has_room(),
        p.lost <= p.total,
        p.lat_ring.cap == 120 && p.loss_ring.cap == 120 && p.jitter_ring.cap == 120,
    ensures
        ({
            let q = p.sampled(rtt, cfg, mode, now, w);
            let lost = rtt is None;
            &&& q.label == p.label && q.host == p.host && q.port == p.port
            &&& q.total == p.total + 1
            &&& q.lost == p.lost + (if lost {
                1int
            } else {
                0
            })
            &&& q.consec_loss == (if lost {
                p.consec_loss + 1
            } else {
                0
            })
            &&& q.cur_loss_burst == (if lost {
                p.cur_loss_burst + 1
            } else {
                0
            })
            &&& q.last_value == rtt && q.prev_rtt_adjacent == rtt
            &&& q.lat_ring == p.lat_ring.pushed(rtt)
            &&& q.loss_ring == p.loss_ring.pushed(lost)
            &&& q.jitter_ring == p.jitter_ring.pushed(p.jitter(rtt))
            &&& lost ==> q.stat == p.stat
            &&& !lost ==> q.stat == p.stat.added(rtt->0)
        }),
{
    reveal(ProbeV::sampled);
}

/// The state that a sample speaks for is that of the window with the sample in it: Down
/// where too much was lost, Degraded where the window is bad or, where the detectors
/// have a say, where the sample leaves a latch closed; Up in every other case.
pub proof fn law_candidate_follows_the_window(
    p: ProbeV,
    rtt: Option<u64>,
    cfg: Config,
    mode: DetectorMode,
    now: Instant,
    w: ProbeWeights,
)
    ensures
        ({
            let q = p.sampled(rtt, cfg, mode, now, w);
            let seen = ProbeV { baseline: p.baseline, ..q }.verdict(cfg);
            let latched = q.latency_detector.latch_active || q.jitter_detector.latch_active;
            let c = p.candidate(rtt, cfg, mode, now, w);
            &&& c == LinkState::Down <==> seen.1
            &&& mode != DetectorMode::Hybrid ==> (c == LinkState::Up <==> !seen.0 && !seen.1)
            &&& mode == DetectorMode::Hybrid ==> (c == LinkState::Up <==> !seen.0 && !seen.1
                && !latched)
        }),
{
    reveal(ProbeV::sampled);
    reveal(ProbeV::candidate);
}

/// Detectors that are off see nothing. The others see every answer, against the
/// configured limits of the latency, and its jitter, which has no severe level; a
/// missing value breaks their continuity and changes nothing else.
pub proof fn law_detectors_see_the_samples(
    p: ProbeV,
    rtt: Option<u64>,
    cfg: Config,
    mode: DetectorMode,
    now: Instant,
    w: ProbeWeights,
)
    ensures
        ({
            let q = p.sampled(rtt, cfg, mode, now, w);
            let jit = p.jitter(rtt);
            &&& mode == DetectorMode::Legacy ==> q.latency_detector == p.latency_detector
                && q.jitter_detector == p.jitter_detector
            &&& mode != DetectorMode::Legacy && rtt is Some ==> q.latency_detector
                == p.latency_detector.observed(
                rtt->0,
                now,
                cfg.latency_warn_ns,
                Some(cfg.latency_bad_ns),
                w.latency,
            )
            &&& mode != DetectorMode::Legacy && rtt is None ==> q.latency_detector == (
            EwmaDetector { continuity_broken: true, ..p.latency_detector })
            &&& mode != DetectorMode::Legacy && jit is Some ==> q.jitter_detector
                == p.jitter_detector.observed(jit->0, now, cfg.jitter_warn_ns, None, w.jitter)
            &&& mode != DetectorMode::Legacy && jit is None ==> q.jitter_detector == (
            EwmaDetector { continuity_broken: true, ..p.jitter_detector })
        }),
{
    reveal(ProbeV::sampled);
}

/// The log of the detectors holds one entry for each latch that a sample moves, latency
/// first, and none for one that it leaves; without detectors, or where they have a say,
/// nothing is logged.
pub proof fn law_shadow_logs_moved_latches(
    p: ProbeV,
    rtt: Option<u64>,
    cfg: Config,
    mode: DetectorMode,
    now: Instant,
    w: ProbeWeights,
)
    ensures
        ({
            let q = p.sampled(rtt, cfg, mode, now, w);
            let log = p.shadow(rtt, cfg, mode, now, w);
            let lat = p.latency_detector.latch_active != q.latency_detector.latch_active;
            let jit = p.jitter_detector.latch_active != q.jitter_detector.latch_active;
            &&& mode != DetectorMode::Shadow ==> log.len() == 0
            &&& mode == DetectorMode::Shadow ==> {
                &&& log.len() == (if lat {
                    1int
                } else {
                    0
                }) + (if jit {
                    1int
                } else {
                    0
                })
                &&& lat ==> log[0].metric == Metric::Latency && log[0].ts == now
                    && log[0].old_latch == p.latency_detector.latch_active && log[0].new_latch
                    == q.latency_detector.latch_active
                &&& jit ==> log.last().metric == Metric::Jitter && log.last().ts == now
                    && log.last().old_latch == p.jitter_detector.latch_active
                    && log.last().new_latch == q.jitter_detector.latch_active
                &&& lat && rtt is Some ==> Some(log[0].short) == q.latency_detector.short
                &&& jit && p.jitter(rtt) is Some ==> Some(log.last().short)
                    == q.jitter_detector.short
            }
        }),
{
    reveal(ProbeV::sampled);
    reveal(ProbeV::shadow);
}

/// A sample moves the state of a target as its candidate, its pending worsening and the
/// configured number of confirmations say; what was the state before is remembered, and
/// the time of a change.
pub proof fn law_samples_move_the_state(
    p: ProbeV,
    rtt: Option<u64>,
    cfg: Config,
    mode: DetectorMode,
    now: Instant,
    w: ProbeWeights,
)
    ensures
        ({
            let q = p.sampled(rtt, cfg, mode, now, w);
            let c = p.candidate(rtt, cfg, mode, now, w);
            let step = target_step(p.state, Some(c), p.pending_worse, cfg.hysteresis_bad);
            &&& (q.state, q.pending_worse) == step
            &&& q.last_target_state == p.state
            &&& q.state != p.state ==> q.state == c && q.state_since == now
                && q.pending_worse is None
            &&& q.state == p.state ==> q.state_since == p.state_since
        }),
{
    reveal(ProbeV::sampled);
}

/// An extra probe counts every sample and remembers when it came. An answer ends a run
/// of losses and brings a probe that was down up again; the second loss in a row takes
/// it down, the first one does not.
pub proof fn law_extra_probe_needs_two_losses(e: ExtraV, rtt: Option<u64>, now: Instant)
    requires
        e.has_room(),
        e.wf(),
    ensures
        ({
            let f = e.sampled(rtt, now);
            &&& f.label == e.label && f.host == e.host && f.port == e.port
            &&& f.total == e.total + 1
            &&& f.last_sample_at == Some(now)
            &&& f.ring == e.ring.pushed(rtt)
            &&& rtt is Some ==> {
                &&& f.last == rtt
                &&& f.lost == e.lost
                &&& f.consec_loss == 0
                &&& f.state != LinkState::Down
                &&& e.state != LinkState::Down ==> f.state == e.state
                &&& e.state == LinkState::Down ==> f.state == LinkState::Up
            }
            &&& rtt is None ==> {
                &&& f.last == e.last
                &&& f.lost == e.lost + 1
                &&& f.consec_loss == e.consec_loss + 1
                &&& e.consec_loss == 0 ==> f.state == e.state
                &&& e.consec_loss > 0 ==> f.state == LinkState::Down
            }
        }),
{
}

/// A new target is up, has no samples and nothing pending, and its windows hold 120 each; a
/// new extra probe is up, has no samples, and its window holds 30.
pub proof fn law_new_probes_are_empty(label: Seq<char>, host: Seq<char>, port: u16, now: Instant)
    ensures
        ({
            let p = probe_new(label, host, port, now);
            &&& p.label == label && p.host == host && p.port == port && p.state_since == now
            &&& p.state == LinkState::Up && p.last_target_state == LinkState::Up
            &&& p.pending_worse is None && p.total == 0 && p.lost == 0 && p.consec_loss == 0
            &&& p.cur_loss_burst == 0 && p.last_value is None && p.prev_rtt_adjacent is None
            &&& p.lat_ring.items.len() == 0 && p.lat_ring.cap == 120
            &&& p.loss_ring.items.len() == 0 && p.loss_ring.cap == 120
            &&& p.jitter_ring.items.len() == 0 && p.jitter_ring.cap == 120
            &&& p.baseline.latencies.len() == 0 && p.baseline.jitters.len() == 0
            &&& p.stat.count == 0 && p.stat.sum == 0
            &&& p.latency_detector.last_valid_at is None && p.jitter_detector.last_valid_at is None
            &&& !p.latency_detector.latch_active && !p.jitter_detector.latch_active
            &&& p.wf() && p.has_room()
        }),
        ({
            let e = extra_new(label, host, port);
            &&& e.label == label && e.host == host && e.port == port
            &&& e.state == LinkState::Up && e.total == 0 && e.lost == 0 && e.consec_loss == 0
            &&& e.last is None && e.last_sample_at is None
            &&& e.ring.items.len() == 0 && e.ring.cap == 30
        }),
{
}

} // verus!
