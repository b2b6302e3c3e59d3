//! The monitor: everything it has seen in a session, and what it makes of it.
use std::collections::VecDeque;
use vstd::prelude::*;
use crate::config::Config;
use crate::detector::{mode_named, DetectorMode};
use crate::dns::{names_view, resolvers_view, DnsMatrix, MatrixV};
use crate::probe::{
    extra_new, probe_new, sound_ratio, ExtraProbe, ExtraV, PrimaryProbe, ProbeV, ShadowEvent,
};
use crate::state::{recovery_zero, LinkState, RecoveryState};
use crate::stats::{opt_text, HistBucket, HistV, Ring, RingV};
use crate::text::{chars_of, spells};
use crate::time::{elapsed_ns, Clock, Instant};

verus! {

/// Length of one slice of the history.
pub const HIST_BUCKET_SECS: u64 = 30;

/// Slices that the history holds.
pub const HIST_BUCKETS: usize = 120;

/// Rounds that the pooled windows hold.
pub const POOL_HIST_CAP: usize = 360;

/// Entries that the event log holds.
pub const EVENTS_CAP: usize = 24;

/// Entries that the log of latches holds.
pub const SHADOW_CAP: usize = 64;

/// How an entry of the log is shown.
#[derive(Clone, Copy, PartialEq, Eq, Structural, Debug)]
pub enum Level {
    Info,
    Warn,
    Bad,
    Good,
}

/// An entry of the log; `ts` is in milliseconds since the Unix epoch.
#[derive(Clone)]
pub struct Event {
    pub ts: u64,
    pub level: Level,
    pub msg: String,
}

/// What an [`Event`] holds.
#[verifier::ext_equal]
pub struct EventV {
    pub ts: u64,
    pub level: Level,
    pub msg: Seq<char>,
}

impl View for Event {
    type V = EventV;

    open spec fn view(&self) -> EventV {
        EventV { ts: self.ts, level: self.level, msg: self.msg@ }
    }
}

/// Which probe watches the gateway: one that the user listed, or one of ours.
#[derive(Clone, Copy, PartialEq, Eq, Structural, Debug)]
pub enum GatewayRole {
    UserExtra(usize),
    AutoExtra(usize),
    Unknown,
}

/// All that the monitor knows.
pub struct App {
    pub cfg: Config,
    pub primaries: Vec<PrimaryProbe>,
    pub dns: DnsMatrix,
    pub state: LinkState,
    pub state_since: Instant,
    pub recovery: RecoveryState,
    pub last_reminder: Option<Instant>,
    pub events: VecDeque<Event>,
    pub muted: bool,
    pub started: Instant,
    pub hist: VecDeque<HistBucket>,
    pub cur_bucket_start: Option<Instant>,
    pub interval_ms: u64,
    pub reset_epoch: u64,
    pub lat_hist: Ring<Option<u64>>,
    pub jit_hist: Ring<Option<u64>>,
    pub extras: Vec<ExtraProbe>,
    pub auto_gw_idx: Option<usize>,
    pub gw_role: GatewayRole,
    pub gw_cadence_ms: u64,
    pub outage_onset_at: Option<Instant>,
    pub gateway_probe_idx: Option<usize>,
    pub last_export: Option<String>,
    pub best_uptime_secs: u64,
    pub worst_loss_burst: u32,
    pub peak_latency: u64,
    pub peak_jitter: u64,
    pub up_since: Option<Instant>,
    pub wifi_rssi: Option<i16>,
    pub wifi_grade: Option<u8>,
    pub sess_up_ms: u64,
    pub sess_degraded_ms: u64,
    pub sess_down_ms: u64,
    pub last_accrual: Option<Instant>,
    pub bad_since: Option<Instant>,
    pub recoveries: u32,
    pub outages: u32,
    pub mttr_ms_total: u64,
    pub top_latency: Vec<(u64, u64)>,
    pub top_jitter: Vec<(u64, u64)>,
    pub detector_mode: DetectorMode,
    pub shadow_log: VecDeque<ShadowEvent>,
    pub prealert_enabled: bool,
    pub probe_anomaly_edge: Vec<bool>,
    pub probe_anomaly_cooldown_at: Option<Instant>,
    pub pending_cause_log_idx: Option<usize>,
}

/// What an [`App`] holds.
#[verifier::ext_equal]
pub struct AppV {
    pub cfg: Config,
    pub primaries: Seq<ProbeV>,
    pub dns: MatrixV,
    pub state: LinkState,
    pub state_since: Instant,
    pub recovery: RecoveryState,
    pub last_reminder: Option<Instant>,
    pub events: Seq<EventV>,
    pub muted: bool,
    pub started: Instant,
    pub hist: Seq<HistV>,
    pub cur_bucket_start: Option<Instant>,
    pub interval_ms: u64,
    pub reset_epoch: u64,
    pub lat_hist: RingV<Option<u64>>,
    pub jit_hist: RingV<Option<u64>>,
    pub extras: Seq<ExtraV>,
    pub auto_gw_idx: Option<usize>,
    pub gw_role: GatewayRole,
    pub gw_cadence_ms: u64,
    pub outage_onset_at: Option<Instant>,
    pub gateway_probe_idx: Option<usize>,
    pub last_export: Option<Seq<char>>,
    pub best_uptime_secs: u64,
    pub worst_loss_burst: u32,
    pub peak_latency: u64,
    pub peak_jitter: u64,
    pub up_since: Option<Instant>,
    pub wifi_rssi: Option<i16>,
    pub wifi_grade: Option<u8>,
    pub sess_up_ms: u64,
    pub sess_degraded_ms: u64,
    pub sess_down_ms: u64,
    pub last_accrual: Option<Instant>,
    pub bad_since: Option<Instant>,
    pub recoveries: u32,
    pub outages: u32,
    pub mttr_ms_total: u64,
    pub top_latency: Seq<(u64, u64)>,
    pub top_jitter: Seq<(u64, u64)>,
    pub detector_mode: DetectorMode,
    pub shadow_log: Seq<ShadowEvent>,
    pub prealert_enabled: bool,
    pub probe_anomaly_edge: Seq<bool>,
    pub probe_anomaly_cooldown_at: Option<Instant>,
    pub pending_cause_log_idx: Option<usize>,
}

pub open spec fn probes_view(s: Seq<PrimaryProbe>) -> Seq<ProbeV> {
    Seq::new(s.len(), |i: int| s[i]@)
}

pub open spec fn extras_view(s: Seq<ExtraProbe>) -> Seq<ExtraV> {
    Seq::new(s.len(), |i: int| s[i]@)
}

pub open spec fn events_view(s: Seq<Event>) -> Seq<EventV> {
    Seq::new(s.len(), |i: int| s[i]@)
}

pub open spec fn hist_view(s: Seq<HistBucket>) -> Seq<HistV> {
    Seq::new(s.len(), |i: int| s[i]@)
}

impl View for App {
    type V = AppV;

    open spec fn view(&self) -> AppV {
        AppV {
            cfg: self.cfg,
            primaries: probes_view(self.primaries@),
            dns: self.dns@,
            state: self.state,
            state_since: self.state_since,
            recovery: self.recovery,
            last_reminder: self.last_reminder,
            events: events_view(self.events@),
            muted: self.muted,
            started: self.started,
            hist: hist_view(self.hist@),
            cur_bucket_start: self.cur_bucket_start,
            interval_ms: self.interval_ms,
            reset_epoch: self.reset_epoch,
            lat_hist: self.lat_hist@,
            jit_hist: self.jit_hist@,
            extras: extras_view(self.extras@),
            auto_gw_idx: self.auto_gw_idx,
            gw_role: self.gw_role,
            gw_cadence_ms: self.gw_cadence_ms,
            outage_onset_at: self.outage_onset_at,
            gateway_probe_idx: self.gateway_probe_idx,
            last_export: opt_text(self.last_export),
            best_uptime_secs: self.best_uptime_secs,
            worst_loss_burst: self.worst_loss_burst,
            peak_latency: self.peak_latency,
            peak_jitter: self.peak_jitter,
            up_since: self.up_since,
            wifi_rssi: self.wifi_rssi,
            wifi_grade: self.wifi_grade,
            sess_up_ms: self.sess_up_ms,
            sess_degraded_ms: self.sess_degraded_ms,
            sess_down_ms: self.sess_down_ms,
            last_accrual: self.last_accrual,
            bad_since: self.bad_since,
            recoveries: self.recoveries,
            outages: self.outages,
            mttr_ms_total: self.mttr_ms_total,
            top_latency: self.top_latency@,
            top_jitter: self.top_jitter@,
            detector_mode: self.detector_mode,
            shadow_log: self.shadow_log@,
            prealert_enabled: self.prealert_enabled,
            probe_anomaly_edge: self.probe_anomaly_edge@,
            probe_anomaly_cooldown_at: self.probe_anomaly_cooldown_at,
            pending_cause_log_idx: self.pending_cause_log_idx,
        }
    }
}

/// Probes of all targets together.
pub open spec fn total_of(ps: Seq<ProbeV>) -> nat
    decreases ps.len(),
{
    if ps.len() == 0 {
        0
    } else {
        total_of(ps.drop_last()) + ps.last().total as nat
    }
}

/// Lost probes of all targets together.
pub open spec fn lost_of(ps: Seq<ProbeV>) -> nat
    decreases ps.len(),
{
    if ps.len() == 0 {
        0
    } else {
        lost_of(ps.drop_last()) + ps.last().lost as nat
    }
}

/// Whole milliseconds from one instant, where there is one, to another.
pub open spec fn elapsed_ms(from: Option<Instant>, to: Instant) -> nat {
    match from {
        Some(t) => elapsed_ns(t, to) / 1_000_000,
        None => 0,
    }
}

/// Whole seconds from one instant, where there is one, to another.
pub open spec fn elapsed_secs(from: Option<Instant>, to: Instant) -> nat {
    match from {
        Some(t) => elapsed_ns(t, to) / 1_000_000_000,
        None => 0,
    }
}

pub fn ms_between(from: Option<Instant>, to: Instant) -> (r: u64)
    ensures
        r == elapsed_ms(from, to),
{
    match from {
        Some(t) => to.nanos_since(t) / 1_000_000,
        None => 0,
    }
}

pub fn secs_between(from: Option<Instant>, to: Instant) -> (r: u64)
    ensures
        r == elapsed_secs(from, to),
{
    match from {
        Some(t) => to.nanos_since(t) / 1_000_000_000,
        None => 0,
    }
}

/// `s` with `v` at its end; from length `cap` on the first element makes room.
pub open spec fn push_bounded<T>(s: Seq<T>, cap: nat, v: T) -> Seq<T> {
    if s.len() >= cap && s.len() > 0 {
        s.drop_first().push(v)
    } else {
        s.push(v)
    }
}

/// `s` after all of `vs` have been pushed in turn.
pub open spec fn push_all_bounded<T>(s: Seq<T>, cap: nat, vs: Seq<T>) -> Seq<T>
    decreases vs.len(),
{
    if vs.len() == 0 {
        s
    } else {
        push_bounded(push_all_bounded(s, cap, vs.drop_last()), cap, vs.last())
    }
}

impl AppV {
    /// Counters that fit each other and a matrix in shape.
    pub open spec fn wf(self) -> bool {
        &&& forall|i: int|
            0 <= i < self.primaries.len() ==> (#[trigger] self.primaries[i]).wf()
        &&& forall|i: int| 0 <= i < self.extras.len() ==> (#[trigger] self.extras[i]).wf()
        &&& forall|i: int|
            0 <= i < self.hist.len() ==> (#[trigger] self.hist[i]).loss <= self.hist[i].count
        &&& forall|i: int|
            0 <= i < self.shadow_log.len() ==> sound_ratio(#[trigger] self.shadow_log[i])
        &&& self.dns.wf()
        &&& total_of(self.primaries) <= u64::MAX
        &&& self.session_ms() <= u64::MAX
    }

    /// Milliseconds of the session that are accounted for.
    pub open spec fn session_ms(self) -> nat {
        self.sess_up_ms as nat + self.sess_degraded_ms as nat + self.sess_down_ms as nat
    }

    /// Every counter can take `n` more samples and one more decision at `now`.
    pub open spec fn has_room(self, n: nat, now: Instant) -> bool {
        &&& forall|i: int|
            0 <= i < self.primaries.len() ==> (#[trigger] self.primaries[i]).has_room()
        &&& total_of(self.primaries) + n <= u64::MAX
        &&& self.hist.len() > 0 ==> self.hist.last().count + n <= u32::MAX
        &&& n <= u32::MAX
        &&& self.has_room_to_decide(now)
    }

    /// Every counter can take one more decision at `now`.
    pub open spec fn has_room_to_decide(self, now: Instant) -> bool {
        &&& self.session_ms() + elapsed_ms(self.last_accrual, now) <= u64::MAX
        &&& self.mttr_ms_total + elapsed_ms(self.bad_since, now) <= u64::MAX
        &&& self.outages < u32::MAX
        &&& self.recoveries < u32::MAX
        &&& self.recovery.has_room()
    }

    /// The monitor with one more entry in its log.
    pub open spec fn logged(self, ts: u64, level: Level, msg: Seq<char>) -> AppV {
        AppV {
            events: push_bounded(self.events, EVENTS_CAP as nat, EventV { ts, level, msg }),
            ..self
        }
    }

    /// The time since the last accounting goes to the present state.
    pub open spec fn accrued(self, now: Instant) -> AppV {
        let ms = elapsed_ms(self.last_accrual, now);
        let up = self.state == LinkState::Up;
        let degraded = self.state == LinkState::Degraded;
        let down = self.state == LinkState::Down;
        AppV {
            sess_up_ms: if up {
                (self.sess_up_ms + ms) as u64
            } else {
                self.sess_up_ms
            },
            sess_degraded_ms: if degraded {
                (self.sess_degraded_ms + ms) as u64
            } else {
                self.sess_degraded_ms
            },
            sess_down_ms: if down {
                (self.sess_down_ms + ms) as u64
            } else {
                self.sess_down_ms
            },
            last_accrual: Some(now),
            ..self
        }
    }

    /// The monitor after the session has been started afresh.
    pub open spec fn restarted(self, clock: Clock) -> AppV {
        AppV {
            dns: self.dns.cleared(),
            state: LinkState::Up,
            state_since: clock.now,
            recovery: recovery_zero(),
            last_reminder: None,
            outage_onset_at: None,
            hist: Seq::empty(),
            cur_bucket_start: None,
            lat_hist: RingV::empty(POOL_HIST_CAP as nat),
            jit_hist: RingV::empty(POOL_HIST_CAP as nat),
            reset_epoch: self.reset_epoch.wrapping_add(1),
            primaries: Seq::new(
                self.primaries.len(),
                |i: int|
                    probe_new(
                        self.primaries[i].label,
                        self.primaries[i].host,
                        self.primaries[i].port,
                        clock.now,
                    ),
            ),
            extras: Seq::new(
                self.extras.len(),
                |i: int|
                    extra_new(
                        self.extras[i].label,
                        self.extras[i].host,
                        self.extras[i].port,
                    ),
            ),
            best_uptime_secs: 0,
            worst_loss_burst: 0,
            peak_latency: 0,
            peak_jitter: 0,
            up_since: Some(clock.now),
            sess_up_ms: 0,
            sess_degraded_ms: 0,
            sess_down_ms: 0,
            last_accrual: Some(clock.now),
            bad_since: None,
            recoveries: 0,
            outages: 0,
            mttr_ms_total: 0,
            top_latency: Seq::empty(),
            top_jitter: Seq::empty(),
            shadow_log: Seq::empty(),
            probe_anomaly_edge: Seq::empty(),
            probe_anomaly_cooldown_at: None,
            pending_cause_log_idx: None,
            ..self
        }.logged(clock.unix_ms, Level::Info, "stats reset"@)
    }
}

/// The resolvers that are asked by default: the system's and two public ones.
pub open spec fn default_resolvers() -> Seq<(Seq<char>, Option<Seq<char>>)> {
    seq![("sys"@, None), ("cf"@, Some("1.1.1.1"@)), ("gg"@, Some("8.8.8.8"@))]
}

/// The names that are asked for by default.
pub open spec fn default_names() -> Seq<Seq<char>> {
    seq!["www.google.com"@, "www.cloudflare.com"@, "www.amazon.com"@]
}

pub fn default_dns_resolvers() -> (r: Vec<(String, Option<String>)>)
    ensures
        resolvers_view(r@) == default_resolvers(),
{
    let mut r: Vec<(String, Option<String>)> = Vec::new();
    r.push((String::from_str("sys"), None));
    r.push((String::from_str("cf"), Some(String::from_str("1.1.1.1"))));
    r.push((String::from_str("gg"), Some(String::from_str("8.8.8.8"))));
    proof {
        assert(resolvers_view(r@) =~= default_resolvers());
    }
    r
}

pub fn default_dns_names() -> (r: Vec<String>)
    ensures
        names_view(r@) == default_names(),
{
    let mut r: Vec<String> = Vec::new();
    r.push(String::from_str("www.google.com"));
    r.push(String::from_str("www.cloudflare.com"));
    r.push(String::from_str("www.amazon.com"));
    proof {
        assert(names_view(r@) =~= default_names());
    }
    r
}

/// A monitor that has seen nothing yet and has no targets.
pub open spec fn app_new(
    cfg: Config,
    now: Instant,
    mode: Option<Seq<char>>,
    prealert: Option<Seq<char>>,
) -> AppV {
    AppV {
        cfg,
        primaries: Seq::empty(),
        dns: MatrixV::fresh(default_resolvers(), default_names()),
        state: LinkState::Up,
        state_since: now,
        recovery: recovery_zero(),
        last_reminder: None,
        events: Seq::empty(),
        muted: false,
        started: now,
        hist: Seq::empty(),
        cur_bucket_start: None,
        interval_ms: cfg.ping_interval_ms,
        reset_epoch: 0,
        lat_hist: RingV::empty(POOL_HIST_CAP as nat),
        jit_hist: RingV::empty(POOL_HIST_CAP as nat),
        extras: Seq::empty(),
        auto_gw_idx: None,
        gw_role: GatewayRole::Unknown,
        gw_cadence_ms: 5_000,
        outage_onset_at: None,
        gateway_probe_idx: None,
        last_export: None,
        best_uptime_secs: 0,
        worst_loss_burst: 0,
        peak_latency: 0,
        peak_jitter: 0,
        up_since: Some(now),
        wifi_rssi: None,
        wifi_grade: None,
        sess_up_ms: 0,
        sess_degraded_ms: 0,
        sess_down_ms: 0,
        last_accrual: Some(now),
        bad_since: None,
        recoveries: 0,
        outages: 0,
        mttr_ms_total: 0,
        top_latency: Seq::empty(),
        top_jitter: Seq::empty(),
        detector_mode: mode_named(mode),
        shadow_log: Seq::empty(),
        prealert_enabled: prealert == Some("1"@),
        probe_anomaly_edge: Seq::empty(),
        probe_anomaly_cooldown_at: None,
        pending_cause_log_idx: None,
    }
}

/// The text of an optional string slice.
pub open spec fn opt_str(s: Option<&str>) -> Option<Seq<char>> {
    match s {
        Some(t) => Some(t@),
        None => None,
    }
}

impl App {
    pub open spec fn wf(&self) -> bool {
        self@.wf()
    }

    /// A fresh monitor; `mode` and `prealert` are the values of the settings
    /// `PM_RECURSIVE_MODE` and `PM_PREALERT`.
    pub fn new(cfg: Config, now: Instant, mode: Option<&str>, prealert: Option<&str>) -> (a: Self)
        ensures
            a@ == app_new(cfg, now, opt_str(mode), opt_str(prealert)),
            a.wf(),
    {
        let prealert_enabled = match prealert {
            Some(v) => {
                let c = chars_of(v);
                spells(&c, "1")
            },
            None => false,
        };
        let a = App {
            cfg,
            primaries: Vec::new(),
            dns: DnsMatrix::new(default_dns_resolvers(), default_dns_names()),
            state: LinkState::Up,
            state_since: now,
            recovery: RecoveryState::new(),
            last_reminder: None,
            events: VecDeque::new(),
            muted: false,
            started: now,
            hist: VecDeque::new(),
            cur_bucket_start: None,
            interval_ms: cfg.ping_interval_ms,
            reset_epoch: 0,
            lat_hist: Ring::new(POOL_HIST_CAP),
            jit_hist: Ring::new(POOL_HIST_CAP),
            extras: Vec::new(),
            auto_gw_idx: None,
            gw_role: GatewayRole::Unknown,
            gw_cadence_ms: 5_000,
            outage_onset_at: None,
            gateway_probe_idx: None,
            last_export: None,
            best_uptime_secs: 0,
            worst_loss_burst: 0,
            peak_latency: 0,
            peak_jitter: 0,
            up_since: Some(now),
            wifi_rssi: None,
            wifi_grade: None,
            sess_up_ms: 0,
            sess_degraded_ms: 0,
            sess_down_ms: 0,
            last_accrual: Some(now),
            bad_since: None,
            recoveries: 0,
            outages: 0,
            mttr_ms_total: 0,
            top_latency: Vec::new(),
            top_jitter: Vec::new(),
            detector_mode: DetectorMode::from_env(mode),
            shadow_log: VecDeque::new(),
            prealert_enabled,
            probe_anomaly_edge: Vec::new(),
            probe_anomaly_cooldown_at: None,
            pending_cause_log_idx: None,
        };
        proof {
            assert(a@ =~= app_new(cfg, now, opt_str(mode), opt_str(prealert)));
        }
        a
    }

    /// Adds a target.
    pub fn add_primary(&mut self, label: &str, host: &str, port: u16, now: Instant)
        requires
            old(self).wf(),
        ensures
            final(self).wf(),
            final(self)@ == (AppV {
                primaries: old(self)@.primaries.push(probe_new(label@, host@, port, now)),
                ..old(self)@
            }),
    {
        self.primaries.push(PrimaryProbe::new(label, host, port, now));
        proof {
            let p = probe_new(label@, host@, port, now);
            assert(self@.primaries =~= old(self)@.primaries.push(p));
            assert(self@.primaries.drop_last() =~= old(self)@.primaries);
        }
    }

    /// Adds an extra probe.
    pub fn add_extra(&mut self, label: &str, host: &str, port: u16)
        requires
            old(self).wf(),
        ensures
            final(self).wf(),
            final(self)@ == (AppV {
                extras: old(self)@.extras.push(extra_new(label@, host@, port)),
                ..old(self)@
            }),
    {
        self.extras.push(ExtraProbe::new(label, host, port));
        proof {
            assert(self@.extras =~= old(self)@.extras.push(extra_new(label@, host@, port)));
        }
    }

    /// Whether a round of `n` results can be counted.
    pub fn can_take_round(&self, n: usize, now: Instant) -> (r: bool)
        requires
            self.wf(),
        ensures
            r == self@.has_room(n as nat, now),
    {
        let mut i: usize = 0;
        while i < self.primaries.len()
            invariant
                i <= self.primaries.len(),
                forall|k: int| 0 <= k < i ==> (#[trigger] self@.primaries[k]).has_room(),
            decreases self.primaries.len() - i,
        {
            let p = &self.primaries[i];
            let room = p.total < u64::MAX && p.consec_loss < u32::MAX && p.cur_loss_burst
                < u32::MAX && p.latency_detector.valid_count < u32::MAX
                && p.jitter_detector.valid_count < u32::MAX;
            if !room {
                proof {
                    assert(!self@.primaries[i as int].has_room());
                }
                return false;
            }
            i = i + 1;
        }
        let last: u32 = if self.hist.len() == 0 {
            0
        } else {
            self.hist[self.hist.len() - 1].count
        };
        let session: u64 = self.sess_up_ms + self.sess_degraded_ms + self.sess_down_ms;
        self.pooled_total() as u128 + n as u128 <= u64::MAX as u128 && (self.hist.len() == 0
            || last as u128 + n as u128 <= u32::MAX as u128) && n as u128 <= u32::MAX as u128
            && session as u128 + ms_between(self.last_accrual, now) as u128 <= u64::MAX as u128
            && self.mttr_ms_total as u128 + ms_between(self.bad_since, now) as u128
            <= u64::MAX as u128 && self.outages < u32::MAX && self.recoveries < u32::MAX
            && self.recovery.accumulated.ns <= u128::MAX - u64::MAX as u128
    }

    /// Whether the time up to `now` can be accounted for.
    pub fn can_accrue(&self, now: Instant) -> (r: bool)
        requires
            self.wf(),
        ensures
            r == (self@.session_ms() + elapsed_ms(self.last_accrual, now) <= u64::MAX),
    {
        let session: u64 = self.sess_up_ms + self.sess_degraded_ms + self.sess_down_ms;
        session as u128 + ms_between(self.last_accrual, now) as u128 <= u64::MAX as u128
    }

    /// Whether a sample of extra probe `idx` can be counted.
    pub fn can_take_extra(&self, idx: usize) -> (r: bool)
        ensures
            r == (idx < self@.extras.len() ==> self@.extras[idx as int].has_room()),
    {
        idx >= self.extras.len() || (self.extras[idx].total < u64::MAX
            && self.extras[idx].consec_loss < u32::MAX)
    }

    /// Whether an answer of resolver `r_idx` for name `d_idx` can be counted.
    pub fn can_take_answer(&self, r_idx: usize, d_idx: usize) -> (r: bool)
        ensures
            r == (self@.has_cell(r_idx as int, d_idx as int)
                ==> self@.dns.cells[r_idx as int][d_idx as int].stat.count < u64::MAX),
    {
        r_idx >= self.dns.cells.len() || d_idx >= self.dns.cells[r_idx].len()
            || self.dns.cells[r_idx][d_idx].stat.count < u64::MAX
    }

    /// Appends an entry to the log; a full log gives up its oldest.
    pub fn log(&mut self, level: Level, msg: String, unix_ms: u64)
        ensures
            final(self)@ == old(self)@.logged(unix_ms, level, msg@),
    {
        if self.events.len() >= EVENTS_CAP {
            self.events.pop_front();
        }
        self.events.push_back(Event { ts: unix_ms, level, msg });
        proof {
            assert(self@ =~= old(self)@.logged(unix_ms, level, msg@));
        }
    }

    /// Accounts for the time since the last call, to the present state.
    pub fn accrue_state_time(&mut self, now: Instant)
        requires
            old(self)@.session_ms() + elapsed_ms(old(self).last_accrual, now) <= u64::MAX,
        ensures
            final(self)@ == old(self)@.accrued(now),
            final(self)@.session_ms() == old(self)@.session_ms() + elapsed_ms(
                old(self).last_accrual,
                now,
            ),
    {
        let ms: u64 = ms_between(self.last_accrual, now);
        match self.state {
            LinkState::Up => {
                self.sess_up_ms = self.sess_up_ms + ms;
            },
            LinkState::Degraded => {
                self.sess_degraded_ms = self.sess_degraded_ms + ms;
            },
            LinkState::Down => {
                self.sess_down_ms = self.sess_down_ms + ms;
            },
        }
        self.last_accrual = Some(now);
    }

    /// Forgets the session, but not the targets, the log and the settings.
    pub fn reset(&mut self, clock: Clock)
        requires
            old(self).wf(),
        ensures
            final(self).wf(),
            final(self)@ == old(self)@.restarted(clock),
    {
        self.dns.clear();
        self.state = LinkState::Up;
        self.state_since = clock.now;
        self.recovery = RecoveryState::new();
        self.last_reminder = None;
        self.outage_onset_at = None;
        self.hist.clear();
        self.cur_bucket_start = None;
        self.lat_hist = Ring::new(POOL_HIST_CAP);
        self.jit_hist = Ring::new(POOL_HIST_CAP);
        self.reset_epoch = self.reset_epoch.wrapping_add(1);
        reset_probes(&mut self.primaries, clock.now);
        reset_extras(&mut self.extras);
        self.best_uptime_secs = 0;
        self.worst_loss_burst = 0;
        self.peak_latency = 0;
        self.peak_jitter = 0;
        self.up_since = Some(clock.now);
        self.sess_up_ms = 0;
        self.sess_degraded_ms = 0;
        self.sess_down_ms = 0;
        self.last_accrual = Some(clock.now);
        self.bad_since = None;
        self.recoveries = 0;
        self.outages = 0;
        self.mttr_ms_total = 0;
        self.top_latency.clear();
        self.top_jitter.clear();
        self.shadow_log.clear();
        self.probe_anomaly_edge.clear();
        self.probe_anomaly_cooldown_at = None;
        self.pending_cause_log_idx = None;
        self.log(Level::Info, String::from_str("stats reset"), clock.unix_ms);
        proof {
            assert(self@ =~= old(self)@.restarted(clock));
            lemma_fresh_total(self@.primaries);
        }
    }
}

proof fn lemma_fresh_total(ps: Seq<ProbeV>)
    requires
        forall|i: int| 0 <= i < ps.len() ==> (#[trigger] ps[i]).total == 0,
    ensures
        total_of(ps) == 0,
    decreases ps.len(),
{
    if ps.len() > 0 {
        assert(ps.last().total == 0);
        lemma_fresh_total(ps.drop_last());
    }
}

fn reset_probes(ps: &mut Vec<PrimaryProbe>, now: Instant)
    ensures
        probes_view(final(ps)@) == Seq::new(
            old(ps)@.len(),
            |i: int|
                probe_new(
                    old(ps)@[i]@.label,
                    old(ps)@[i]@.host,
                    old(ps)@[i]@.port,
                    now,
                ),
        ),
{
    let mut i: usize = 0;
    while i < ps.len()
        invariant
            i <= ps.len(),
            ps.len() == old(ps).len(),
            forall|k: int|
                0 <= k < i ==> (#[trigger] ps@[k])@ == probe_new(
                    old(ps)@[k]@.label,
                    old(ps)@[k]@.host,
                    old(ps)@[k]@.port,
                    now,
                ),
            forall|k: int| i <= k < ps.len() ==> #[trigger] ps@[k] == old(ps)@[k],
        decreases ps.len() - i,
    {
        ps[i].reset(now);
        i = i + 1;
    }
    proof {
        assert(probes_view(ps@) =~= Seq::new(
            old(ps)@.len(),
            |i: int|
                probe_new(
                    old(ps)@[i]@.label,
                    old(ps)@[i]@.host,
                    old(ps)@[i]@.port,
                    now,
                ),
        ));
    }
}

fn reset_extras(es: &mut Vec<ExtraProbe>)
    ensures
        extras_view(final(es)@) == Seq::new(
            old(es)@.len(),
            |i: int|
                extra_new(old(es)@[i]@.label, old(es)@[i]@.host, old(es)@[i]@.port),
        ),
{
    let mut i: usize = 0;
    while i < es.len()
        invariant
            i <= es.len(),
            es.len() == old(es).len(),
            forall|k: int|
                0 <= k < i ==> (#[trigger] es@[k])@ == extra_new(
                    old(es)@[k]@.label,
                    old(es)@[k]@.host,
                    old(es)@[k]@.port,
                ),
            forall|k: int| i <= k < es.len() ==> #[trigger] es@[k] == old(es)@[k],
        decreases es.len() - i,
    {
        es[i].reset();
        i = i + 1;
    }
    proof {
        assert(extras_view(es@) =~= Seq::new(
            old(es)@.len(),
            |i: int|
                extra_new(old(es)@[i]@.label, old(es)@[i]@.host, old(es)@[i]@.port),
        ));
    }
}

} // verus!
