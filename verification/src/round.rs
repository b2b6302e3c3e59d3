//! Rounds of probes: every target takes in its sample, then all of them decide
//! on the connection together.
use std::collections::VecDeque;
use vstd::prelude::*;
use crate::app::{
    elapsed_ms, elapsed_secs, hist_view, ms_between, opt_str,
    probes_view, push_all_bounded, push_bounded, secs_between, total_of, App, AppV,
    GatewayRole, Level, HIST_BUCKETS, HIST_BUCKET_SECS, SHADOW_CAP,
};
use crate::detector::{ProbeWeights, Weights};
use crate::export::ExportRow;
use crate::net::PingSample;
use crate::pool::law_lost_at_most_total;
use crate::probe::{sound_ratio, ExtraV, ProbeV, ShadowEvent};
use crate::sound::SoundEvent;
use crate::state::{
    connection_recovery, connection_state, consensus, count_state, lemma_tally_total,
    reduce_connection, tally, vote, DesiredState, LinkState,
};
use crate::stats::{push_capped, push_spike, top_spikes, HistBucket, HistV, Ratio};
use crate::text::{dec, digits, fixed, fixed_text};
use crate::time::{Clock, Instant};

verus! {

/// Spikes that are remembered.
pub const SPIKES: usize = 3;

/// What one round brought for one target.
#[derive(Clone, Copy, PartialEq, Eq, Structural, Debug)]
pub enum RoundResult {
    Observed(PingSample),
    Missing,
}

/// The results of one round, target by target. `weights` are those of the
/// detectors; a target without an entry weighs nothing.
pub struct PrimaryBatch {
    pub round_id: u64,
    pub reset_epoch: u64,
    pub results: Vec<RoundResult>,
    pub weights: Vec<ProbeWeights>,
    pub started_at: Instant,
}

/// What a decision asks of the outside: a cue, a notification, a line for the
/// session file.
pub struct Outcome {
    pub sound: Option<SoundEvent>,
    pub notify: Option<&'static str>,
    pub export: Option<ExportRow>,
}

/// What a connection most likely suffers from.
#[derive(Clone, Copy, PartialEq, Eq, Structural, Debug)]
pub enum PathCause {
    GatewayFailure,
    WeakWifi,
    BeyondFirstHop,
    Unknown,
}

pub open spec fn cause_text(cause: PathCause) -> Seq<char> {
    match cause {
        PathCause::GatewayFailure => "probable gateway failure"@,
        PathCause::WeakWifi => "weak Wi-Fi signal"@,
        PathCause::BeyondFirstHop => "gateway OK; failure beyond first hop"@,
        PathCause::Unknown => "unknown"@,
    }
}

pub fn cause_word(cause: PathCause) -> (r: &'static str)
    ensures
        r@ == cause_text(cause),
{
    match cause {
        PathCause::GatewayFailure => "probable gateway failure",
        PathCause::WeakWifi => "weak Wi-Fi signal",
        PathCause::BeyondFirstHop => "gateway OK; failure beyond first hop",
        PathCause::Unknown => "unknown",
    }
}

// --------------------------------------------------------------------- cause

impl AppV {
    /// The probe that watches the gateway.
    pub open spec fn gateway(self) -> Option<ExtraV> {
        match self.gw_role {
            GatewayRole::UserExtra(i) | GatewayRole::AutoExtra(i) => if i < self.extras.len() {
                Some(self.extras[i as int])
            } else {
                None
            },
            GatewayRole::Unknown => None,
        }
    }

    /// The gateway has been probed since the trouble began.
    pub open spec fn gateway_is_fresh(self) -> bool {
        match self.gateway() {
            Some(e) => match (e.last_sample_at, self.outage_onset_at) {
                (Some(t), Some(onset)) => t.ns >= onset.ns,
                _ => false,
            },
            None => false,
        }
    }

    /// What the connection suffers from when its targets ask for `desired`. Only
    /// fresh evidence of the gateway counts; a weak signal comes second.
    pub open spec fn cause(self, desired: DesiredState) -> PathCause {
        if desired == DesiredState::Up {
            PathCause::Unknown
        } else if self.gateway_is_fresh() && self.gateway()->0.state == LinkState::Down {
            PathCause::GatewayFailure
        } else if self.gateway_is_fresh() && self.gateway()->0.state == LinkState::Up && self.state
            != LinkState::Up {
            PathCause::BeyondFirstHop
        } else if self.wifi_grade is Some && self.wifi_grade->0 <= 1 {
            PathCause::WeakWifi
        } else {
            PathCause::Unknown
        }
    }
}

impl App {
    /// The probable cause of a transition.
    pub fn path_cause(&self, desired: DesiredState, _now: Instant) -> (c: PathCause)
        ensures
            c == self@.cause(desired),
    {
        if desired == DesiredState::Up {
            return PathCause::Unknown;
        }
        let at: Option<usize> = match self.gw_role {
            GatewayRole::UserExtra(i) => Some(i),
            GatewayRole::AutoExtra(i) => Some(i),
            GatewayRole::Unknown => None,
        };
        if let Some(i) = at {
            if i < self.extras.len() {
                let fresh = match (self.extras[i].last_sample_at, self.outage_onset_at) {
                    (Some(t), Some(onset)) => t.ns >= onset.ns,
                    _ => false,
                };
                if fresh {
                    let s = self.extras[i].state;
                    if s == LinkState::Down {
                        return PathCause::GatewayFailure;
                    }
                    if s == LinkState::Up && self.state != LinkState::Up {
                        return PathCause::BeyondFirstHop;
                    }
                }
            }
        }
        if let Some(g) = self.wifi_grade {
            if g <= 1 {
                return PathCause::WeakWifi;
            }
        }
        PathCause::Unknown
    }
}

/// A probe of the gateway from before the trouble is no evidence.
pub proof fn law_stale_gateway_is_no_evidence(a: AppV, desired: DesiredState)
    requires
        !a.gateway_is_fresh(),
    ensures
        a.cause(desired) == PathCause::WeakWifi || a.cause(desired) == PathCause::Unknown,
{
}

/// Without trouble there is no cause.
pub proof fn law_no_trouble_no_cause(a: AppV)
    ensures
        a.cause(DesiredState::Up) == PathCause::Unknown,
{
}

// ------------------------------------------------------------------- samples

/// A new slice of the history is due.
pub open spec fn slice_is_due(start: Option<Instant>, now: Instant) -> bool {
    start is None || elapsed_secs(start, now) >= HIST_BUCKET_SECS
}

/// The history after a probe at `now`.
pub open spec fn hist_after(
    hist: Seq<HistV>,
    start: Option<Instant>,
    now: Instant,
    rtt: Option<u64>,
    label: Seq<char>,
) -> Seq<HistV> {
    let opened = if slice_is_due(start, now) {
        push_capped(hist, HIST_BUCKETS as nat, HistV::empty())
    } else {
        hist
    };
    if opened.len() == 0 {
        opened
    } else {
        opened.drop_last().push(opened.last().pushed(rtt, label))
    }
}

/// The entry that a target logs when its state changes.
pub open spec fn target_text(label: Seq<char>, s: LinkState) -> Seq<char> {
    "["@ + label + (match s {
        LinkState::Up => "] target recovered"@,
        LinkState::Degraded => "] target degraded"@,
        LinkState::Down => "] target unreachable"@,
    })
}

/// `edges` with the bit of target `idx` set.
pub open spec fn edge_set(edges: Seq<bool>, idx: int) -> Seq<bool> {
    Seq::new(
        if edges.len() > idx {
            edges.len()
        } else {
            (idx + 1) as nat
        },
        |i: int| i == idx || (i < edges.len() && edges[i]),
    )
}

impl AppV {
    /// The extremes of the session after a round trip, its jitter and the burst of
    /// losses that it ended. Every round trip and every jitter may be a spike.
    pub open spec fn with_peaks(
        self,
        rtt: Option<u64>,
        jit: Option<u64>,
        burst: u32,
        unix_ms: u64,
    ) -> AppV {
        let lat_peak = rtt is Some && rtt->0 > self.peak_latency;
        let jit_peak = jit is Some && jit->0 > self.peak_jitter;
        AppV {
            peak_latency: if lat_peak {
                rtt->0
            } else {
                self.peak_latency
            },
            top_latency: if rtt is Some {
                top_spikes(self.top_latency, rtt->0, unix_ms, SPIKES as nat)
            } else {
                self.top_latency
            },
            peak_jitter: if jit_peak {
                jit->0
            } else {
                self.peak_jitter
            },
            top_jitter: if jit is Some {
                top_spikes(self.top_jitter, jit->0, unix_ms, SPIKES as nat)
            } else {
                self.top_jitter
            },
            worst_loss_burst: if rtt is Some && burst > self.worst_loss_burst {
                burst
            } else {
                self.worst_loss_burst
            },
            ..self
        }
    }

    /// The history with one more probe.
    pub open spec fn with_history(self, rtt: Option<u64>, label: Seq<char>, now: Instant) -> AppV {
        AppV {
            hist: hist_after(self.hist, self.cur_bucket_start, now, rtt, label),
            cur_bucket_start: if slice_is_due(self.cur_bucket_start, now) {
                Some(now)
            } else {
                self.cur_bucket_start
            },
            ..self
        }
    }

    /// Target `idx` has gone from one state to another: an entry of the log, and a
    /// mark when it was Up.
    pub open spec fn with_target_change(
        self,
        idx: int,
        label: Seq<char>,
        prev: LinkState,
        next: LinkState,
        unix_ms: u64,
    ) -> AppV {
        if next == prev {
            self
        } else {
            AppV {
                probe_anomaly_edge: if prev == LinkState::Up {
                    edge_set(self.probe_anomaly_edge, idx)
                } else {
                    self.probe_anomaly_edge
                },
                ..self
            }.logged(unix_ms, Level::Warn, target_text(label, next))
        }
    }

    /// The monitor after target `idx` has taken in a sample.
    pub open spec fn ingested(
        self,
        idx: int,
        rtt: Option<u64>,
        now: Instant,
        unix_ms: u64,
        w: ProbeWeights,
    ) -> AppV {
        if idx >= self.primaries.len() {
            self
        } else {
            let p = self.primaries[idx];
            let q = p.sampled(rtt, self.cfg, self.detector_mode, now, w);
            let shadow = p.shadow(rtt, self.cfg, self.detector_mode, now, w);
            AppV {
                primaries: self.primaries.update(idx, q),
                shadow_log: push_all_bounded(self.shadow_log, SHADOW_CAP as nat, shadow),
                ..self
            }.with_history(rtt, p.label, now).with_peaks(
                rtt,
                p.jitter(rtt),
                p.cur_loss_burst,
                unix_ms,
            ).with_target_change(idx, p.label, p.state, q.state, unix_ms)
        }
    }

    /// There is room for a sample of target `idx`.
    pub open spec fn takes_sample(self, idx: int) -> bool {
        &&& 0 <= idx < self.primaries.len() ==> self.primaries[idx].has_room()
        &&& total_of(self.primaries) < u64::MAX
        &&& self.hist.len() > 0 ==> self.hist.last().count < u32::MAX
    }
}

proof fn lemma_total_update(ps: Seq<ProbeV>, idx: int, q: ProbeV)
    requires
        0 <= idx < ps.len(),
    ensures
        total_of(ps.update(idx, q)) == total_of(ps) - ps[idx].total + q.total,
    decreases ps.len(),
{
    let u = ps.update(idx, q);
    if idx == ps.len() - 1 {
        assert(u.drop_last() =~= ps.drop_last());
    } else {
        assert(u.drop_last() =~= ps.drop_last().update(idx, q));
        lemma_total_update(ps.drop_last(), idx, q);
    }
}

fn push_shadow(log: &mut VecDeque<ShadowEvent>, events: &Vec<ShadowEvent>)
    ensures
        final(log)@ == push_all_bounded(old(log)@, SHADOW_CAP as nat, events@),
{
    let mut i: usize = 0;
    proof {
        assert(events@.take(0) =~= Seq::empty());
    }
    while i < events.len()
        invariant
            i <= events.len(),
            log@ == push_all_bounded(old(log)@, SHADOW_CAP as nat, events@.take(i as int)),
        decreases events.len() - i,
    {
        proof {
            assert(events@.take(i + 1).drop_last() =~= events@.take(i as int));
        }
        let ghost before = log@;
        if log.len() >= SHADOW_CAP {
            log.pop_front();
        }
        log.push_back(events[i]);
        proof {
            assert(log@ =~= push_bounded(before, SHADOW_CAP as nat, events@[i as int]));
        }
        i = i + 1;
    }
    proof {
        assert(events@.take(i as int) =~= events@);
    }
}

proof fn lemma_shadow_stays_sound(log: Seq<ShadowEvent>, events: Seq<ShadowEvent>)
    requires
        forall|i: int| 0 <= i < log.len() ==> sound_ratio(#[trigger] log[i]),
        forall|i: int| 0 <= i < events.len() ==> sound_ratio(#[trigger] events[i]),
    ensures
        forall|i: int|
            0 <= i < push_all_bounded(log, SHADOW_CAP as nat, events).len() ==> sound_ratio(
                #[trigger] push_all_bounded(log, SHADOW_CAP as nat, events)[i],
            ),
    decreases events.len(),
{
    if events.len() > 0 {
        let before = push_all_bounded(log, SHADOW_CAP as nat, events.drop_last());
        let after = push_all_bounded(log, SHADOW_CAP as nat, events);
        lemma_shadow_stays_sound(log, events.drop_last());
        assert(after == push_bounded(before, SHADOW_CAP as nat, events.last()));
        assert forall|i: int| 0 <= i < after.len() implies sound_ratio(#[trigger] after[i]) by {
            if i == after.len() - 1 {
                assert(after[i] == events[events.len() - 1]);
            } else if after.len() == before.len() {
                assert(after[i] == before[i + 1]);
            } else {
                assert(after[i] == before[i]);
            }
        }
    }
}

fn mark_edge(edges: &mut Vec<bool>, idx: usize)
    requires
        idx < usize::MAX,
    ensures
        final(edges)@ == edge_set(old(edges)@, idx as int),
{
    while edges.len() <= idx
        invariant
            idx < usize::MAX,
            edges.len() >= old(edges).len(),
            edges.len() <= idx + 1 || edges.len() == old(edges).len(),
            forall|i: int|
                0 <= i < edges.len() ==> #[trigger] edges@[i] == (i < old(edges)@.len()
                    && old(edges)@[i]),
        decreases idx + 1 - edges.len(),
    {
        edges.push(false);
    }
    edges.set(idx, true);
    proof {
        assert(edges@ =~= edge_set(old(edges)@, idx as int));
    }
}

impl App {
    /// Opens a slice of the history where one is due, and enters a probe.
    fn enter_history(&mut self, rtt: Option<u64>, label: &String, now: Instant)
        requires
            old(self)@.hist.len() > 0 ==> old(self)@.hist.last().count < u32::MAX
                && old(self)@.hist.last().loss < u32::MAX,
        ensures
            final(self)@ == old(self)@.with_history(rtt, label@, now),
    {
        let due = match self.cur_bucket_start {
            None => true,
            Some(s) => secs_between(Some(s), now) >= HIST_BUCKET_SECS,
        };
        let ghost was = self@.hist;
        if due {
            if self.hist.len() == HIST_BUCKETS {
                self.hist.pop_front();
            }
            self.hist.push_back(HistBucket::default());
            self.cur_bucket_start = Some(now);
            proof {
                assert(hist_view(self.hist@) =~= push_capped(
                    was,
                    HIST_BUCKETS as nat,
                    HistV::empty(),
                ));
            }
        }
        let ghost opened = self@.hist;
        if let Some(b) = self.hist.pop_back() {
            let mut b = b;
            proof {
                assert(b@ == opened.last());
            }
            b.push(rtt, label.as_str());
            self.hist.push_back(b);
            proof {
                assert(hist_view(self.hist@) =~= opened.drop_last().push(
                    opened.last().pushed(rtt, label@),
                ));
            }
        }
        proof {
            assert(self@.hist == hist_after(
                old(self)@.hist,
                old(self)@.cur_bucket_start,
                now,
                rtt,
                label@,
            ));
        }
    }

    fn note_peaks(&mut self, rtt: Option<u64>, jit: Option<u64>, burst: u32, unix_ms: u64)
        ensures
            final(self)@ == old(self)@.with_peaks(rtt, jit, burst, unix_ms),
    {
        if let Some(v) = rtt {
            if v > self.peak_latency {
                self.peak_latency = v;
            }
            push_spike(&mut self.top_latency, v, unix_ms, SPIKES);
            if burst > self.worst_loss_burst {
                self.worst_loss_burst = burst;
            }
        }
        if let Some(d) = jit {
            if d > self.peak_jitter {
                self.peak_jitter = d;
            }
            push_spike(&mut self.top_jitter, d, unix_ms, SPIKES);
        }
    }

    fn note_target_change(
        &mut self,
        idx: usize,
        label: &String,
        prev: LinkState,
        next: LinkState,
        unix_ms: u64,
    )
        requires
            idx < usize::MAX,
        ensures
            final(self)@ == old(self)@.with_target_change(idx as int, label@, prev, next, unix_ms),
    {
        if next != prev {
            if prev == LinkState::Up {
                mark_edge(&mut self.probe_anomaly_edge, idx);
            }
            let mut msg = String::from_str("[");
            msg.append(label.as_str());
            match next {
                LinkState::Up => msg.append("] target recovered"),
                LinkState::Degraded => msg.append("] target degraded"),
                LinkState::Down => msg.append("] target unreachable"),
            }
            proof {
                assert(msg@ =~= target_text(label@, next));
            }
            self.log(Level::Warn, msg, unix_ms);
        }
    }

    /// Target `idx` takes in a sample. Returns the state that it speaks for.
    pub fn ingest_sample_at(
        &mut self,
        idx: usize,
        sample: PingSample,
        now: Instant,
        unix_ms: u64,
        w: ProbeWeights,
    ) -> (r: Option<LinkState>)
        requires
            old(self).wf(),
            old(self)@.takes_sample(idx as int),
        ensures
            final(self).wf(),
            final(self)@ == old(self)@.ingested(idx as int, sample.rtt_ns, now, unix_ms, w),
            r == (if idx < old(self)@.primaries.len() {
                Some(
                    old(self)@.primaries[idx as int].candidate(
                        sample.rtt_ns,
                        old(self)@.cfg,
                        old(self)@.detector_mode,
                        now,
                        w,
                    ),
                )
            } else {
                None
            }),
            final(self)@.primaries.len() == old(self)@.primaries.len(),
            total_of(final(self)@.primaries) <= total_of(old(self)@.primaries) + 1,
            final(self)@.hist.len() > 0 ==> final(self)@.hist.last().count <= (if old(
                self,
            )@.hist.len() > 0 {
                old(self)@.hist.last().count
            } else {
                0
            }) + 1,
    {
        if idx >= self.primaries.len() {
            return None;
        }
        let ghost p = self@.primaries[idx as int];
        let rtt = sample.rtt_ns;
        let label = self.primaries[idx].label.clone();
        proof {
            if self@.hist.len() > 0 {
                assert(self@.hist.last().loss <= self@.hist.last().count);
            }
            assert(p.wf());
        }
        let prev = self.primaries[idx].state;
        let burst: u32 = self.primaries[idx].cur_loss_burst;
        let cfg = self.cfg;
        let mode = self.detector_mode;
        let s = self.primaries[idx].sample(rtt, &cfg, mode, now, w);
        let ghost q = p.sampled(rtt, cfg, mode, now, w);
        let next = self.primaries[idx].state;
        push_shadow(&mut self.shadow_log, &s.shadow);
        proof {
            assert(probes_view(self.primaries@) =~= old(self)@.primaries.update(idx as int, q));
            lemma_total_update(old(self)@.primaries, idx as int, q);
            lemma_shadow_stays_sound(old(self)@.shadow_log, s.shadow@);
            assert(self@ =~= (AppV {
                primaries: old(self)@.primaries.update(idx as int, q),
                shadow_log: self.shadow_log@,
                ..old(self)@
            }));
        }
        self.enter_history(rtt, &label, now);
        self.note_peaks(rtt, s.jitter, burst, unix_ms);
        self.note_target_change(idx, &label, prev, next, unix_ms);
        proof {
            assert forall|i: int| 0 <= i < self@.primaries.len() implies (
            #[trigger] self@.primaries[i]).wf() by {
                if i != idx {
                    assert(self@.primaries[i] == old(self)@.primaries[i]);
                }
            }
        }
        Some(s.candidate)
    }
}

// ------------------------------------------------------------------ decision

/// The states of the targets.
pub open spec fn states_of(ps: Seq<ProbeV>) -> Seq<LinkState> {
    Seq::new(ps.len(), |i: int| ps[i].state)
}

/// How the targets stand, for the log: how many are up, the loss of all, and the
/// numbers of those up, degraded and down.
pub open spec fn consensus_text(ps: Seq<ProbeV>, loss: Ratio) -> Seq<char> {
    let states = states_of(ps);
    let up = tally(states, LinkState::Up);
    let down = tally(states, LinkState::Down);
    "targets "@ + digits(up) + "/"@ + digits(ps.len()) + " up  loss "@ + fixed_text(
        loss.num as nat,
        loss.den as nat,
        0,
    ) + "%  ("@ + digits(up) + "/"@ + digits((ps.len() - up - down) as nat) + "/"@ + digits(down)
        + ")"@
}

/// How serious a transition is.
pub open spec fn turn_level(next: LinkState) -> Level {
    match next {
        LinkState::Up => Level::Good,
        LinkState::Degraded => Level::Warn,
        LinkState::Down => Level::Bad,
    }
}

/// The entry that a transition logs.
pub open spec fn turn_text(
    prev: LinkState,
    next: LinkState,
    targets: Seq<char>,
    cause: PathCause,
) -> Seq<char> {
    match next {
        LinkState::Up => "connection recovered  "@ + targets + "  ♪ recover"@,
        LinkState::Degraded => if prev == LinkState::Up {
            "connection degraded  "@ + targets + "  cause: "@ + cause_text(cause)
                + "  ♪ degraded"@
        } else {
            "improving → degraded  "@ + targets
        },
        LinkState::Down => "connection DOWN  "@ + targets + "  cause: "@ + cause_text(cause)
            + "  ♪ down"@,
    }
}

/// A transition that is told of: all but a first improvement.
pub open spec fn turn_is_told(prev: LinkState, next: LinkState) -> bool {
    !(prev == LinkState::Down && next == LinkState::Degraded)
}

/// The cue of a transition.
pub open spec fn turn_sound(prev: LinkState, next: LinkState) -> Option<SoundEvent> {
    match next {
        LinkState::Up => Some(SoundEvent::Recover),
        LinkState::Degraded => if prev == LinkState::Up {
            Some(SoundEvent::Loss)
        } else {
            None
        },
        LinkState::Down => Some(SoundEvent::Down),
    }
}

/// The notification of a transition.
pub open spec fn turn_notice(prev: LinkState, next: LinkState) -> Option<Seq<char>> {
    match next {
        LinkState::Up => Some("connection recovered"@),
        LinkState::Degraded => if prev == LinkState::Up {
            Some("connection degraded"@)
        } else {
            None
        },
        LinkState::Down => Some("connection DOWN"@),
    }
}

impl AppV {
    /// What the targets ask for.
    pub open spec fn desired(self) -> DesiredState {
        vote(states_of(self.primaries))
    }

    /// The connection after the vote, before anything is made of it.
    pub open spec fn voted(self, now: Instant) -> AppV {
        let desired = self.desired();
        let next = connection_state(
            self.state,
            desired,
            self.recovery,
            self.cfg.recover_dwell,
            now,
        );
        AppV {
            state: next,
            state_since: if next != self.state {
                now
            } else {
                self.state_since
            },
            recovery: connection_recovery(
                self.state,
                desired,
                self.recovery,
                self.cfg.recover_dwell,
                now,
            ),
            outage_onset_at: if desired == DesiredState::Up {
                None
            } else if self.outage_onset_at is None {
                Some(now)
            } else {
                self.outage_onset_at
            },
            ..self
        }
    }

    /// The records of the session after the connection has left `prev`.
    pub open spec fn with_turn_counted(self, prev: LinkState, now: Instant, at: Instant) -> AppV {
        let up_secs = elapsed_secs(self.up_since, at);
        let back = self.state == LinkState::Up && self.bad_since is Some;
        AppV {
            best_uptime_secs: if prev == LinkState::Up && self.up_since is Some && up_secs
                > self.best_uptime_secs {
                up_secs as u64
            } else {
                self.best_uptime_secs
            },
            up_since: if self.state == LinkState::Up {
                Some(now)
            } else if prev == LinkState::Up {
                None
            } else {
                self.up_since
            },
            mttr_ms_total: if back {
                (self.mttr_ms_total + elapsed_ms(self.bad_since, at)) as u64
            } else {
                self.mttr_ms_total
            },
            recoveries: if back {
                (self.recoveries + 1) as u32
            } else {
                self.recoveries
            },
            bad_since: if self.state == LinkState::Up {
                None
            } else if self.bad_since is None {
                Some(now)
            } else {
                self.bad_since
            },
            outages: if self.state == LinkState::Down {
                (self.outages + 1) as u32
            } else {
                self.outages
            },
            last_reminder: Some(now),
            ..self
        }
    }

    /// The log after the connection has left `prev`. An unknown cause is kept in
    /// mind, to be amended when evidence comes in.
    pub open spec fn with_turn_logged(
        self,
        prev: LinkState,
        desired: DesiredState,
        unix_ms: u64,
    ) -> AppV {
        let cause = self.cause(desired);
        let told = self.logged(
            unix_ms,
            turn_level(self.state),
            turn_text(prev, self.state, consensus_text(self.primaries, self.loss()), cause),
        );
        AppV {
            pending_cause_log_idx: if self.state == LinkState::Up {
                None
            } else if turn_is_told(prev, self.state) && cause == PathCause::Unknown {
                Some((told.events.len() - 1) as usize)
            } else {
                self.pending_cause_log_idx
            },
            ..told
        }
    }

    /// A target is about to get worse.
    pub open spec fn any_worsening(self) -> bool {
        exists|i: int|
            0 <= i < self.primaries.len() && (#[trigger] self.primaries[i]).pending_worse is Some
    }

    /// How often to probe: twice as often in trouble; the gateway five times as
    /// often in trouble or when trouble is near.
    pub open spec fn paced(self) -> AppV {
        AppV {
            interval_ms: if self.state == LinkState::Up {
                1_000
            } else {
                500
            },
            gw_cadence_ms: if self.any_worsening() || self.state != LinkState::Up {
                1_000
            } else {
                5_000
            },
            ..self
        }
    }

    /// The monitor after the vote, with the transition recorded if there was one.
    pub open spec fn turned(self, now: Instant, clock: Clock) -> AppV {
        let b = self.voted(now);
        if b.state == self.state {
            b
        } else {
            b.with_turn_counted(self.state, now, clock.now).with_turn_logged(
                self.state,
                self.desired(),
                clock.unix_ms,
            )
        }
    }

    /// The monitor after a round has been decided.
    pub open spec fn finalized(self, now: Instant, clock: Clock) -> AppV {
        let a = self.accrued(clock.now);
        if a.primaries.len() == 0 {
            a
        } else {
            a.turned(now, clock).paced()
        }
    }

    /// The round leads to a transition.
    pub open spec fn turns(self, now: Instant) -> bool {
        self.primaries.len() > 0 && self.voted(now).state != self.state
    }
}

/// What a decided round asks of the outside.
pub open spec fn is_outcome(o: Outcome, before: AppV, now: Instant, clock: Clock) -> bool {
    let next = before.voted(now).state;
    if before.turns(now) {
        &&& o.sound == turn_sound(before.state, next)
        &&& opt_str(o.notify) == turn_notice(before.state, next)
        &&& o.export == Some(before.accrued(clock.now).turned(now, clock).row(clock))
    } else {
        o.sound is None && o.notify is None && o.export is None
    }
}

impl App {
    /// The states of the targets.
    pub fn target_states(&self) -> (r: Vec<LinkState>)
        ensures
            r@ == states_of(self@.primaries),
    {
        let mut r: Vec<LinkState> = Vec::new();
        let mut i: usize = 0;
        while i < self.primaries.len()
            invariant
                i <= self.primaries.len(),
                r@.len() == i,
                forall|k: int| 0 <= k < i ==> #[trigger] r@[k] == self@.primaries[k].state,
            decreases self.primaries.len() - i,
        {
            r.push(self.primaries[i].state);
            i = i + 1;
        }
        proof {
            assert(r@ =~= states_of(self@.primaries));
        }
        r
    }

    fn consensus_msg(&self) -> (s: String)
        requires
            self.wf(),
        ensures
            s@ == consensus_text(self@.primaries, self@.loss()),
    {
        let states = self.target_states();
        let up: usize = count_state(states.as_slice(), LinkState::Up);
        let down: usize = count_state(states.as_slice(), LinkState::Down);
        let n: usize = self.primaries.len();
        let loss = self.loss_pct();
        proof {
            lemma_tally_total(states_of(self@.primaries));
            law_lost_at_most_total(self@.primaries);
        }
        let mut s = String::from_str("targets ");
        s.append(dec(up as u128).as_str());
        s.append("/");
        s.append(dec(n as u128).as_str());
        s.append(" up  loss ");
        s.append(fixed(loss.num, loss.den, 0).as_str());
        s.append("%  (");
        s.append(dec(up as u128).as_str());
        s.append("/");
        s.append(dec((n - up - down) as u128).as_str());
        s.append("/");
        s.append(dec(down as u128).as_str());
        s.append(")");
        s
    }

    fn vote_on_connection(&mut self, now: Instant) -> (d: DesiredState)
        requires
            old(self)@.recovery.has_room(),
        ensures
            final(self)@ == old(self)@.voted(now),
            d == old(self)@.desired(),
    {
        let states = self.target_states();
        let desired = consensus(states.as_slice());
        let next = reduce_connection(
            self.state,
            desired,
            &mut self.recovery,
            self.cfg.recover_dwell,
            now,
        );
        if next != self.state {
            self.state = next;
            self.state_since = now;
        }
        if desired == DesiredState::Up {
            self.outage_onset_at = None;
        } else if self.outage_onset_at.is_none() {
            self.outage_onset_at = Some(now);
        }
        desired
    }

    fn count_turn(&mut self, prev: LinkState, now: Instant, at: Instant)
        requires
            old(self)@.mttr_ms_total + elapsed_ms(old(self)@.bad_since, at) <= u64::MAX,
            old(self)@.outages < u32::MAX,
            old(self)@.recoveries < u32::MAX,
            prev != old(self)@.state,
        ensures
            final(self)@ == old(self)@.with_turn_counted(prev, now, at),
    {
        if prev == LinkState::Up {
            if let Some(s) = self.up_since {
                let secs: u64 = secs_between(Some(s), at);
                if secs > self.best_uptime_secs {
                    self.best_uptime_secs = secs;
                }
            }
            self.up_since = None;
        }
        if self.state == LinkState::Up {
            self.up_since = Some(now);
            if let Some(s) = self.bad_since {
                self.mttr_ms_total = self.mttr_ms_total + ms_between(Some(s), at);
                self.recoveries = self.recoveries + 1;
                self.bad_since = None;
            }
        } else if self.bad_since.is_none() {
            self.bad_since = Some(now);
        }
        if self.state == LinkState::Down {
            self.outages = self.outages + 1;
        }
        self.last_reminder = Some(now);
    }

    fn log_turn(&mut self, prev: LinkState, desired: DesiredState, now: Instant, unix_ms: u64) -> (
        r: (Option<SoundEvent>, Option<&'static str>))
        requires
            old(self).wf(),
            prev != old(self)@.state,
        ensures
            final(self)@ == old(self)@.with_turn_logged(prev, desired, unix_ms),
            r.0 == turn_sound(prev, old(self)@.state),
            opt_str(r.1) == turn_notice(prev, old(self)@.state),
    {
        let targets = self.consensus_msg();
        let cause = self.path_cause(desired, now);
        match self.state {
            LinkState::Up => {
                let mut msg = String::from_str("connection recovered  ");
                msg.append(targets.as_str());
                msg.append("  ♪ recover");
                self.log(Level::Good, msg, unix_ms);
                self.pending_cause_log_idx = None;
                (Some(SoundEvent::Recover), Some("connection recovered"))
            },
            LinkState::Degraded => {
                if prev == LinkState::Up {
                    let mut msg = String::from_str("connection degraded  ");
                    msg.append(targets.as_str());
                    msg.append("  cause: ");
                    msg.append(cause_word(cause));
                    msg.append("  ♪ degraded");
                    self.log(Level::Warn, msg, unix_ms);
                    if cause == PathCause::Unknown {
                        self.pending_cause_log_idx = Some(self.events.len() - 1);
                    }
                    (Some(SoundEvent::Loss), Some("connection degraded"))
                } else {
                    let mut msg = String::from_str("improving → degraded  ");
                    msg.append(targets.as_str());
                    self.log(Level::Warn, msg, unix_ms);
                    (None, None)
                }
            },
            LinkState::Down => {
                let mut msg = String::from_str("connection DOWN  ");
                msg.append(targets.as_str());
                msg.append("  cause: ");
                msg.append(cause_word(cause));
                msg.append("  ♪ down");
                self.log(Level::Bad, msg, unix_ms);
                if cause == PathCause::Unknown {
                    self.pending_cause_log_idx = Some(self.events.len() - 1);
                }
                (Some(SoundEvent::Down), Some("connection DOWN"))
            },
        }
    }

    fn set_pace(&mut self)
        ensures
            final(self)@ == old(self)@.paced(),
    {
        let mut worsening = false;
        let mut i: usize = 0;
        while i < self.primaries.len()
            invariant
                i <= self.primaries.len(),
                *self == *old(self),
                worsening == (exists|k: int|
                    0 <= k < i && (#[trigger] self@.primaries[k]).pending_worse is Some),
            decreases self.primaries.len() - i,
        {
            let here = self.primaries[i].pending_worse.is_some();
            proof {
                if here {
                    assert(self@.primaries[i as int].pending_worse is Some);
                }
            }
            worsening = worsening || here;
            i = i + 1;
        }
        self.interval_ms = if self.state == LinkState::Up {
            1_000
        } else {
            500
        };
        self.gw_cadence_ms = if worsening || self.state != LinkState::Up {
            1_000
        } else {
            5_000
        };
    }

    /// Decides a round: the vote, the transition if there is one, and the pace.
    pub fn finalize_generation(&mut self, now: Instant, clock: Clock) -> (o: Outcome)
        requires
            old(self).wf(),
            old(self)@.has_room_to_decide(clock.now),
        ensures
            final(self).wf(),
            final(self)@ == old(self)@.finalized(now, clock),
            is_outcome(o, old(self)@, now, clock),
    {
        self.accrue_state_time(clock.now);
        if self.primaries.len() == 0 {
            return Outcome { sound: None, notify: None, export: None };
        }
        let prev = self.state;
        let desired = self.vote_on_connection(now);
        let mut o = Outcome { sound: None, notify: None, export: None };
        if self.state != prev {
            self.count_turn(prev, now, clock.now);
            let (sound, notify) = self.log_turn(prev, desired, now, clock.unix_ms);
            o = Outcome { sound, notify, export: Some(self.export_row(clock)) };
        }
        self.set_pace();
        o
    }
}

// ----------------------------------------------------------------------- cue

/// Marked targets that are still in trouble, among the first `n`.
pub open spec fn marked_bad(edges: Seq<bool>, ps: Seq<ProbeV>, n: nat) -> nat
    decreases n,
{
    if n == 0 {
        0
    } else {
        let i = n - 1;
        marked_bad(edges, ps, i as nat) + (if i < edges.len() && i < ps.len() && edges[i]
            && ps[i].state != LinkState::Up {
            1nat
        } else {
            0
        })
    }
}

impl AppV {
    /// No cue of a single target in the last minute.
    pub open spec fn cue_is_rested(self, now: Instant) -> bool {
        self.probe_anomaly_cooldown_at is None || elapsed_secs(
            self.probe_anomaly_cooldown_at,
            now,
        ) >= 60
    }

    /// The connection is up, exactly one target has just left Up, and all others
    /// are up.
    pub open spec fn one_target_fails(self) -> bool {
        &&& self.state == LinkState::Up
        &&& marked_bad(self.probe_anomaly_edge, self.primaries, self.probe_anomaly_edge.len()) == 1
        &&& forall|i: int|
            0 <= i < self.primaries.len() ==> (#[trigger] self.primaries[i]).state
                == LinkState::Up || (i < self.probe_anomaly_edge.len()
                && self.probe_anomaly_edge[i])
    }

    /// The cue of a single target is due.
    pub open spec fn cue_is_due(self, now: Instant) -> bool {
        self.prealert_enabled && !self.muted && self.cue_is_rested(now) && self.one_target_fails()
    }

    /// The monitor after the cue has been considered.
    pub open spec fn cued(self, now: Instant, unix_ms: u64) -> AppV {
        if self.cue_is_due(now) {
            AppV { probe_anomaly_cooldown_at: Some(now), ..self }.logged(
                unix_ms,
                Level::Warn,
                "isolated target anomaly detected  ♪ probe anomaly"@,
            )
        } else {
            self
        }
    }

    /// The marks of the round are wiped.
    pub open spec fn unmarked(self) -> AppV {
        AppV {
            probe_anomaly_edge: Seq::new(self.probe_anomaly_edge.len(), |i: int| false),
            ..self
        }
    }

    /// The pooled windows with the present medians.
    pub open spec fn with_medians(self) -> AppV {
        AppV {
            lat_hist: self.lat_hist.pushed(self.last_value()),
            jit_hist: self.jit_hist.pushed(self.jitter()),
            ..self
        }
    }

    /// The monitor after the results of a round, in the order of the targets. A
    /// missing result leaves its target as it is.
    pub open spec fn sampled(
        self,
        results: Seq<RoundResult>,
        weights: Seq<ProbeWeights>,
        now: Instant,
        unix_ms: u64,
    ) -> AppV
        decreases results.len(),
    {
        if results.len() == 0 {
            self
        } else {
            let a = self.sampled(results.drop_last(), weights, now, unix_ms);
            let idx = results.len() - 1;
            match results.last() {
                RoundResult::Observed(s) => a.ingested(
                    idx,
                    s.rtt_ns,
                    now,
                    unix_ms,
                    weight_at(weights, idx),
                ),
                RoundResult::Missing => a,
            }
        }
    }

    /// The counters have room for a round; one of an earlier session needs none.
    pub open spec fn takes_round(self, batch: PrimaryBatch, now: Instant) -> bool {
        batch.reset_epoch == self.reset_epoch ==> self.has_room(batch.results@.len(), now)
    }

    /// The monitor after a round of this session; a round of an earlier one
    /// changes nothing.
    pub open spec fn after_round(self, batch: PrimaryBatch, now: Instant, clock: Clock) -> AppV {
        if batch.reset_epoch != self.reset_epoch {
            self
        } else {
            self.sampled(batch.results@, batch.weights@, now, clock.unix_ms).with_medians().decided(
                now,
                clock,
            )
        }
    }

    /// The cue of the transition that a round leads to.
    pub open spec fn round_sound(self, now: Instant) -> Option<SoundEvent> {
        if self.turns(now) {
            turn_sound(self.state, self.voted(now).state)
        } else {
            None
        }
    }

    /// The monitor after a round has been decided, and after the cue of a single
    /// target has been considered where there is no other.
    pub open spec fn decided(self, now: Instant, clock: Clock) -> AppV {
        let b = self.finalized(now, clock);
        if self.round_sound(now) is Some {
            b.unmarked()
        } else {
            b.cued(now, clock.unix_ms).unmarked()
        }
    }
}

/// The weights of a target; nothing where there are none.
pub open spec fn weight_at(ws: Seq<ProbeWeights>, i: int) -> ProbeWeights {
    if 0 <= i < ws.len() {
        ws[i]
    } else {
        ProbeWeights {
            latency: Weights { short: 0, long: 0 },
            jitter: Weights { short: 0, long: 0 },
        }
    }
}

fn weights_of(ws: &Vec<ProbeWeights>, i: usize) -> (w: ProbeWeights)
    ensures
        w == weight_at(ws@, i as int),
{
    if i < ws.len() {
        ws[i]
    } else {
        ProbeWeights {
            latency: Weights { short: 0, long: 0 },
            jitter: Weights { short: 0, long: 0 },
        }
    }
}

/// What a round asks of the outside when its samples have led to `a`.
pub open spec fn is_decision(o: Outcome, a: AppV, now: Instant, clock: Clock) -> bool {
    &&& is_outcome(Outcome { sound: a.round_sound(now), ..o }, a, now, clock)
    &&& o.sound == (if a.round_sound(now) is Some {
        a.round_sound(now)
    } else if a.finalized(now, clock).cue_is_due(now) {
        Some(SoundEvent::ProbeAnomaly)
    } else {
        None
    })
}

/// What a round asks of the outside.
pub open spec fn is_round_outcome(
    o: Outcome,
    before: AppV,
    batch: PrimaryBatch,
    now: Instant,
    clock: Clock,
) -> bool {
    if batch.reset_epoch != before.reset_epoch {
        o.sound is None && o.notify is None && o.export is None
    } else {
        is_decision(
            o,
            before.sampled(batch.results@, batch.weights@, now, clock.unix_ms).with_medians(),
            now,
            clock,
        )
    }
}

impl App {
    fn one_target_fails(&self) -> (r: bool)
        ensures
            r == self@.one_target_fails(),
    {
        let mut marked: usize = 0;
        let mut i: usize = 0;
        let ghost edges = self@.probe_anomaly_edge;
        let ghost ps = self@.primaries;
        while i < self.probe_anomaly_edge.len()
            invariant
                i <= self.probe_anomaly_edge.len(),
                edges == self@.probe_anomaly_edge,
                ps == self@.primaries,
                marked <= i,
                marked == marked_bad(edges, ps, i as nat),
            decreases self.probe_anomaly_edge.len() - i,
        {
            if self.probe_anomaly_edge[i] && i < self.primaries.len() && self.primaries[i].state
                != LinkState::Up {
                marked = marked + 1;
            }
            i = i + 1;
        }
        let mut others_up = true;
        let mut k: usize = 0;
        while k < self.primaries.len()
            invariant
                k <= self.primaries.len(),
                edges == self@.probe_anomaly_edge,
                ps == self@.primaries,
                others_up == (forall|i: int|
                    0 <= i < k ==> (#[trigger] ps[i]).state == LinkState::Up || (i < edges.len()
                        && edges[i])),
            decreases self.primaries.len() - k,
        {
            let fine = self.primaries[k].state == LinkState::Up || (k
                < self.probe_anomaly_edge.len() && self.probe_anomaly_edge[k]);
            proof {
                assert(ps[k as int].state == self.primaries@[k as int].state);
            }
            others_up = others_up && fine;
            k = k + 1;
        }
        marked == 1 && others_up && self.state == LinkState::Up
    }

    /// Considers the cue of a single target.
    pub fn evaluate_probe_anomaly_cue(&mut self, now: Instant, unix_ms: u64) -> (r: Option<
        SoundEvent,
    >)
        ensures
            final(self)@ == old(self)@.cued(now, unix_ms),
            r == (if old(self)@.cue_is_due(now) {
                Some(SoundEvent::ProbeAnomaly)
            } else {
                None
            }),
    {
        if !self.prealert_enabled || self.muted {
            return None;
        }
        let rested = match self.probe_anomaly_cooldown_at {
            Some(t) => secs_between(Some(t), now) >= 60,
            None => true,
        };
        if !rested {
            return None;
        }
        if self.one_target_fails() {
            self.probe_anomaly_cooldown_at = Some(now);
            self.log(
                Level::Warn,
                String::from_str("isolated target anomaly detected  ♪ probe anomaly"),
                unix_ms,
            );
            Some(SoundEvent::ProbeAnomaly)
        } else {
            None
        }
    }

    fn unmark(&mut self)
        ensures
            final(self)@ == old(self)@.unmarked(),
    {
        let n: usize = self.probe_anomaly_edge.len();
        let mut edges: Vec<bool> = Vec::new();
        while edges.len() < n
            invariant
                edges.len() <= n,
                forall|i: int| 0 <= i < edges.len() ==> !(#[trigger] edges@[i]),
            decreases n - edges.len(),
        {
            edges.push(false);
        }
        self.probe_anomaly_edge = edges;
        proof {
            assert(self@.probe_anomaly_edge =~= old(self)@.unmarked().probe_anomaly_edge);
        }
    }

    fn push_medians(&mut self)
        ensures
            final(self)@ == old(self)@.with_medians(),
    {
        let lat = self.last_value_view();
        self.lat_hist.push(lat);
        let jit = self.jitter_view();
        proof {
            assert(self@.primaries == old(self)@.primaries);
        }
        self.jit_hist.push(jit);
    }

    /// One sample of one target, decided at once.
    pub fn ingest_ping(
        &mut self,
        idx: usize,
        sample: PingSample,
        clock: Clock,
        w: ProbeWeights,
    ) -> (o: Outcome)
        requires
            old(self).wf(),
            old(self)@.has_room(1, clock.now),
        ensures
            final(self).wf(),
            final(self)@ == old(self)@.ingested(
                idx as int,
                sample.rtt_ns,
                clock.now,
                clock.unix_ms,
                w,
            ).with_medians().finalized(clock.now, clock).unmarked(),
            is_outcome(
                o,
                old(self)@.ingested(
                    idx as int,
                    sample.rtt_ns,
                    clock.now,
                    clock.unix_ms,
                    w,
                ).with_medians(),
                clock.now,
                clock,
            ),
    {
        self.ingest_sample_at(idx, sample, clock.now, clock.unix_ms, w);
        self.push_medians();
        let o = self.finalize_generation(clock.now, clock);
        self.unmark();
        o
    }

    /// Decides a round, and considers the cue of a single target.
    fn decide_round(&mut self, now: Instant, clock: Clock) -> (o: Outcome)
        requires
            old(self).wf(),
            old(self)@.has_room_to_decide(clock.now),
        ensures
            final(self).wf(),
            final(self)@ == old(self)@.decided(now, clock),
            is_decision(o, old(self)@, now, clock),
    {
        let o = self.finalize_generation(now, clock);
        let mut sound = o.sound;
        if sound.is_none() {
            sound = self.evaluate_probe_anomaly_cue(now, clock.unix_ms);
        }
        self.unmark();
        Outcome { sound, notify: o.notify, export: o.export }
    }

    /// A round of samples, decided at the time of `clock`.
    pub fn ingest_generation(&mut self, batch: PrimaryBatch, clock: Clock) -> (o: Outcome)
        requires
            old(self).wf(),
            old(self)@.takes_round(batch, clock.now),
        ensures
            final(self).wf(),
            final(self)@ == old(self)@.after_round(batch, clock.now, clock),
            is_round_outcome(o, old(self)@, batch, clock.now, clock),
    {
        self.ingest_generation_at(batch, clock.now, clock)
    }

    /// A round of samples that were taken at `now`.
    pub fn ingest_generation_at(&mut self, batch: PrimaryBatch, now: Instant, clock: Clock) -> (o:
        Outcome)
        requires
            old(self).wf(),
            old(self)@.takes_round(batch, clock.now),
        ensures
            final(self).wf(),
            final(self)@ == old(self)@.after_round(batch, now, clock),
            is_round_outcome(o, old(self)@, batch, now, clock),
    {
        if batch.reset_epoch != self.reset_epoch {
            return Outcome { sound: None, notify: None, export: None };
        }
        self.ingest_results(&batch.results, &batch.weights, now, clock);
        self.push_medians();
        self.decide_round(now, clock)
    }

    fn ingest_results(
        &mut self,
        results: &Vec<RoundResult>,
        weights: &Vec<ProbeWeights>,
        now: Instant,
        clock: Clock,
    )
        requires
            old(self).wf(),
            old(self)@.has_room(results@.len(), clock.now),
        ensures
            final(self).wf(),
            final(self)@ == old(self)@.sampled(results@, weights@, now, clock.unix_ms),
            final(self)@.has_room_to_decide(clock.now),
    {
        let mut i: usize = 0;
        proof {
            assert(results@.take(0) =~= Seq::empty());
        }
        while i < results.len()
            invariant
                i <= results.len(),
                self.wf(),
                self@ == old(self)@.sampled(
                    results@.take(i as int),
                    weights@,
                    now,
                    clock.unix_ms,
                ),
                self@.has_room_to_decide(clock.now),
                forall|k: int|
                    i <= k < self@.primaries.len() ==> (#[trigger] self@.primaries[k]).has_room(),
                total_of(self@.primaries) + (results@.len() - i) <= u64::MAX,
                self@.hist.len() > 0 ==> self@.hist.last().count + (results@.len() - i)
                    <= u32::MAX,
                results@.len() <= u32::MAX,
            decreases results.len() - i,
        {
            proof {
                assert(results@.take(i + 1).drop_last() =~= results@.take(i as int));
            }
            if let RoundResult::Observed(s) = results[i] {
                self.ingest_sample_at(i, s, now, clock.unix_ms, weights_of(weights, i));
            }
            i = i + 1;
        }
        proof {
            assert(results@.take(i as int) =~= results@);
        }
    }
}

} // verus!
