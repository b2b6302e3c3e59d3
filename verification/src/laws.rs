//! What holds of the monitor as a whole.
use vstd::prelude::*;
use crate::app::{
    app_new, elapsed_secs, lost_of, push_all_bounded, push_bounded, total_of, App, AppV, EventV,
    GatewayRole, Level, EVENTS_CAP, HIST_BUCKETS,
};
use crate::config::Config;
use crate::detector::{detector_zero, DetectorMode, ProbeWeights};
use crate::dns::{law_cleared_matrix_is_fresh, MatrixV};
use crate::intake::{amended, grade, user_probe, wifi_entry, UpdateV};
use crate::probe::{ExtraV, ProbeV};
use crate::round::{
    is_round_outcome, states_of, weight_at, Outcome, PathCause, PrimaryBatch,
    RoundResult,
};
use crate::sound::SoundEvent;
use crate::state::{law_strict_majority, quorum, tally, DesiredState, LinkState};
use crate::text::{first_at, position};
use crate::time::{Clock, Instant};

verus! {

// -------------------------------------------------------------------- rounds

/// A round that began before a reset changes nothing after it.
pub proof fn law_reset_rejects_earlier_rounds(
    a: AppV,
    reset_at: Clock,
    batch: PrimaryBatch,
    now: Instant,
    clock: Clock,
)
    requires
        batch.reset_epoch == a.reset_epoch,
    ensures
        a.restarted(reset_at).after_round(batch, now, clock) == a.restarted(reset_at),
{
    assert(a.reset_epoch.wrapping_add(1) != a.reset_epoch);
}

/// What a round does to a target depends on that target's own result alone, not on
/// what came in for the others: an observed sample is taken in, a missing one
/// leaves the target as it is. The connection is not touched before the vote.
pub proof fn law_targets_are_independent(
    a: AppV,
    results: Seq<RoundResult>,
    weights: Seq<ProbeWeights>,
    now: Instant,
    unix_ms: u64,
)
    ensures
        ({
            let b = a.sampled(results, weights, now, unix_ms);
            &&& b.primaries.len() == a.primaries.len()
            &&& b.state == a.state
            &&& b.cfg == a.cfg
            &&& b.detector_mode == a.detector_mode
            &&& forall|i: int|
                0 <= i < a.primaries.len() ==> #[trigger] b.primaries[i] == (if i
                    < results.len() {
                    match results[i] {
                        RoundResult::Observed(s) => a.primaries[i].sampled(
                            s.rtt_ns,
                            a.cfg,
                            a.detector_mode,
                            now,
                            weight_at(weights, i),
                        ),
                        RoundResult::Missing => a.primaries[i],
                    }
                } else {
                    a.primaries[i]
                })
        }),
    decreases results.len(),
{
    if results.len() > 0 {
        law_targets_are_independent(a, results.drop_last(), weights, now, unix_ms);
        let c = a.sampled(results.drop_last(), weights, now, unix_ms);
        let b = a.sampled(results, weights, now, unix_ms);
        let idx = results.len() - 1;
        assert forall|i: int| 0 <= i < a.primaries.len() implies #[trigger] b.primaries[i] == (if i
            < results.len() {
            match results[i] {
                RoundResult::Observed(s) => a.primaries[i].sampled(
                    s.rtt_ns,
                    a.cfg,
                    a.detector_mode,
                    now,
                    weight_at(weights, i),
                ),
                RoundResult::Missing => a.primaries[i],
            }
        } else {
            a.primaries[i]
        }) by {
            if i < idx {
                assert(results.drop_last()[i] == results[i]);
                assert(b.primaries[i] == c.primaries[i]);
            } else {
                assert(c.primaries[i] == a.primaries[i]);
            }
        }
    }
}

/// A cue is heard only when the connection changes its state, unless the cue for a
/// single target is switched on.
pub proof fn law_cue_means_transition(
    o: Outcome,
    a: AppV,
    batch: PrimaryBatch,
    now: Instant,
    clock: Clock,
)
    requires
        is_round_outcome(o, a, batch, now, clock),
        !a.prealert_enabled,
        o.sound is Some,
    ensures
        a.after_round(batch, now, clock).state != a.state,
        o.sound != Some(SoundEvent::ProbeAnomaly),
{
    lemma_sampled_keeps(a, batch.results@, batch.weights@, now, clock.unix_ms);
}

proof fn lemma_sampled_keeps(
    a: AppV,
    results: Seq<RoundResult>,
    weights: Seq<ProbeWeights>,
    now: Instant,
    unix_ms: u64,
)
    ensures
        a.sampled(results, weights, now, unix_ms).prealert_enabled == a.prealert_enabled,
        a.sampled(results, weights, now, unix_ms).state == a.state,
        a.sampled(results, weights, now, unix_ms).muted == a.muted,
    decreases results.len(),
{
    if results.len() > 0 {
        lemma_sampled_keeps(a, results.drop_last(), weights, now, unix_ms);
    }
}

/// The connection goes down only when more than half of the targets are down.
pub proof fn law_down_needs_a_majority(a: AppV, now: Instant)
    requires
        a.state != LinkState::Down,
        a.voted(now).state == LinkState::Down,
    ensures
        tally(states_of(a.primaries), LinkState::Down) >= quorum(a.primaries.len()),
        2 * tally(states_of(a.primaries), LinkState::Down) > a.primaries.len(),
{
}

/// A recovery goes on as long as more than half of the targets are up, whatever
/// the others do.
pub proof fn law_minority_does_not_stop_recovery(a: AppV, now: Instant)
    requires
        a.state == LinkState::Degraded,
        2 * tally(states_of(a.primaries), LinkState::Up) > a.primaries.len(),
    ensures
        ({
            let b = a.voted(now);
            ||| b.state == LinkState::Up
            ||| b.state == LinkState::Degraded && b.recovery == a.recovery.resumed(now)
        }),
{
    law_strict_majority(states_of(a.primaries));
}

/// Without a majority either way the connection stays as it is, and a recovery is
/// paused, not lost.
pub proof fn law_no_majority_holds(a: AppV, now: Instant)
    requires
        a.desired() == DesiredState::Inconclusive,
    ensures
        a.voted(now).state == a.state,
        a.state == LinkState::Degraded ==> a.voted(now).recovery == a.recovery.paused(now),
{
}

/// A round moves the connection by the vote alone, and records the time of every
/// change.
pub proof fn law_state_follows_the_vote(a: AppV, now: Instant, clock: Clock)
    requires
        a.primaries.len() > 0,
    ensures
        a.finalized(now, clock).state == a.voted(now).state,
        a.finalized(now, clock).state != a.state ==> a.finalized(now, clock).state_since == now,
        a.finalized(now, clock).state == a.state ==> a.finalized(now, clock).events == a.events,
{
}

/// While the connection is in trouble the time of its beginning is known, and
/// after a recovery it is forgotten.
pub proof fn law_trouble_has_a_beginning(a: AppV, now: Instant, clock: Clock)
    requires
        (a.state != LinkState::Up) == (a.bad_since is Some),
        (a.state == LinkState::Up) == (a.up_since is Some),
        a.primaries.len() > 0,
    ensures
        ({
            let b = a.finalized(now, clock);
            &&& (b.state != LinkState::Up) == (b.bad_since is Some)
            &&& (b.state == LinkState::Up) == (b.up_since is Some)
        }),
{
}

// ----------------------------------------------------------------- detectors

/// Detectors that are only logged change nothing but themselves.
pub proof fn law_shadow_does_not_affect_state(
    p: ProbeV,
    rtt: Option<u64>,
    cfg: Config,
    now: Instant,
    w: ProbeWeights,
)
    ensures
        p.candidate(rtt, cfg, DetectorMode::Shadow, now, w) == p.candidate(
            rtt,
            cfg,
            DetectorMode::Legacy,
            now,
            w,
        ),
        p.sampled(rtt, cfg, DetectorMode::Shadow, now, w) == (ProbeV {
            latency_detector: p.sampled(
                rtt,
                cfg,
                DetectorMode::Shadow,
                now,
                w,
            ).latency_detector,
            jitter_detector: p.sampled(rtt, cfg, DetectorMode::Shadow, now, w).jitter_detector,
            ..p.sampled(rtt, cfg, DetectorMode::Legacy, now, w)
        }),
{
    reveal(ProbeV::candidate);
    reveal(ProbeV::sampled);
}

/// A target without its detectors.
pub open spec fn unheard(p: ProbeV) -> ProbeV {
    ProbeV { latency_detector: detector_zero(), jitter_detector: detector_zero(), ..p }
}

/// A monitor without its detectors, their log and their mode.
pub open spec fn without_detectors(a: AppV) -> AppV {
    AppV {
        primaries: Seq::new(a.primaries.len(), |i: int| unheard(a.primaries[i])),
        shadow_log: Seq::empty(),
        detector_mode: DetectorMode::Legacy,
        ..a
    }
}

/// Two monitors that differ in their detectors alone, one without detectors and one
/// that only logs them, still differ in nothing else after the same sample, and the
/// target speaks for the same state in both.
pub proof fn law_shadow_affects_only_itself(
    a: AppV,
    b: AppV,
    idx: int,
    rtt: Option<u64>,
    now: Instant,
    unix_ms: u64,
    w: ProbeWeights,
)
    requires
        a.detector_mode == DetectorMode::Legacy,
        b.detector_mode == DetectorMode::Shadow,
        without_detectors(a) == without_detectors(b),
        0 <= idx,
    ensures
        without_detectors(a.ingested(idx, rtt, now, unix_ms, w)) == without_detectors(
            b.ingested(idx, rtt, now, unix_ms, w),
        ),
        idx < a.primaries.len() ==> a.primaries[idx].candidate(
            rtt,
            a.cfg,
            a.detector_mode,
            now,
            w,
        ) == b.primaries[idx].candidate(rtt, b.cfg, b.detector_mode, now, w),
{
    let (wa, wb) = (without_detectors(a), without_detectors(b));
    assert(wa.primaries.len() == a.primaries.len() && wb.primaries.len() == b.primaries.len());
    assert forall|i: int| 0 <= i < a.primaries.len() implies unheard(#[trigger] a.primaries[i])
        == unheard(b.primaries[i]) by {
        assert(wa.primaries[i] == wb.primaries[i]);
    }
    if idx < a.primaries.len() {
        let (p, q) = (a.primaries[idx], b.primaries[idx]);
        assert(unheard(p) == unheard(q));
        reveal(ProbeV::candidate);
        reveal(ProbeV::sampled);
        let x = p.sampled(rtt, a.cfg, a.detector_mode, now, w);
        let y = q.sampled(rtt, b.cfg, b.detector_mode, now, w);
        assert(p.recorded(rtt).verdict(a.cfg) == q.recorded(rtt).verdict(b.cfg));
        assert(unheard(x) == unheard(y));
        let (c, d) = (
            a.ingested(idx, rtt, now, unix_ms, w),
            b.ingested(idx, rtt, now, unix_ms, w),
        );
        assert(without_detectors(c).primaries =~= without_detectors(d).primaries);
        assert(without_detectors(c) =~= without_detectors(d));
    }
}

/// Detectors that have a say can only turn Up into Degraded.
pub proof fn law_hybrid_only_degrades(
    p: ProbeV,
    rtt: Option<u64>,
    cfg: Config,
    now: Instant,
    w: ProbeWeights,
)
    ensures
        ({
            let plain = p.candidate(rtt, cfg, DetectorMode::Legacy, now, w);
            let hybrid = p.candidate(rtt, cfg, DetectorMode::Hybrid, now, w);
            hybrid == plain || (plain == LinkState::Up && hybrid == LinkState::Degraded)
        }),
{
    reveal(ProbeV::candidate);
}

// ------------------------------------------------------- cue of one target

/// After a cue for a single target there is none for a minute.
pub proof fn law_cue_is_rate_limited(a: AppV, now: Instant, unix_ms: u64, later: Instant)
    requires
        a.cue_is_due(now),
        a.cued(now, unix_ms).cue_is_due(later),
    ensures
        elapsed_secs(Some(now), later) >= 60,
{
}

/// A muted monitor gives no cue for a single target, nor does one that was not
/// asked to, nor one whose connection is in trouble.
pub proof fn law_cue_is_optional(a: AppV, now: Instant)
    requires
        a.muted || !a.prealert_enabled || a.state != LinkState::Up,
    ensures
        !a.cue_is_due(now),
{
}

// ----------------------------------------------------------------------- log

/// The log never exceeds its size, and its last entry is the newest.
pub proof fn law_log_is_bounded(a: AppV, ts: u64, level: Level, msg: Seq<char>)
    requires
        a.events.len() <= EVENTS_CAP,
    ensures
        a.logged(ts, level, msg).events.len() <= EVENTS_CAP,
        a.logged(ts, level, msg).events.last() == (EventV { ts, level, msg }),
{
}

/// The history never exceeds its size.
pub proof fn law_history_is_bounded(a: AppV, rtt: Option<u64>, label: Seq<char>, now: Instant)
    requires
        a.hist.len() <= HIST_BUCKETS,
    ensures
        a.with_history(rtt, label, now).hist.len() <= HIST_BUCKETS,
{
}

/// A reading of the signal that keeps its grade is not logged; every other is, by
/// exactly one entry.
pub proof fn law_wifi_logs_only_grade_changes(a: AppV, rssi: Option<i16>, unix_ms: u64)
    ensures
        grade(rssi) == a.wifi_grade ==> a.with_wifi(rssi, unix_ms).events == a.events,
        grade(rssi) != a.wifi_grade ==> exists|level: Level, msg: Seq<char>|
            a.with_wifi(rssi, unix_ms).events == push_bounded(
                a.events,
                EVENTS_CAP as nat,
                EventV { ts: unix_ms, level, msg },
            ),
        a.with_wifi(rssi, unix_ms).wifi_grade == grade(rssi),
{
    if grade(rssi) != a.wifi_grade {
        let entry = wifi_entry(a.wifi_grade, rssi)->0;
        assert(a.with_wifi(rssi, unix_ms).events == push_bounded(
            a.events,
            EVENTS_CAP as nat,
            EventV { ts: unix_ms, level: entry.0, msg: entry.1 },
        ));
    }
}

// ------------------------------------------------------------- reset, gateway

proof fn lemma_zero_sums(ps: Seq<ProbeV>)
    requires
        forall|i: int| 0 <= i < ps.len() ==> (#[trigger] ps[i]).total == 0 && ps[i].lost == 0,
    ensures
        total_of(ps) == 0,
        lost_of(ps) == 0,
    decreases ps.len(),
{
    if ps.len() > 0 {
        assert(ps.last().total == 0);
        lemma_zero_sums(ps.drop_last());
    }
}

/// A reset leaves nothing of the session: no probe counted, no time accounted for,
/// no extreme, no trouble. The targets themselves stay.
pub proof fn law_reset_forgets_the_session(a: AppV, clock: Clock)
    ensures
        ({
            let b = a.restarted(clock);
            &&& b.state == LinkState::Up
            &&& total_of(b.primaries) == 0
            &&& lost_of(b.primaries) == 0
            &&& b.session_ms() == 0
            &&& b.peak_latency == 0 && b.peak_jitter == 0 && b.worst_loss_burst == 0
            &&& b.top_latency.len() == 0 && b.top_jitter.len() == 0
            &&& b.outages == 0 && b.recoveries == 0 && b.bad_since is None
            &&& b.primaries.len() == a.primaries.len()
            &&& forall|i: int|
                0 <= i < a.primaries.len() ==> (#[trigger] b.primaries[i]).label
                    == a.primaries[i].label && b.primaries[i].host == a.primaries[i].host
                    && b.primaries[i].port == a.primaries[i].port
        }),
{
    lemma_zero_sums(a.restarted(clock).primaries);
}

/// The same gateway detected again changes nothing and is reported as unchanged:
/// here `b` is the monitor `a` after the gateway has been detected once.
pub proof fn law_gateway_settles(a: AppV, b: App, gw: Seq<char>)
    requires
        b@ == a.with_gateway(gw),
    ensures
        b@.with_gateway(gw) == b@,
        b@.gateway_report(gw) == UpdateV::Unchanged,
{
    assert(b@.extras.len() == b.extras.len());
    lemma_user_probe(a.extras, gw, a.auto_gw_idx);
    lemma_user_probe(b@.extras, gw, b@.auto_gw_idx);
    if user_probe(a.extras, gw, a.auto_gw_idx) is None {
        assert forall|k: int|
            0 <= k < b@.extras.len() && Some(k as usize) != b@.auto_gw_idx implies (
        #[trigger] b@.extras[k]).host != gw by {
            if k < a.extras.len() {
                assert(b@.extras[k] == a.extras[k]);
            }
        }
        assert(user_probe(b@.extras, gw, b@.auto_gw_idx) is None);
    }
}

/// A gateway that the user lists is watched by the probe of the user, whatever was
/// detected before: no probe is touched, and nothing is reported.
pub proof fn law_listed_gateway_wins(a: App, gw: Seq<char>, i: int)
    requires
        0 <= i < a@.extras.len(),
        a.auto_gw_idx != Some(i as usize),
        a@.extras[i].host == gw,
    ensures
        a@.gateway_report(gw) == UpdateV::Unchanged,
        a@.with_gateway(gw).extras == a@.extras,
        a@.with_gateway(gw).auto_gw_idx == a.auto_gw_idx,
        a@.with_gateway(gw).gw_role matches GatewayRole::UserExtra(k) && k < a@.extras.len()
            && a@.extras[k as int].host == gw && a.auto_gw_idx != Some(k)
            && a@.with_gateway(gw).gateway_probe_idx == Some(k),
{
    assert(a@.extras.len() == a.extras.len());
    lemma_user_probe(a@.extras, gw, a.auto_gw_idx);
}

proof fn lemma_user_probe(
    extras: Seq<ExtraV>,
    host: Seq<char>,
    skip: Option<usize>,
)
    requires
        extras.len() <= usize::MAX,
    ensures
        user_probe(extras, host, skip) matches Some(i) ==> 0 <= i < extras.len()
            && extras[i].host == host && skip != Some(i as usize),
        user_probe(extras, host, skip) is None ==> forall|i: int|
            0 <= i < extras.len() && skip != Some(i as usize) ==> (#[trigger] extras[i]).host
                != host,
    decreases extras.len(),
{
    if extras.len() > 0 {
        lemma_user_probe(extras.drop_last(), host, skip);
        assert forall|i: int| 0 <= i < extras.drop_last().len() implies #[trigger] extras[i]
            == extras.drop_last()[i] by {
        }
    }
}

/// An unknown cause is amended once: when evidence has settled it, further evidence
/// leaves the log alone. No entry is added or lost.
pub proof fn law_cause_is_amended_once(a: AppV)
    ensures
        a.reconsidered().reconsidered() == a.reconsidered(),
        a.state != LinkState::Up && a.pending_cause_log_idx is Some && a.present_cause()
            != PathCause::Unknown ==> a.reconsidered().pending_cause_log_idx is None,
        a.reconsidered().events.len() == a.events.len(),
{
}

/// An amended entry keeps what stood before the cause.
pub proof fn law_amendment_keeps_the_head(msg: Seq<char>, word: Seq<char>)
    ensures
        position(msg, "cause: "@, 0) matches Some(at) ==> amended(msg, word).take(at)
            == msg.take(at),
{
    if let Some(at) = position(msg, "cause: "@, 0) {
        assert(first_at(msg, "cause: "@, 0, at));
        assert(amended(msg, word).take(at) =~= msg.take(at));
    }
}

// --------------------------------------------------------------------- start

/// A reset leaves a monitor as a new one with the same configuration would be: only what is
/// not of the session stays, that is the switches, the targets and probes by their names,
/// the resolvers and names, the gateway, the signal, the pace, and the log, which gets an
/// entry.
pub proof fn law_reset_is_a_fresh_start(
    a: AppV,
    clock: Clock,
    mode: Option<Seq<char>>,
    prealert: Option<Seq<char>>,
)
    requires
        a.dns.wf(),
    ensures
        ({
            let b = a.restarted(clock);
            let fresh = app_new(a.cfg, clock.now, mode, prealert);
            &&& b == (AppV {
                primaries: b.primaries,
                extras: b.extras,
                dns: b.dns,
                events: b.events,
                muted: a.muted,
                started: a.started,
                interval_ms: a.interval_ms,
                reset_epoch: b.reset_epoch,
                auto_gw_idx: a.auto_gw_idx,
                gw_role: a.gw_role,
                gw_cadence_ms: a.gw_cadence_ms,
                gateway_probe_idx: a.gateway_probe_idx,
                last_export: a.last_export,
                wifi_rssi: a.wifi_rssi,
                wifi_grade: a.wifi_grade,
                detector_mode: a.detector_mode,
                prealert_enabled: a.prealert_enabled,
                ..fresh
            })
            &&& b.dns == MatrixV::fresh(a.dns.resolvers, a.dns.names)
            &&& b.reset_epoch != a.reset_epoch
            &&& b.events.last().level == Level::Info && b.events.last().ts == clock.unix_ms
            &&& b.extras.len() == a.extras.len() && forall|i: int|
                0 <= i < a.extras.len() ==> (#[trigger] b.extras[i]).total == 0 && b.extras[i].host
                    == a.extras[i].host && b.extras[i].label == a.extras[i].label
                    && b.extras[i].port == a.extras[i].port && b.extras[i].state == LinkState::Up
                    && b.extras[i].last is None && b.extras[i].consec_loss == 0
            &&& forall|i: int|
                0 <= i < a.primaries.len() ==> (#[trigger] b.primaries[i]).baseline.latencies.len()
                    == 0 && b.primaries[i].lat_ring.items.len() == 0
                    && b.primaries[i].pending_worse is None && b.primaries[i].state
                    == LinkState::Up && !b.primaries[i].latency_detector.latch_active
        }),
{
    law_cleared_matrix_is_fresh(a.dns);
    assert(a.reset_epoch.wrapping_add(1) != a.reset_epoch);
}

/// A new monitor is up, has seen nothing, has no target, and counts its time from now.
pub proof fn law_new_monitor(
    cfg: Config,
    now: Instant,
    mode: Option<Seq<char>>,
    prealert: Option<Seq<char>>,
)
    ensures
        ({
            let a = app_new(cfg, now, mode, prealert);
            &&& a.state == LinkState::Up && a.bad_since is None && a.up_since == Some(now)
            &&& a.started == now && a.state_since == now && a.last_accrual == Some(now)
            &&& a.primaries.len() == 0 && a.extras.len() == 0 && a.events.len() == 0
            &&& a.session_ms() == 0 && a.outages == 0 && a.recoveries == 0
            &&& a.interval_ms == cfg.ping_interval_ms && !a.muted
            &&& a.prealert_enabled <==> prealert == Some("1"@)
            &&& a.dns.cells.len() == 3 && a.dns.names.len() == 3
            &&& a.recovery.total_ns(now) == 0 && a.last_reminder is None
            &&& a.lat_hist.items.len() == 0 && a.lat_hist.cap == 360
            &&& a.jit_hist.items.len() == 0 && a.jit_hist.cap == 360
            &&& a.wf()
        }),
{
}

/// The log keeps the latest 24 entries, in the order in which they came.
pub proof fn law_log_keeps_the_latest(a: AppV, ts: u64, level: Level, msg: Seq<char>)
    requires
        a.events.len() <= 24,
    ensures
        ({
            let all = a.events.push(EventV { ts, level, msg });
            a.logged(ts, level, msg) == (AppV {
                events: if all.len() <= 24 {
                    all
                } else {
                    all.skip(1)
                },
                ..a
            })
        }),
{
    let e = EventV { ts, level, msg };
    if a.events.len() == 24 {
        assert(a.events.drop_first().push(e) =~= a.events.push(e).skip(1));
    }
}

/// The log of the detectors keeps the latest 64 entries.
pub proof fn law_shadow_log_keeps_the_latest<T>(log: Seq<T>, news: Seq<T>)
    requires
        log.len() <= 64,
    ensures
        push_all_bounded(log, 64, news) == (if log.len() + news.len() <= 64 {
            log + news
        } else {
            (log + news).skip(log.len() + news.len() - 64)
        }),
    decreases news.len(),
{
    if news.len() == 0 {
        assert(log + news =~= log);
    } else {
        let d = news.drop_last();
        law_shadow_log_keeps_the_latest(log, d);
        let before = push_all_bounded(log, 64, d);
        assert(log + news =~= (log + d).push(news.last()));
        assert(push_all_bounded(log, 64, news) =~= if log.len() + news.len() <= 64 {
            log + news
        } else {
            (log + news).skip(log.len() + news.len() - 64)
        });
    }
}

} // verus!
