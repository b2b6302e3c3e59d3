//! What holds of the samples of the targets: the history, the extremes, the marks, the
//! cue of a single target, and the cause of a trouble.
use vstd::prelude::*;
use crate::app::{AppV, GatewayRole, Level};
use crate::detector::ProbeWeights;
use crate::laws::law_shadow_log_keeps_the_latest;
use crate::probe::ProbeV;
use crate::round::{is_decision, marked_bad, target_text, Outcome, PathCause};
use crate::sound::SoundEvent;
use crate::state::{DesiredState, LinkState};
use crate::stats::{top_spikes, HistV};
use crate::time::{Clock, Instant};

verus! {

/// A sample goes into the slice of the history that is open, and opens a new one where
/// there is none or where the open one has lasted thirty seconds. Earlier slices stay;
/// of a full history the oldest is dropped.
pub proof fn law_history_in_slices(
    a: AppV,
    idx: int,
    rtt: Option<u64>,
    now: Instant,
    unix_ms: u64,
    w: ProbeWeights,
)
    requires
        0 <= idx < a.primaries.len(),
        a.hist.len() <= 120,
        a.cur_bucket_start is Some ==> a.hist.len() > 0,
        a.hist.len() > 0 ==> a.hist.last().count < u32::MAX && a.hist.last().loss
            <= a.hist.last().count,
    ensures
        ({
            let b = a.ingested(idx, rtt, now, unix_ms, w);
            let opens = a.cur_bucket_start is None || now.ns - a.cur_bucket_start->0.ns
                >= 30_000_000_000;
            let before = if opens {
                HistV { peak_rtt: None, peak_primary: None, count: 0, loss: 0 }
            } else {
                a.hist.last()
            };
            let open = b.hist.last();
            let kept = if opens && a.hist.len() == 120 {
                a.hist.skip(1)
            } else if opens {
                a.hist
            } else {
                a.hist.drop_last()
            };
            &&& b.cur_bucket_start == (if opens {
                Some(now)
            } else {
                a.cur_bucket_start
            })
            &&& b.hist.drop_last() == kept
            &&& b.hist.len() == kept.len() + 1
            &&& open.count == before.count + 1
            &&& open.loss == before.loss + (if rtt is None {
                1int
            } else {
                0
            })
            &&& rtt is None ==> open.peak_rtt == before.peak_rtt && open.peak_primary
                == before.peak_primary
            &&& rtt is Some && (before.peak_rtt is None || before.peak_rtt->0 < rtt->0)
                ==> open.peak_rtt == rtt && open.peak_primary == Some(a.primaries[idx].label)
            &&& rtt is Some && before.peak_rtt is Some && before.peak_rtt->0 >= rtt->0
                ==> open.peak_rtt == before.peak_rtt && open.peak_primary == before.peak_primary
        }),
{
    let b = a.ingested(idx, rtt, now, unix_ms, w);
    let opens = a.cur_bucket_start is None || now.ns - a.cur_bucket_start->0.ns >= 30_000_000_000;
    if opens {
        if a.hist.len() == 120 {
            assert(a.hist.drop_first() =~= a.hist.skip(1));
            assert(b.hist.drop_last() =~= a.hist.skip(1));
        } else {
            assert(b.hist.drop_last() =~= a.hist);
        }
    } else {
        assert(b.hist.drop_last() =~= a.hist.drop_last());
    }
}

/// The extremes of a session grow with its samples: the longest round trip, the largest
/// jitter, and the longest run of losses, which counts when an answer ends it. Of the
/// highest values three are remembered with their time.
pub proof fn law_extremes_grow(
    a: AppV,
    idx: int,
    rtt: Option<u64>,
    now: Instant,
    unix_ms: u64,
    w: ProbeWeights,
)
    requires
        0 <= idx < a.primaries.len(),
    ensures
        ({
            let p = a.primaries[idx];
            let jit = p.jitter(rtt);
            let b = a.ingested(idx, rtt, now, unix_ms, w);
            &&& b.peak_latency >= a.peak_latency && b.peak_jitter >= a.peak_jitter
            &&& rtt is Some ==> b.peak_latency >= rtt->0
            &&& jit is Some ==> b.peak_jitter >= jit->0
            &&& b.peak_latency == a.peak_latency || Some(b.peak_latency) == rtt
            &&& b.peak_jitter == a.peak_jitter || Some(b.peak_jitter) == jit
            &&& b.worst_loss_burst >= a.worst_loss_burst
            &&& rtt is Some ==> b.worst_loss_burst >= p.cur_loss_burst
            &&& b.worst_loss_burst == a.worst_loss_burst || (rtt is Some && b.worst_loss_burst
                == p.cur_loss_burst)
            &&& rtt is None ==> b.top_latency == a.top_latency
            &&& rtt is Some ==> b.top_latency == top_spikes(a.top_latency, rtt->0, unix_ms, 3)
            &&& jit is None ==> b.top_jitter == a.top_jitter
            &&& jit is Some ==> b.top_jitter == top_spikes(a.top_jitter, jit->0, unix_ms, 3)
        }),
{
}

/// A sample touches its own target alone. Where that changes its state, one warning is
/// logged; where it leaves Up, it is marked for this round, and no other mark changes.
pub proof fn law_target_changes_are_logged_and_marked(
    a: AppV,
    idx: int,
    rtt: Option<u64>,
    now: Instant,
    unix_ms: u64,
    w: ProbeWeights,
)
    requires
        0 <= idx < a.primaries.len(),
        a.events.len() < 24,
    ensures
        ({
            let b = a.ingested(idx, rtt, now, unix_ms, w);
            let moved = b.primaries[idx].state != a.primaries[idx].state;
            let left = moved && a.primaries[idx].state == LinkState::Up;
            &&& b.primaries.len() == a.primaries.len()
            &&& forall|i: int|
                0 <= i < a.primaries.len() && i != idx ==> #[trigger] b.primaries[i]
                    == a.primaries[i]
            &&& b.state == a.state
            &&& !moved ==> b.events == a.events
            &&& moved ==> b.events.drop_last() == a.events && b.events.len() == a.events.len() + 1
                && b.events.last().level == Level::Warn && b.events.last().ts == unix_ms
            &&& !left ==> b.probe_anomaly_edge == a.probe_anomaly_edge
            &&& left ==> idx < b.probe_anomaly_edge.len() && b.probe_anomaly_edge[idx]
            &&& forall|i: int|
                0 <= i < b.probe_anomaly_edge.len() && i != idx ==> #[trigger]
                b.probe_anomaly_edge[i] == (i < a.probe_anomaly_edge.len()
                    && a.probe_anomaly_edge[i])
            &&& b.probe_anomaly_edge.len() >= a.probe_anomaly_edge.len()
        }),
{
    let b = a.ingested(idx, rtt, now, unix_ms, w);
    if b.primaries[idx].state != a.primaries[idx].state {
        assert(b.events.drop_last() =~= a.events);
    }
}

/// A sample for a target that does not exist changes nothing.
pub proof fn law_unknown_targets_are_ignored(
    a: AppV,
    idx: int,
    rtt: Option<u64>,
    now: Instant,
    unix_ms: u64,
    w: ProbeWeights,
)
    requires
        idx >= a.primaries.len(),
    ensures
        a.ingested(idx, rtt, now, unix_ms, w) == a,
{
}

// ----------------------------------------------------------------------- cue

/// Target `i` is marked and not up.
spec fn is_marked_bad(edges: Seq<bool>, ps: Seq<ProbeV>, i: int) -> bool {
    0 <= i < edges.len() && i < ps.len() && edges[i] && ps[i].state != LinkState::Up
}

proof fn lemma_none_marked(edges: Seq<bool>, ps: Seq<ProbeV>, n: nat)
    ensures
        marked_bad(edges, ps, n) == 0 ==> forall|i: int|
            0 <= i < n ==> !#[trigger] is_marked_bad(edges, ps, i),
    decreases n,
{
    if n > 0 {
        lemma_none_marked(edges, ps, (n - 1) as nat);
        assert(is_marked_bad(edges, ps, n - 1) || !is_marked_bad(edges, ps, n - 1));
    }
}

proof fn lemma_the_marked_one(edges: Seq<bool>, ps: Seq<ProbeV>, n: nat) -> (k: int)
    requires
        marked_bad(edges, ps, n) == 1,
    ensures
        0 <= k < n,
        is_marked_bad(edges, ps, k),
        forall|i: int| 0 <= i < n && #[trigger] is_marked_bad(edges, ps, i) ==> i == k,
    decreases n,
{
    if is_marked_bad(edges, ps, n - 1) {
        lemma_none_marked(edges, ps, (n - 1) as nat);
        n - 1
    } else {
        lemma_the_marked_one(edges, ps, (n - 1) as nat)
    }
}

proof fn lemma_marked_once(edges: Seq<bool>, ps: Seq<ProbeV>, n: nat, k: int)
    requires
        is_marked_bad(edges, ps, k),
        forall|i: int| #[trigger] is_marked_bad(edges, ps, i) ==> i == k,
    ensures
        marked_bad(edges, ps, n) == (if k < n {
            1nat
        } else {
            0
        }),
    decreases n,
{
    if n > 0 {
        lemma_marked_once(edges, ps, (n - 1) as nat, k);
        assert(is_marked_bad(edges, ps, n - 1) ==> n - 1 == k);
    }
}

/// The cue of a single target is due exactly when it is wanted and audible, none was
/// given in the last minute, the connection is up, and one target alone is not, which
/// has left Up in this very round.
pub proof fn law_cue_means_one_target(a: AppV, now: Instant)
    ensures
        a.cue_is_due(now) <==> {
            &&& a.prealert_enabled
            &&& !a.muted
            &&& a.probe_anomaly_cooldown_at matches Some(t) ==> now.ns - t.ns >= 60_000_000_000
            &&& a.state == LinkState::Up
            &&& exists|k: int| #[trigger] alone_has_left(a, k)
        },
{
    let edges = a.probe_anomaly_edge;
    let ps = a.primaries;
    let n = edges.len();
    if a.cue_is_due(now) {
        let k = lemma_the_marked_one(edges, ps, n);
        assert forall|i: int| 0 <= i < ps.len() && i != k implies (#[trigger] ps[i]).state
            == LinkState::Up by {
            assert(is_marked_bad(edges, ps, i) ==> i == k);
        }
        assert(alone_has_left(a, k));
    }
    if exists|k: int| #[trigger] alone_has_left(a, k) {
        let k = choose|k: int| #[trigger] alone_has_left(a, k);
        assert(is_marked_bad(edges, ps, k));
        assert forall|i: int| #[trigger] is_marked_bad(edges, ps, i) implies i == k by {}
        lemma_marked_once(edges, ps, n, k);
    }
}

/// Target `k` has left Up in this round, and no other target is not up.
pub open spec fn alone_has_left(a: AppV, k: int) -> bool {
    &&& 0 <= k < a.primaries.len() && a.primaries[k].state != LinkState::Up
    &&& k < a.probe_anomaly_edge.len() && a.probe_anomaly_edge[k]
    &&& forall|i: int|
        0 <= i < a.primaries.len() && i != k ==> (#[trigger] a.primaries[i]).state
            == LinkState::Up
}

/// The cue of a single target is the only thing that a round asks for beside its
/// transition: it is heard where the transition is silent and the cue is due, and it is
/// logged and starts its rest then. After every round the marks are wiped.
pub proof fn law_cue_comes_second(o: Outcome, a: AppV, now: Instant, clock: Clock)
    requires
        is_decision(o, a, now, clock),
        a.primaries.len() > 0,
    ensures
        ({
            let b = a.finalized(now, clock);
            let c = a.decided(now, clock);
            let silent = b.state == a.state || (a.state == LinkState::Down && b.state
                == LinkState::Degraded);
            &&& o.sound == Some(SoundEvent::ProbeAnomaly) <==> silent && b.cue_is_due(now)
            &&& c.state == b.state
            &&& c.probe_anomaly_cooldown_at == (if silent && b.cue_is_due(now) {
                Some(now)
            } else {
                b.probe_anomaly_cooldown_at
            })
            &&& !(silent && b.cue_is_due(now)) ==> c.events == b.events
            &&& silent && b.cue_is_due(now) ==> c.events.last().level == Level::Warn
                && c.events.last().ts == clock.unix_ms
            &&& c.probe_anomaly_edge.len() == b.probe_anomaly_edge.len()
            &&& forall|i: int|
                0 <= i < c.probe_anomaly_edge.len() ==> !(#[trigger] c.probe_anomaly_edge[i])
        }),
{
}

// --------------------------------------------------------------------- cause

/// What the trouble is put down to. A gateway that has been probed since the onset and is
/// down comes first; one that is up, while the connection is already in trouble, puts
/// the failure beyond it; a weak signal comes next; without any of them it is unknown.
pub proof fn law_cause_needs_fresh_evidence(a: AppV, desired: DesiredState, i: usize)
    requires
        a.gw_role == GatewayRole::UserExtra(i) || a.gw_role == GatewayRole::AutoExtra(i),
        desired != DesiredState::Up,
    ensures
        ({
            let fresh = i < a.extras.len() && (a.extras[i as int].last_sample_at matches Some(t)
                && a.outage_onset_at matches Some(onset) && onset.ns <= t.ns);
            let gw = a.extras[i as int].state;
            let weak = a.wifi_grade matches Some(g) && g <= 1;
            let beyond = fresh && gw == LinkState::Up && a.state != LinkState::Up;
            &&& a.cause(desired) == PathCause::GatewayFailure <==> fresh && gw == LinkState::Down
            &&& a.cause(desired) == PathCause::BeyondFirstHop <==> beyond
            &&& a.cause(desired) == PathCause::WeakWifi <==> weak && !beyond && !(fresh && gw
                == LinkState::Down)
        }),
{
}

/// Without a gateway only the signal can be a cause.
pub proof fn law_cause_without_a_gateway(a: AppV, desired: DesiredState)
    requires
        a.gw_role == GatewayRole::Unknown,
        desired != DesiredState::Up,
    ensures
        a.cause(desired) == (if a.wifi_grade matches Some(g) && g <= 1 {
            PathCause::WeakWifi
        } else {
            PathCause::Unknown
        }),
{
}

/// The latches that a sample moves go to the log of the detectors, of which the latest 64
/// entries are kept.
pub proof fn law_moved_latches_are_logged(
    a: AppV,
    idx: int,
    rtt: Option<u64>,
    now: Instant,
    unix_ms: u64,
    w: ProbeWeights,
)
    requires
        0 <= idx < a.primaries.len(),
        a.shadow_log.len() <= 64,
    ensures
        ({
            let news = a.primaries[idx].shadow(rtt, a.cfg, a.detector_mode, now, w);
            let all = a.shadow_log + news;
            a.ingested(idx, rtt, now, unix_ms, w).shadow_log == (if all.len() <= 64 {
                all
            } else {
                all.skip(all.len() - 64)
            })
        }),
{
    let news = a.primaries[idx].shadow(rtt, a.cfg, a.detector_mode, now, w);
    law_shadow_log_keeps_the_latest(a.shadow_log, news);
}

/// The target that takes a sample in is changed by that sample, against the present
/// configuration and in the present mode.
pub proof fn law_samples_reach_their_target(
    a: AppV,
    idx: int,
    rtt: Option<u64>,
    now: Instant,
    unix_ms: u64,
    w: ProbeWeights,
)
    requires
        0 <= idx < a.primaries.len(),
    ensures
        a.ingested(idx, rtt, now, unix_ms, w).primaries[idx] == a.primaries[idx].sampled(
            rtt,
            a.cfg,
            a.detector_mode,
            now,
            w,
        ),
{
}

/// The entry of a target names it and tells its new state: every state has its own.
pub proof fn law_target_entries(label: Seq<char>, s: LinkState, t: LinkState)
    ensures
        target_text(label, s).len() > label.len(),
        target_text(label, s).subrange(1, label.len() as int + 1) == label,
        target_text(label, s) == target_text(label, t) ==> s == t,
{
    reveal_strlit("[");
    reveal_strlit("] target recovered");
    reveal_strlit("] target degraded");
    reveal_strlit("] target unreachable");
    assert(target_text(label, s).subrange(1, label.len() as int + 1) =~= label);
    assert(target_text(label, LinkState::Up).len() == label.len() + 19);
    assert(target_text(label, LinkState::Degraded).len() == label.len() + 18);
    assert(target_text(label, LinkState::Down).len() == label.len() + 21);
}

} // verus!
