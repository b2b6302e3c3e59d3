//! The monitor: rounds, transitions, gateway, cues and resets.
use ping_monitor::app::{App, GatewayRole};
use ping_monitor::config::Config;
use ping_monitor::detector::{DetectorMode, ProbeWeights, Weights};
use ping_monitor::intake::GatewayUpdate;
use ping_monitor::net::PingSample;
use ping_monitor::probe::ExtraProbe;
use ping_monitor::round::{Outcome, PathCause, PrimaryBatch, RoundResult};
use ping_monitor::state::{reduce_target, DesiredState, LinkState};
use ping_monitor::stats::{push_spike, Ratio, Ring};
use ping_monitor::time::{Clock, Duration, Instant};
use ping_monitor::ui::segment_runs;

const NOW: Instant = Instant { ns: 1_000_000_000_000_000 };
const UNIX_MS: u64 = 1_700_000_000_000;
const CLOCK: Clock = Clock { now: NOW, unix_ms: UNIX_MS };

fn ns(ms: f64) -> u64 {
    (ms * 1e6).round() as u64
}

fn ms(ns: u64) -> f64 {
    ns as f64 / 1e6
}

fn span_ms(d: Duration) -> f64 {
    d.ns as f64 / 1e6
}

fn percent(r: Ratio) -> f64 {
    r.num as f64 / r.den as f64
}

fn before(secs: u64) -> Instant {
    Instant { ns: NOW.ns - secs * 1_000_000_000 }
}

fn no_weights() -> ProbeWeights {
    let none = Weights { short: 0, long: 0 };
    ProbeWeights { latency: none, jitter: none }
}

fn sample(rtt_ms: Option<f64>) -> PingSample {
    PingSample { rtt_ns: rtt_ms.map(ns) }
}

fn seen(rtt_ms: Option<f64>) -> RoundResult {
    RoundResult::Observed(sample(rtt_ms))
}

fn ping(a: &mut App, idx: usize, rtt_ms: Option<f64>) -> Outcome {
    a.ingest_ping(idx, sample(rtt_ms), CLOCK, no_weights())
}

fn app_with_n_probes(n: usize) -> App {
    let mut a = App::new(Config::default(), NOW, None, None);
    for i in 0..n {
        a.add_primary(&format!("t{}", i), "127.0.0.1", 80, NOW);
    }
    a
}



#[test]
fn connection_up_with_healthy_majority() {
    let mut a = app_with_n_probes(3);
    for _ in 0..25 {
        for i in 0..3 {
            ping(&mut a, i, Some(20.0));
        }
    }
    assert_eq!(a.state, LinkState::Up);
    for _ in 0..15 {
        ping(&mut a, 0, None);
        ping(&mut a, 1, Some(20.0));
        ping(&mut a, 2, Some(20.0));
    }
    assert_eq!(a.state, LinkState::Up);
}

#[test]
fn connection_down_when_majority_fails() {
    let mut a = app_with_n_probes(3);
    for _ in 0..25 {
        for i in 0..3 {
            ping(&mut a, i, Some(20.0));
        }
    }
    assert_eq!(a.state, LinkState::Up);
    for _ in 0..25 {
        ping(&mut a, 0, None);
        ping(&mut a, 1, None);
        ping(&mut a, 2, Some(20.0));
    }
    assert_eq!(a.state, LinkState::Down);
}

#[test]
fn loss_pct_pooled_across_primaries() {
    let mut a = app_with_n_probes(2);
    ping(&mut a, 0, Some(10.0));
    ping(&mut a, 0, None);
    ping(&mut a, 1, Some(10.0));
    ping(&mut a, 1, Some(10.0));
    assert_eq!(percent(a.loss_pct()), 25.0);
}

#[test]
fn anti_flapping_holds_recovery_for_dwell() {
    let mut a = app_with_n_probes(3);
    // Build up healthy baseline.
    for _ in 0..25 {
        for i in 0..3 {
            ping(&mut a, i, Some(20.0));
        }
    }
    assert_eq!(a.state, LinkState::Up);
    // Drive all targets down.
    for _ in 0..25 {
        for i in 0..3 {
            ping(&mut a, i, None);
        }
    }
    assert_ne!(a.state, LinkState::Up);
    // Drive all targets back up — recovery should start.
    for _ in 0..25 {
        for i in 0..3 {
            ping(&mut a, i, Some(20.0));
        }
    }
    // Connection is recovering but dwell hasn't elapsed yet.
    assert_ne!(
        a.state,
        LinkState::Up,
        "recovery should still be held by connection dwell"
    );
    // Verify recovery state exists.
    assert!(
        a.recovery.resumed_at.is_some(),
        "recovery should have started"
    );
}

#[test]
fn jitter_view_is_median_across_primaries() {
    let mut a = app_with_n_probes(3);
    for _ in 0..30 {
        a.primaries[0].jitter_ring.push(Some(ns(5.0)));
        a.primaries[1].jitter_ring.push(Some(ns(5.0)));
        a.primaries[2].jitter_ring.push(Some(ns(80.0)));
    }
    let jv = ms(a.jitter_view().unwrap());
    assert!(
        (jv - 5.0).abs() < 0.001,
        "jitter_view should be median (5.0), got {}",
        jv
    );
}

#[test]
fn baseline_skipped_when_target_not_up() {
    let mut a = app_with_n_probes(1);
    for _ in 0..30 {
        ping(&mut a, 0, None);
    }
    assert_ne!(
        a.primaries[0].state,
        LinkState::Up,
        "target should be in a bad state after sustained loss"
    );
    assert!(
        a.primaries[0].baseline.latency_len() == 0,
        "baseline should not have grown while target was down, got len {}",
        a.primaries[0].baseline.latency_len()
    );
}

#[test]
fn peak_jitter_tracks_maximum() {
    let mut a = app_with_n_probes(1);
    ping(&mut a, 0, Some(10.0));
    ping(&mut a, 0, Some(50.0));
    ping(&mut a, 0, Some(20.0));
    assert!(
        (ms(a.peak_jitter) - 40.0).abs() < 0.001,
        "peak_jitter should be 40.0 (the max), got {}",
        ms(a.peak_jitter)
    );
}

#[test]
fn pooled_stat_last_is_none() {
    let mut a = app_with_n_probes(3);
    ping(&mut a, 0, Some(10.0));
    ping(&mut a, 1, Some(20.0));
    ping(&mut a, 2, Some(30.0));
    let pooled = a.pooled_ping_stat();
    assert!(
        pooled.last.is_none(),
        "pooled_ping_stat.last must be None, got {:?}",
        pooled.last
    );
    assert_eq!(pooled.count, 3);
}

#[test]
fn config_clamps_invalid_values() {
    let mut cfg = Config {
        timeout_ms: 0,
        ping_interval_ms: 10,
        dns_interval_ms: 50,
        recover_dwell: Duration::from_secs(0),
        reminder_interval: Duration::from_secs(1),
        state_window: 1,
        hysteresis_bad: 0,
        ..Default::default()
    };
    let warns = cfg.validate();
    assert!(
        !warns.is_empty(),
        "validate should warn on out-of-range values"
    );
    assert!(
        cfg.timeout_ms >= 50,
        "timeout clamped to >=50, got {}",
        cfg.timeout_ms
    );
    assert!(
        cfg.ping_interval_ms >= 200,
        "ping_interval clamped to >=200, got {}",
        cfg.ping_interval_ms
    );
    assert!(
        cfg.dns_interval_ms >= 1000,
        "dns_interval clamped to >=1000, got {}",
        cfg.dns_interval_ms
    );
    assert!(
        cfg.recover_dwell.as_secs() >= 1,
        "recover_dwell clamped to >=1s"
    );
    assert!(
        cfg.reminder_interval.as_secs() >= 5,
        "reminder_interval clamped to >=5s"
    );
    assert!(cfg.state_window >= 5, "state_window clamped to >=5");
    assert!(cfg.hysteresis_bad >= 1, "hysteresis_bad clamped to >=1");
}

#[test]
fn target_reducer_up_to_degraded_on_bad_streak() {
    let h = 3;
    let (s, p) = reduce_target(LinkState::Up, Some(LinkState::Degraded), None, h);
    assert_eq!(s, LinkState::Up);
    assert_eq!(p, Some((LinkState::Degraded, 1)));
    let (s, p) = reduce_target(s, Some(LinkState::Degraded), p, h);
    assert_eq!(s, LinkState::Up);
    let (s, _p) = reduce_target(s, Some(LinkState::Degraded), p, h);
    assert_eq!(s, LinkState::Degraded, "should transition at hysteresis");
}

#[test]
fn tick_reminder_returns_factual_message() {
    let mut a = app_with_n_probes(3);
    for _ in 0..30 {
        for i in 0..3 {
            ping(&mut a, i, None);
        }
    }
    assert_ne!(a.state, LinkState::Up);
    a.last_reminder = Some(before(999));
    let result = a.tick_reminder(NOW);
    assert!(result.is_some(), "reminder should be due");
    let (_, _, msg) = result.unwrap();
    assert!(!msg.contains("♪"), "message must be factual, got '{}'", msg);
    assert!(
        msg.contains("degraded") || msg.contains("down"),
        "factual state, got '{}'",
        msg
    );
}

#[test]
fn peak_jitter_resets_on_reset() {
    let mut a = app_with_n_probes(1);
    ping(&mut a, 0, Some(10.0));
    ping(&mut a, 0, Some(80.0));
    assert!(ms(a.peak_jitter) > 0.0);
    a.reset(CLOCK);
    assert_eq!(ms(a.peak_jitter), 0.0, "peak_jitter must reset to 0");
    assert_eq!(ms(a.peak_latency), 0.0, "peak_latency must reset to 0");
    assert_eq!(a.worst_loss_burst, 0, "worst_loss_burst must reset to 0");
}

#[test]
fn push_spike_keeps_top_n_sorted_desc() {
    let mut list: Vec<(u64, u64)> = Vec::new();
    for v in [10.0, 5.0, 30.0, 20.0, 25.0, 15.0] {
        push_spike(&mut list, ns(v), UNIX_MS, 3);
    }
    assert_eq!(list.len(), 3, "must keep top-3 only");
    assert_eq!(ms(list[0].0), 30.0, "top must be largest seen (30.0)");
    assert_eq!(ms(list[1].0), 25.0, "second must be 25.0");
    assert_eq!(ms(list[2].0), 20.0, "third must be 20.0 (15/10/5 truncated)");
}

#[test]
fn accrue_state_time_grows_up_bucket_when_up() {
    let mut a = app_with_n_probes(1);
    ping(&mut a, 0, Some(10.0));
    assert_eq!(a.state, LinkState::Up, "precondition: connection Up");
    a.accrue_state_time(Instant { ns: NOW.ns + 2_000_000 });
    assert!(
        a.sess_up_ms > 0,
        "sess_up_ms must grow after sleep+accrue, got {}",
        a.sess_up_ms
    );
    assert_eq!(
        a.sess_degraded_ms, 0,
        "degraded bucket must stay 0 while Up"
    );
    assert_eq!(a.sess_down_ms, 0, "down bucket must stay 0 while Up");
    assert!(
        (percent(a.uptime_pct()) - 100.0).abs() < 0.01,
        "uptime_pct must be 100 while all Up, got {}",
        percent(a.uptime_pct())
    );
}

#[test]
fn bad_since_set_on_first_bad_state_and_cleared_on_up_transition() {
    let mut a = app_with_n_probes(3);
    for _ in 0..25 {
        for i in 0..3 {
            ping(&mut a, i, Some(20.0));
        }
    }
    assert!(a.bad_since.is_none(), "bad_since must be None while Up");
    for _ in 0..25 {
        ping(&mut a, 0, None);
        ping(&mut a, 1, None);
        ping(&mut a, 2, Some(20.0));
    }
    assert_eq!(a.state, LinkState::Down);
    assert!(
        a.bad_since.is_some(),
        "bad_since must be captured on entry into bad state"
    );
    assert!(
        a.outages >= 1,
        "outages must increment on entry to Down, got {}",
        a.outages
    );
}

#[test]
fn reset_clears_session_resumes() {
    let mut a = app_with_n_probes(1);
    ping(&mut a, 0, Some(10.0));
    ping(&mut a, 0, Some(80.0));
    a.accrue_state_time(NOW);
    a.outages = 5;
    a.recoveries = 3;
    a.mttr_ms_total = 12_000;
    a.sess_up_ms = 1_500;
    a.bad_since = Some(NOW);
    a.reset(CLOCK);
    assert!(a.top_latency.is_empty(), "top_latency must clear on reset");
    assert!(a.top_jitter.is_empty(), "top_jitter must clear on reset");
    assert_eq!(a.outages, 0, "outages must reset to 0");
    assert_eq!(a.recoveries, 0, "recoveries must reset to 0");
    assert_eq!(a.mttr_ms_total, 0, "mttr_ms_total must reset to 0");
    assert_eq!(a.sess_up_ms, 0, "sess_up_ms must reset to 0");
    assert!(a.bad_since.is_none(), "bad_since must clear on reset");
    assert_eq!(a.mttr_ms(), 0, "mttr_ms() must be 0 with no recoveries");
}

#[test]
fn top_latency_and_jitter_track_session_extremes() {
    let mut a = app_with_n_probes(1);
    for v in [10.0, 20.0, 30.0, 50.0, 40.0, 60.0] {
        ping(&mut a, 0, Some(v));
    }
    assert_eq!(ms(a.peak_latency), 60.0, "peak must match global max");
    assert_eq!(a.top_latency.len(), 3, "must have top-3 latency spikes");
    assert_eq!(
        ms(a.top_latency[0].0), 60.0,
        "top spike must be 60 (the global peak)"
    );
    assert!(
        (ms(a.peak_jitter) - 20.0).abs() < 0.01,
        "peak_jitter must be 20.0, got {}",
        ms(a.peak_jitter)
    );
    assert!(!a.top_jitter.is_empty(), "top_jitter must be populated");
}

#[test]
fn adaptive_thresholds_track_baseline_p90() {
    let mut a = app_with_n_probes(2);
    let floor_warn = ms(a.cfg.latency_warn_ns);
    let floor_bad = ms(a.cfg.latency_bad_ns);
    assert_eq!(span_ms(a.lat_warn_ms()), floor_warn);
    assert_eq!(span_ms(a.lat_bad_ms()), floor_bad);
    for _ in 0..60 {
        for i in 0..2 {
            ping(&mut a, i, Some(150.0));
        }
    }
    assert!(
        span_ms(a.lat_warn_ms()) > floor_warn,
        "warn should rise above floor after baseline warmup, got {}",
        span_ms(a.lat_warn_ms())
    );
    assert!(
        span_ms(a.lat_bad_ms()) > floor_bad,
        "bad should rise above floor after baseline warmup, got {}",
        span_ms(a.lat_bad_ms())
    );
    assert!(
        span_ms(a.lat_warn_ms()) <= 350.0,
        "warn should be ~p90*2 (300), got {}",
        span_ms(a.lat_warn_ms())
    );
    assert!(
        span_ms(a.lat_bad_ms()) <= 650.0,
        "bad should be ~p90*4 (600), got {}",
        span_ms(a.lat_bad_ms())
    );
}

#[test]
fn wifi_rssi_logs_only_on_grade_change() {
    let mut a = app_with_n_probes(1);
    assert_eq!(a.wifi_grade, None);
    a.set_wifi_rssi(Some(-50), UNIX_MS);
    assert_eq!(a.wifi_grade, Some(4));
    let events_before = a.events.len();
    a.set_wifi_rssi(Some(-52), UNIX_MS);
    assert_eq!(a.wifi_grade, Some(4), "same grade, no transition");
    assert_eq!(a.events.len(), events_before, "no log when grade unchanged");
    a.set_wifi_rssi(Some(-80), UNIX_MS);
    assert_eq!(a.wifi_grade, Some(1));
    assert_eq!(a.events.len(), events_before + 1, "logged on downgrade");
    a.set_wifi_rssi(None, UNIX_MS);
    assert_eq!(a.wifi_grade, None);
    assert!(a.events.len() >= events_before + 2, "logged wifi down");
}

#[test]
fn gateway_update_added_when_absent() {
    let mut a = app_with_n_probes(1);
    let r = a.apply_gateway_update("192.168.1.1");
    assert!(matches!(r, GatewayUpdate::Added { idx: 0 }));
    assert_eq!(a.auto_gw_idx, Some(0));
    assert_eq!(a.extras[0].host, "192.168.1.1");
    assert_eq!(a.extras[0].label, "gw");
}

#[test]
fn gateway_update_unchanged_when_same_host() {
    let mut a = app_with_n_probes(1);
    a.apply_gateway_update("192.168.1.1");
    let r = a.apply_gateway_update("192.168.1.1");
    assert!(matches!(r, GatewayUpdate::Unchanged));
    assert_eq!(a.extras.len(), 1);
}

#[test]
fn gateway_update_replaces_host_and_resets_stats() {
    let mut a = app_with_n_probes(1);
    a.apply_gateway_update("192.168.1.1");
    {
        let e = &mut a.extras[0];
        e.total = 10;
        e.lost = 5;
        e.consec_loss = 3;
        e.state = LinkState::Down;
        e.last = None;
    }
    let r = a.apply_gateway_update("10.0.0.1");
    assert!(matches!(r, GatewayUpdate::Updated { .. }));
    let e = &a.extras[0];
    assert_eq!(e.host, "10.0.0.1");
    assert_eq!(e.label, "gw");
    assert_eq!(e.total, 0);
    assert_eq!(e.state, LinkState::Up);
}

#[test]
fn classify_no_jitter_penalty_when_all_none() {
    let mut a = app_with_n_probes(1);
    // Feed enough successful pings to fill the window, then only loss.
    for _ in 0..25 {
        ping(&mut a, 0, Some(20.0));
    }
    // Now push only loss — jitter ring fills with None.
    for _ in 0..25 {
        ping(&mut a, 0, None);
    }
    let cfg = Config::default();
    let (_, is_down) = a.primaries[0].classify(&cfg);
    // Loss alone triggers is_down, but jitter contributes nothing.
    assert!(is_down, "high loss should trigger is_down");
}

#[test]
fn classify_averages_only_some_jitter() {
    let mut a = app_with_n_probes(1);
    // Fill with successful pings so window has data.
    for _ in 0..25 {
        ping(&mut a, 0, Some(20.0));
    }
    let jit_ring = &a.primaries[0].jitter_ring;
    let jit: Vec<u64> = jit_ring
        .as_vec()
        .iter()
        .rev()
        .take(20)
        .filter_map(|v| *v)
        .collect();
    // All contiguous successes should produce Some jitter values.
    assert!(
        !jit.is_empty(),
        "contiguous successes should produce Some jitter values"
    );
}

#[test]
fn independent_baseline_counts() {
    let mut a = app_with_n_probes(1);
    // Feed 60 successful pings — both latency and jitter should be populated.
    for _ in 0..60 {
        ping(&mut a, 0, Some(20.0));
    }
    assert!(
        a.primaries[0].baseline.latency_len() >= 50,
        "latency should have >=50 values, got {}",
        a.primaries[0].baseline.latency_len()
    );
    assert!(
        a.primaries[0].baseline.jitter_len() >= 50,
        "jitter should have >=50 values, got {}",
        a.primaries[0].baseline.jitter_len()
    );
}

#[test]
fn prev_rtt_adjacent_cleared_on_loss() {
    let mut a = app_with_n_probes(1);
    ping(&mut a, 0, Some(20.0));
    assert!(
        a.primaries[0].prev_rtt_adjacent.is_some(),
        "prev_rtt_adjacent should be set after first success"
    );
    ping(&mut a, 0, None);
    assert!(
        a.primaries[0].prev_rtt_adjacent.is_none(),
        "prev_rtt_adjacent should be cleared on loss"
    );
    // First success after loss: jitter should be None (no adjacent).
    ping(&mut a, 0, Some(30.0));
    let last_jit = *a.primaries[0].jitter_ring.buf.back().unwrap();
    assert_eq!(
        last_jit, None,
        "first jitter after loss should be None, got {:?}",
        last_jit
    );
}

#[test]
fn last_value_is_none_during_loss() {
    let mut a = app_with_n_probes(1);
    ping(&mut a, 0, Some(20.0));
    assert_eq!(a.primaries[0].last_value, Some(ns(20.0)));
    ping(&mut a, 0, None);
    assert_eq!(
        a.primaries[0].last_value, None,
        "last_value should be None on loss"
    );
    assert_eq!(
        a.last_value_view(),
        None,
        "last_value_view should exclude target with loss"
    );
}

#[test]
fn segment_runs_all_none() {
    let data: Vec<Option<f64>> = vec![None, None, None];
    let runs = segment_runs(&data);
    assert!(runs.is_empty(), "all None should produce no runs");
}

#[test]
fn segment_runs_all_some() {
    let data: Vec<Option<f64>> = vec![Some(1.0), Some(2.0), Some(3.0)];
    let runs = segment_runs(&data);
    assert_eq!(runs.len(), 1, "all Some should produce one run");
    assert_eq!(runs[0].len(), 3);
}

#[test]
fn segment_runs_mixed() {
    let data: Vec<Option<f64>> = vec![Some(1.0), None, Some(3.0), Some(4.0), None];
    let runs = segment_runs(&data);
    assert_eq!(runs.len(), 2, "mixed should produce two runs");
    assert_eq!(runs[0], vec![(0, 1.0)]);
    assert_eq!(runs[1], vec![(2, 3.0), (3, 4.0)]);
}

#[test]
fn segment_runs_empty() {
    let data: Vec<Option<f64>> = vec![];
    let runs = segment_runs(&data);
    assert!(runs.is_empty(), "empty input should produce no runs");
}

#[test]
fn extra_probe_last_sample_at_set() {
    let mut a = app_with_n_probes(1);
    a.extras.push(ExtraProbe {
        label: "gw".into(),
        host: "192.168.1.1".into(),
        port: 80,
        last: None,
        state: LinkState::Up,
        total: 0,
        lost: 0,
        consec_loss: 0,
        ring: Ring::new(30),
        last_sample_at: None,
    });
    assert!(a.extras[0].last_sample_at.is_none());
    a.ingest_extra(0, sample(Some(5.0)), CLOCK);
    assert!(
        a.extras[0].last_sample_at.is_some(),
        "last_sample_at should be set after ingest_extra"
    );
}

#[test]
fn extra_probe_reset_clears_last_sample_at() {
    let mut e = ExtraProbe {
        label: "gw".into(),
        host: "192.168.1.1".into(),
        port: 80,
        last: Some(ns(5.0)),
        state: LinkState::Down,
        total: 10,
        lost: 3,
        consec_loss: 2,
        ring: Ring::new(30),
        last_sample_at: Some(NOW),
    };
    e.reset();
    assert!(e.last_sample_at.is_none());
    assert_eq!(e.state, LinkState::Up);
}

#[test]
fn path_cause_unknown_when_no_outage() {
    let a = app_with_n_probes(3);
    let cause = a.path_cause(DesiredState::Up, NOW);
    assert_eq!(cause, PathCause::Unknown);
}

#[test]
fn path_cause_gateway_failure() {
    let mut a = app_with_n_probes(3);
    a.outage_onset_at = Some(NOW);
    a.gw_role = GatewayRole::AutoExtra(0);
    a.extras.push(ExtraProbe {
        label: "gw".into(),
        host: "192.168.1.1".into(),
        port: 80,
        last: Some(ns(2.0)),
        state: LinkState::Down,
        total: 10,
        lost: 5,
        consec_loss: 3,
        ring: Ring::new(30),
        last_sample_at: Some(NOW),
    });
    let cause = a.path_cause(DesiredState::Down, NOW);
    assert_eq!(cause, PathCause::GatewayFailure);
}

#[test]
fn path_cause_beyond_first_hop() {
    let mut a = app_with_n_probes(3);
    a.outage_onset_at = Some(NOW);
    a.state = LinkState::Down;
    a.gw_role = GatewayRole::AutoExtra(0);
    a.extras.push(ExtraProbe {
        label: "gw".into(),
        host: "192.168.1.1".into(),
        port: 80,
        last: Some(ns(2.0)),
        state: LinkState::Up,
        total: 10,
        lost: 0,
        consec_loss: 0,
        ring: Ring::new(30),
        last_sample_at: Some(NOW),
    });
    let cause = a.path_cause(DesiredState::Down, NOW);
    assert_eq!(cause, PathCause::BeyondFirstHop);
}

#[test]
fn path_cause_stale_gateway_is_unknown() {
    let mut a = app_with_n_probes(3);
    a.outage_onset_at = Some(NOW);
    a.gw_role = GatewayRole::AutoExtra(0);
    a.extras.push(ExtraProbe {
        label: "gw".into(),
        host: "192.168.1.1".into(),
        port: 80,
        last: Some(ns(2.0)),
        state: LinkState::Up,
        total: 10,
        lost: 0,
        consec_loss: 0,
        ring: Ring::new(30),
        last_sample_at: None, // stale
    });
    let cause = a.path_cause(DesiredState::Down, NOW);
    assert_eq!(cause, PathCause::Unknown);
}

#[test]
fn outage_onset_at_set_and_cleared() {
    let mut a = app_with_n_probes(3);
    assert!(a.outage_onset_at.is_none());
    // Send enough loss rounds for targets to transition (hysteresis_bad=3)
    // and connection to reach Down (quorum=2).
    for round in 0..15 {
        let batch = PrimaryBatch {
            round_id: round,
            reset_epoch: a.reset_epoch,
            results: vec![
                seen(None),
                seen(None),
                seen(None),
            ],
            weights: Vec::new(),
        started_at: NOW,
        };
        let _ = a.ingest_generation_at(batch, NOW, CLOCK).sound;
    }
    assert!(
        a.outage_onset_at.is_some(),
        "outage_onset_at should be set after sustained loss, state={:?}",
        a.state
    );
}

#[test]
fn prealert_default_off() {
    let a = app_with_n_probes(3);
    assert!(!a.prealert_enabled, "prealert should be off by default");
}

#[test]
fn prealert_cue_fires_on_isolated_anomaly() {
    let mut a = app_with_n_probes(3);
    a.prealert_enabled = true;
    // Build healthy baseline using batches
    for round in 0..25 {
        let batch = PrimaryBatch {
            round_id: round,
            reset_epoch: a.reset_epoch,
            results: vec![
                seen(Some(20.0)),
                seen(Some(20.0)),
                seen(Some(20.0)),
            ],
            weights: Vec::new(),
        started_at: NOW,
        };
        let _ = a.ingest_generation_at(batch, NOW, CLOCK).sound;
    }
    assert_eq!(a.state, LinkState::Up);
    // Burst of losses on target 0 only
    for round in 25..50 {
        let batch = PrimaryBatch {
            round_id: round,
            reset_epoch: a.reset_epoch,
            results: vec![
                seen(None),
                seen(Some(20.0)),
                seen(Some(20.0)),
            ],
            weights: Vec::new(),
        started_at: NOW,
        };
        let _ = a.ingest_generation_at(batch, NOW, CLOCK).sound;
    }
    // Edge bit should have been set and then cleared after finalization
    // But the target should be in a bad state
    assert_ne!(
        a.primaries[0].state,
        LinkState::Up,
        "target 0 should be degraded/down"
    );
    assert_eq!(a.primaries[1].state, LinkState::Up);
    assert_eq!(a.primaries[2].state, LinkState::Up);
}

#[test]
fn prealert_cooldown_suppresses() {
    let mut a = app_with_n_probes(3);
    a.prealert_enabled = true;
    a.probe_anomaly_cooldown_at = Some(NOW);
    // Even with edge bits set, cooldown should suppress
    a.probe_anomaly_edge = vec![true, false, false];
    // Can't easily test finalize_generation sound selection without
    // going through the full batch path, but verify cooldown is checked
    let now = NOW;
    let cooldown_ok = a
        .probe_anomaly_cooldown_at
        .map(|t| now.nanos_since(t) / 1_000_000_000 >= 60)
        .unwrap_or(true);
    assert!(!cooldown_ok, "cooldown should suppress within 60s");
}

#[test]
fn reset_clears_prealert_state() {
    let mut a = app_with_n_probes(3);
    a.prealert_enabled = true;
    a.probe_anomaly_edge = vec![true, false, false];
    a.probe_anomaly_cooldown_at = Some(NOW);
    a.reset(CLOCK);
    assert!(a.probe_anomaly_edge.is_empty());
    assert!(a.probe_anomaly_cooldown_at.is_none());
}

#[test]
fn arrival_order_invariant() {
    // All permutations of 3 targets arriving in different orders should
    // produce identical connection state after one batch.
    let orders = [
        [0, 1, 2],
        [0, 2, 1],
        [1, 0, 2],
        [1, 2, 0],
        [2, 0, 1],
        [2, 1, 0],
    ];
    for order in &orders {
        let mut a = app_with_n_probes(3);
        // Build baseline
        for _ in 0..25 {
            let batch = PrimaryBatch {
                round_id: 0,
                reset_epoch: a.reset_epoch,
                results: vec![
                    seen(Some(20.0)),
                    seen(Some(20.0)),
                    seen(Some(20.0)),
                ],
                weights: Vec::new(),
        started_at: NOW,
            };
            let _ = a.ingest_generation_at(batch, NOW, CLOCK).sound;
        }
        // Now send one batch with targets in a specific order
        let results: Vec<RoundResult> = order
            .iter()
            .map(|&i| {
                if i == 0 {
                    seen(None)
                } else {
                    seen(Some(20.0))
                }
            })
            .collect();
        let batch = PrimaryBatch {
            round_id: 25,
            reset_epoch: a.reset_epoch,
            results,
            weights: Vec::new(),
        started_at: NOW,
        };
        let _ = a.ingest_generation_at(batch, NOW, CLOCK).sound;
        // Target 0 should be the same regardless of arrival order
        assert_eq!(
            a.primaries[0].state,
            LinkState::Up,
            "target 0 state should be independent of arrival order {:?}",
            order
        );
    }
}

#[test]
fn three_observations_advance_logic_once() {
    let mut a = app_with_n_probes(3);
    // Build baseline
    for _ in 0..25 {
        let batch = PrimaryBatch {
            round_id: 0,
            reset_epoch: a.reset_epoch,
            results: vec![
                seen(Some(20.0)),
                seen(Some(20.0)),
                seen(Some(20.0)),
            ],
            weights: Vec::new(),
        started_at: NOW,
        };
        let _ = a.ingest_generation_at(batch, NOW, CLOCK).sound;
    }
    assert_eq!(a.state, LinkState::Up);
    // Send one batch with 2 loss + 1 success
    let batch = PrimaryBatch {
        round_id: 25,
        reset_epoch: a.reset_epoch,
        results: vec![
            seen(None),
            seen(None),
            seen(Some(20.0)),
        ],
        weights: Vec::new(),
        started_at: NOW,
    };
    let _ = a.ingest_generation_at(batch, NOW, CLOCK).sound;
    // Connection should still be Up (not Down yet — hysteresis)
    assert_eq!(a.state, LinkState::Up);
}

#[test]
fn stale_epoch_rejected_after_reset() {
    let mut a = app_with_n_probes(3);
    let old_epoch = a.reset_epoch;
    // Build baseline
    for _ in 0..25 {
        let batch = PrimaryBatch {
            round_id: 0,
            reset_epoch: old_epoch,
            results: vec![
                seen(Some(20.0)),
                seen(Some(20.0)),
                seen(Some(20.0)),
            ],
            weights: Vec::new(),
        started_at: NOW,
        };
        let _ = a.ingest_generation_at(batch, NOW, CLOCK).sound;
    }
    // Reset increments epoch
    a.reset(CLOCK);
    let new_epoch = a.reset_epoch;
    assert_ne!(old_epoch, new_epoch, "reset should increment epoch");
    // Batch with old epoch should be rejected
    let batch = PrimaryBatch {
        round_id: 25,
        reset_epoch: old_epoch,
        results: vec![
            seen(None),
            seen(None),
            seen(None),
        ],
        weights: Vec::new(),
        started_at: NOW,
    };
    let sound = a.ingest_generation_at(batch, NOW, CLOCK).sound;
    assert!(sound.is_none(), "stale batch should be rejected");
    assert_eq!(
        a.primaries[0].total, 0,
        "counters should not be updated for stale batch"
    );
}

#[test]
fn missing_holds_state_no_counters() {
    let mut a = app_with_n_probes(3);
    // Build baseline
    for _ in 0..25 {
        let batch = PrimaryBatch {
            round_id: 0,
            reset_epoch: a.reset_epoch,
            results: vec![
                seen(Some(20.0)),
                seen(Some(20.0)),
                seen(Some(20.0)),
            ],
            weights: Vec::new(),
        started_at: NOW,
        };
        let _ = a.ingest_generation_at(batch, NOW, CLOCK).sound;
    }
    let prev_total = a.primaries[0].total;
    let prev_state = a.primaries[0].state;
    // Send batch with Missing for target 0
    let batch = PrimaryBatch {
        round_id: 25,
        reset_epoch: a.reset_epoch,
        results: vec![
            RoundResult::Missing,
            seen(Some(20.0)),
            seen(Some(20.0)),
        ],
        weights: Vec::new(),
        started_at: NOW,
    };
    let _ = a.ingest_generation_at(batch, NOW, CLOCK).sound;
    assert_eq!(
        a.primaries[0].total, prev_total,
        "Missing should not increment total"
    );
    assert_eq!(
        a.primaries[0].state, prev_state,
        "Missing should hold target state"
    );
}

#[test]
fn one_transition_one_side_effect() {
    let mut a = app_with_n_probes(3);
    // Build baseline
    for round in 0..25 {
        let batch = PrimaryBatch {
            round_id: round,
            reset_epoch: a.reset_epoch,
            results: vec![
                seen(Some(20.0)),
                seen(Some(20.0)),
                seen(Some(20.0)),
            ],
            weights: Vec::new(),
        started_at: NOW,
        };
        let _ = a.ingest_generation_at(batch, NOW, CLOCK).sound;
    }
    let events_before = a.events.len();
    let mut sounds = 0;
    // Drive all targets down
    for round in 25..55 {
        let batch = PrimaryBatch {
            round_id: round,
            reset_epoch: a.reset_epoch,
            results: vec![
                seen(None),
                seen(None),
                seen(None),
            ],
            weights: Vec::new(),
        started_at: NOW,
        };
        let sound = a.ingest_generation_at(batch, NOW, CLOCK).sound;
        if sound.is_some() {
            sounds += 1;
        }
    }
    // Should produce exactly 2 connection transition sounds:
    // Up→Degraded (1 sound) and Degraded→Down (1 sound)
    assert!(
        sounds <= 2,
        "should produce at most 2 transition sounds (Up→Degraded, Degraded→Down), got {}",
        sounds
    );
    assert!(
        a.events.len() > events_before,
        "transitions should produce log events"
    );
}

#[test]
fn detector_mode_from_env() {
    // Default is Legacy
    assert_eq!(DetectorMode::from_env(None), DetectorMode::Legacy);
    // Explicit values
    assert_eq!(DetectorMode::from_env(Some("shadow")), DetectorMode::Shadow);
    assert_eq!(DetectorMode::from_env(Some("hybrid")), DetectorMode::Hybrid);
    assert_eq!(DetectorMode::from_env(Some("legacy")), DetectorMode::Legacy);
    // Invalid value falls back to Legacy
    assert_eq!(DetectorMode::from_env(Some("invalid")), DetectorMode::Legacy);
}
