//! What holds of the monitor as a whole, on chosen values.
use ping_monitor::app::{App, GatewayRole, Level, EVENTS_CAP, HIST_BUCKETS};
use ping_monitor::config::Config;
use ping_monitor::control::Msg;
use ping_monitor::detector::{ProbeWeights, Weights};
use ping_monitor::insight::diagnose;
use ping_monitor::intake::GatewayUpdate;
use ping_monitor::net::PingSample;
use ping_monitor::round::{cause_word, Outcome, PathCause, PrimaryBatch, RoundResult};
use ping_monitor::sound::SoundEvent;
use ping_monitor::state::{consensus, DesiredState, LinkState};
use ping_monitor::time::{Clock, Instant};

const SEC: u64 = 1_000_000_000;
const MS: u64 = 1_000_000;

fn clock(secs: u64) -> Clock {
    Clock { now: Instant { ns: (1_000_000 + secs) * SEC }, unix_ms: 1_700_000_000_000 + secs * 1000 }
}

fn app(n: usize) -> App {
    let mut a = App::new(Config::default(), clock(0).now, None, None);
    for i in 0..n {
        a.add_primary(&format!("t{}", i), "127.0.0.1", 80, clock(0).now);
    }
    a
}

fn round(a: &mut App, rtts: &[Option<u64>], secs: u64) -> Outcome {
    let batch = PrimaryBatch {
        round_id: secs,
        reset_epoch: a.reset_epoch,
        results: rtts.iter().map(|r| RoundResult::Observed(PingSample { rtt_ns: *r })).collect(),
        weights: Vec::new(),
        started_at: clock(secs).now,
    };
    a.ingest_generation(batch, clock(secs))
}

/// All combinations of states for up to five targets: a strict majority decides.
#[test]
fn strict_majority_on_all_votes() {
    let all = [LinkState::Up, LinkState::Degraded, LinkState::Down];
    for n in 1..=5usize {
        for code in 0..3usize.pow(n as u32) {
            let mut c = code;
            let mut votes = Vec::new();
            for _ in 0..n {
                votes.push(all[c % 3]);
                c /= 3;
            }
            let up = votes.iter().filter(|s| **s == LinkState::Up).count();
            let down = votes.iter().filter(|s| **s == LinkState::Down).count();
            let want = if 2 * down > n {
                DesiredState::Down
            } else if 2 * (n - up) > n {
                DesiredState::Degraded
            } else if 2 * up > n {
                DesiredState::Up
            } else {
                DesiredState::Inconclusive
            };
            assert_eq!(consensus(&votes), want, "{:?}", votes);
            votes.reverse();
            assert_eq!(consensus(&votes), want);
        }
    }
}

#[test]
fn targets_do_not_influence_each_other() {
    let mut a = app(2);
    let mut b = app(2);
    for t in 0..30 {
        let other = if t % 3 == 0 { None } else { Some(t * MS) };
        round(&mut a, &[Some(20 * MS), other], t);
        round(&mut b, &[Some(20 * MS), Some(20 * MS)], t);
        assert_eq!(a.primaries[0].state, b.primaries[0].state);
        assert_eq!(a.primaries[0].stat, b.primaries[0].stat);
        assert_eq!(a.primaries[0].jitter_ring.as_vec(), b.primaries[0].jitter_ring.as_vec());
    }
}

#[test]
fn one_lost_target_makes_no_sound() {
    let mut a = app(3);
    for t in 0..60 {
        let o = round(&mut a, &[None, Some(20 * MS), Some(20 * MS)], t);
        assert!(o.sound.is_none() && o.notify.is_none() && o.export.is_none());
    }
    assert_eq!(a.primaries[0].state, LinkState::Down);
    assert_eq!(a.state, LinkState::Up);
}

#[test]
fn the_cue_of_one_target_is_optional_and_rate_limited() {
    let mut a = app(3);
    a.prealert_enabled = true;
    let mut heard = Vec::new();
    let mut t = 0;
    // the target fails and recovers over and over
    for cycle in 0..8 {
        for k in 0..40 {
            let lost = k < 15;
            let rtt = if lost { None } else { Some(20 * MS) };
            let o = round(&mut a, &[rtt, Some(20 * MS), Some(20 * MS)], t);
            if let Some(s) = o.sound {
                assert_eq!(s, SoundEvent::ProbeAnomaly);
                assert!(o.notify.is_none());
                heard.push(t);
            }
            t += 1;
        }
        assert_eq!(a.state, LinkState::Up, "cycle {}", cycle);
    }
    assert!(heard.len() >= 2);
    for w in heard.windows(2) {
        assert!(w[1] - w[0] >= 60);
    }
    a.muted = true;
    a.probe_anomaly_cooldown_at = None;
    a.probe_anomaly_edge = vec![true, false, false];
    a.primaries[0].state = LinkState::Down;
    assert_eq!(a.evaluate_probe_anomaly_cue(clock(t).now, 0), None);
    a.muted = false;
    assert_eq!(a.evaluate_probe_anomaly_cue(clock(t).now, 0), Some(SoundEvent::ProbeAnomaly));
    assert_eq!(a.events.back().unwrap().msg, "isolated target anomaly detected  ♪ probe anomaly");
    assert_eq!(a.evaluate_probe_anomaly_cue(clock(t + 59).now, 0), None);
}

#[test]
fn recovery_is_stepwise_and_survives_a_noisy_minority() {
    let mut a = app(3);
    let mut t = 0;
    while a.state != LinkState::Down {
        round(&mut a, &[None, None, None], t);
        t += 1;
    }
    while a.state == LinkState::Down {
        round(&mut a, &[Some(MS), Some(MS), Some(MS)], t);
        t += 1;
    }
    assert_eq!(a.state, LinkState::Degraded);
    assert!(a.events.back().unwrap().msg.starts_with("improving → degraded"));
    while a.recovery.resumed_at.is_none() {
        round(&mut a, &[Some(MS), Some(MS), Some(MS)], t);
        t += 1;
    }
    let began = t - 1;
    assert_eq!(a.recovery_remaining(clock(began + 4).now).unwrap().as_secs(), 11);
    let mut sounds = Vec::new();
    while a.state != LinkState::Up {
        // the third target keeps failing
        let o = round(&mut a, &[Some(MS), Some(MS), None], t);
        sounds.extend(o.sound);
        t += 1;
    }
    assert_eq!(t - 1 - began, 15);
    assert_eq!(sounds, vec![SoundEvent::Recover]);
}

#[test]
fn the_log_and_the_history_are_bounded() {
    let mut a = app(1);
    for i in 0..100 {
        a.log(Level::Info, format!("entry {}", i), i);
        assert!(a.events.len() <= EVENTS_CAP);
    }
    assert_eq!(a.events.len(), EVENTS_CAP);
    assert_eq!(a.events.front().unwrap().msg, "entry 76");
    assert_eq!(a.events.back().unwrap().ts, 99);
    for k in 0..130 {
        round(&mut a, &[Some(MS)], k * 30);
    }
    assert_eq!(a.hist.len(), HIST_BUCKETS);
    assert!(a.hist.iter().all(|b| b.count == 1));
    round(&mut a, &[None], 129 * 30 + 29);
    assert_eq!(a.hist.back().unwrap().count, 2);
    assert_eq!(a.hist.back().unwrap().loss, 1);
}

#[test]
fn wifi_entries() {
    let mut a = app(1);
    a.set_wifi_rssi(Some(-80), 1);
    assert_eq!(a.events.back().unwrap().msg, "wifi up  -80 dBm (weak)");
    assert_eq!(a.events.back().unwrap().level, Level::Warn);
    a.set_wifi_rssi(Some(-60), 2);
    assert_eq!(a.events.back().unwrap().msg, "wifi weak → good  (-60)");
    assert_eq!(a.events.back().unwrap().level, Level::Good);
    a.set_wifi_rssi(Some(-61), 3);
    assert_eq!(a.events.len(), 2);
    assert_eq!(a.wifi_rssi, Some(-61));
    a.set_wifi_rssi(None, 4);
    assert_eq!(a.events.back().unwrap().msg, "wifi down");
}

#[test]
fn a_listed_gateway_is_preferred_and_detection_settles() {
    let mut a = app(1);
    a.add_extra("home", "192.168.1.1", 80);
    assert!(matches!(a.apply_gateway_update("192.168.1.1"), GatewayUpdate::Unchanged));
    assert_eq!(a.gw_role, GatewayRole::UserExtra(0));
    assert_eq!(a.extras.len(), 1);
    assert!(matches!(a.apply_gateway_update("10.0.0.1"), GatewayUpdate::Added { idx: 1 }));
    assert_eq!(a.gw_role, GatewayRole::AutoExtra(1));
    assert!(matches!(a.apply_gateway_update("10.0.0.1"), GatewayUpdate::Unchanged));
    match a.apply_gateway_update("10.0.0.2") {
        GatewayUpdate::Updated { old, new } => {
            assert_eq!((old.as_str(), new.as_str()), ("10.0.0.1", "10.0.0.2"));
        }
        _ => panic!("expected an update"),
    }
    assert!(matches!(a.apply_gateway_update("10.0.0.2"), GatewayUpdate::Unchanged));
    assert_eq!(a.extras.len(), 2);
    // back to the listed one: the probe of ours is left alone
    assert!(matches!(a.apply_gateway_update("192.168.1.1"), GatewayUpdate::Unchanged));
    assert_eq!((a.gw_role, a.gateway_probe_idx), (GatewayRole::UserExtra(0), Some(0)));
    assert_eq!((a.extras.len(), a.extras[1].host.as_str()), (2, "10.0.0.2"));
    // and away again
    assert!(matches!(a.apply_gateway_update("10.0.0.2"), GatewayUpdate::Unchanged));
    assert_eq!((a.gw_role, a.gateway_probe_idx), (GatewayRole::AutoExtra(1), Some(1)));
}

#[test]
fn a_listed_gateway_wins_over_a_detected_one() {
    let mut a = App::new(Config::default(), clock(0).now, None, None);
    a.add_extra("me", "10.0.0.1", 80);
    a.apply_gateway_update("192.168.1.1");
    let r = a.apply_gateway_update("10.0.0.1");
    assert!(matches!(r, GatewayUpdate::Unchanged));
    assert_eq!(a.gw_role, GatewayRole::UserExtra(0));
    assert_eq!(a.gateway_probe_idx, Some(0));
    assert_eq!(a.extras.len(), 2);
    assert_eq!(a.extras[1].host, "192.168.1.1");
}

#[test]
fn a_stale_round_needs_no_room() {
    let mut a = app(1);
    a.primaries[0].total = u64::MAX;
    let stale = PrimaryBatch {
        round_id: 0,
        reset_epoch: a.reset_epoch + 1,
        results: vec![RoundResult::Missing],
        weights: vec![],
        started_at: clock(0).now,
    };
    assert!(a.can_handle(&Msg::Round(stale), clock(1)));
}

#[test]
fn an_unknown_cause_is_amended_once_evidence_comes_in() {
    let mut a = app(3);
    a.apply_gateway_update("192.168.1.1");
    let mut t = 0;
    while a.state != LinkState::Down {
        round(&mut a, &[None, None, None], t);
        t += 1;
    }
    let at = a.pending_cause_log_idx.unwrap();
    assert!(a.events[at].msg.ends_with("cause: unknown  ♪ down"));
    a.ingest_extra(0, PingSample { rtt_ns: Some(2 * MS) }, clock(t));
    assert_eq!(a.pending_cause_log_idx, None);
    assert_eq!(
        a.events[at].msg,
        "connection DOWN  targets 0/3 up  loss 100%  (0/0/3)  \
         cause: gateway OK; failure beyond first hop  (cause updated)    ♪ down"
    );
    let msg = a.events[at].msg.clone();
    a.ingest_extra(0, PingSample { rtt_ns: None }, clock(t + 1));
    a.ingest_extra(0, PingSample { rtt_ns: None }, clock(t + 2));
    assert_eq!(a.extras[0].state, LinkState::Down);
    assert_eq!(a.events[at].msg, msg);
    assert_eq!(a.path_cause(DesiredState::Down, clock(t).now), PathCause::GatewayFailure);
}

#[test]
fn extra_probes_are_logged() {
    let mut a = app(1);
    a.add_extra("vpn", "10.8.0.1", 443);
    let mut last = |a: &mut App, rtt: Option<u64>| {
        a.ingest_extra(0, PingSample { rtt_ns: rtt }, clock(1));
        a.events.back().map(|e| e.msg.clone())
    };
    assert_eq!(last(&mut a, Some(MS)), None);
    assert_eq!(last(&mut a, None), Some("[vpn] loss".to_string()));
    assert_eq!(last(&mut a, None), Some("[vpn] down".to_string()));
    assert_eq!(last(&mut a, Some(7_400_000)), Some("[vpn] up  7 ms".to_string()));
    assert_eq!((a.extras[0].total, a.extras[0].lost), (4, 2));
}

#[test]
fn words_for_causes() {
    assert_eq!(cause_word(PathCause::GatewayFailure), "probable gateway failure");
    assert_eq!(cause_word(PathCause::WeakWifi), "weak Wi-Fi signal");
    assert_eq!(cause_word(PathCause::BeyondFirstHop), "gateway OK; failure beyond first hop");
    assert_eq!(cause_word(PathCause::Unknown), "unknown");
}

#[test]
fn weak_wifi_is_the_second_evidence() {
    let mut a = app(3);
    a.wifi_grade = Some(1);
    assert_eq!(a.path_cause(DesiredState::Degraded, clock(0).now), PathCause::WeakWifi);
    assert_eq!(a.path_cause(DesiredState::Up, clock(0).now), PathCause::Unknown);
    a.wifi_grade = Some(2);
    assert_eq!(a.path_cause(DesiredState::Degraded, clock(0).now), PathCause::Unknown);
}

#[test]
fn a_missing_target_index_is_ignored() {
    let mut a = app(1);
    let w = Weights { short: 0, long: 0 };
    let r = a.ingest_sample_at(
        5,
        PingSample { rtt_ns: None },
        clock(0).now,
        0,
        ProbeWeights { latency: w, jitter: w },
    );
    assert_eq!(r, None);
    assert!(a.hist.is_empty());
}

#[test]
fn a_monitor_without_targets_only_accounts_for_time() {
    let mut a = app(0);
    let o = a.finalize_generation(clock(3).now, clock(3));
    assert!(o.sound.is_none() && o.export.is_none());
    assert_eq!(a.sess_up_ms, 3_000);
    assert_eq!(a.interval_ms, 1_000);
}

#[test]
fn what_the_healthy_diagnosis_says() {
    let mut a = app(3);
    for r in a.dns.cells.iter_mut() {
        for c in r.iter_mut() {
            c.last = Some(MS);
        }
    }
    let out = diagnose(&a, clock(3_723).now);
    assert_eq!(out.len(), 1);
    assert_eq!(out[0].evidence, "uptime 01:02:03 · score 100/100 · loss 0.0%");
    assert_eq!(out[0].action, "all metrics nominal");
}

#[test]
fn what_the_rules_say() {
    let mut a = app(2);
    for p in a.primaries.iter_mut() {
        p.state = LinkState::Down;
        p.total = 4;
        p.lost = 3;
    }
    a.state = LinkState::Down;
    a.add_extra("gw", "192.168.1.1", 80);
    a.extras[0].state = LinkState::Down;
    a.set_wifi_rssi(Some(-90), 0);
    let out = diagnose(&a, clock(0).now);
    assert_eq!(out[0].evidence, "2/2 targets lost · gw also down");
    assert_eq!(out[1].evidence, "-90 dBm (bad) while link down");
    a.extras[0].state = LinkState::Up;
    a.set_wifi_rssi(Some(-50), 0);
    let out = diagnose(&a, clock(0).now);
    assert_eq!(out[0].cause, "upstream outage (ISP / cell tower)");
    assert_eq!(out[0].evidence, "2/2 targets lost · wifi excellent (-50 dBm)");
    a.state = LinkState::Degraded;
    a.primaries[0].state = LinkState::Up;
    let out = diagnose(&a, clock(0).now);
    assert_eq!(out[1].cause, "packet loss 75%");
    assert_eq!(out[1].evidence, "6/8 probes lost (pooled)");
}

/// A target that gets worse never makes the vote better.
#[test]
fn the_vote_is_monotone() {
    let all = [LinkState::Up, LinkState::Degraded, LinkState::Down];
    for n in 1..=4u32 {
        for code in 0..3usize.pow(n) {
            let states: Vec<LinkState> =
                (0..n).map(|i| all[code / 3usize.pow(i) % 3]).collect();
            let before = consensus(&states);
            for i in 0..states.len() {
                for worse in [LinkState::Degraded, LinkState::Down] {
                    if states[i] == LinkState::Down {
                        continue;
                    }
                    let mut next = states.clone();
                    next[i] = worse;
                    let after = consensus(&next);
                    assert!(after != DesiredState::Up || before == DesiredState::Up);
                    assert!(before != DesiredState::Down || after == DesiredState::Down);
                }
            }
        }
    }
}
