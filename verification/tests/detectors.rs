//! The detectors of sudden change.
use ping_monitor::detector::{
    EwmaDetector, Weights, DETRIGGER_RATIO, EPSILON_NS, GRAINS, ONE, TAU_L_NS, TAU_S_NS,
};
use ping_monitor::time::Instant;

fn t(secs: f64) -> Instant {
    Instant { ns: 1_000_000_000_000 + (secs * 1e9) as u64 }
}

/// Averages are kept in grains.
fn grains(ns: u64) -> u128 {
    ns as u128 * GRAINS
}

fn in_ns(grains: u128) -> f64 {
    grains as f64 / GRAINS as f64
}

fn ns(ms: f64) -> u64 {
    (ms * 1e6).round() as u64
}

fn weights(d: &EwmaDetector, now: Instant) -> Weights {
    match d.weighing_gap(now) {
        Some(gap) => {
            let w = |tau: u64| ((1.0 - (-(gap as f64) / tau as f64).exp()) * ONE as f64) as u64;
            Weights { short: w(TAU_S_NS), long: w(TAU_L_NS) }
        }
        None => Weights { short: 0, long: 0 },
    }
}

fn observe(
    d: &mut EwmaDetector,
    x: f64,
    now: Instant,
    warn: f64,
    severe: f64,
) -> (bool, Option<f64>, f64, bool) {
    let w = weights(d, now);
    let (latch, short, ratio, admitted) = d.observe(ns(x), now, ns(warn), Some(ns(severe)), w);
    (latch, short.map(|s| in_ns(s) / 1e6), ratio.num as f64 / ratio.den as f64, admitted)
}




#[test]
fn first_value_initializes() {
    let mut d = EwmaDetector::new();
    let (latch, short, ratio, admitted) = observe(&mut d, 50.0, t(0.0), 200.0, 500.0);
    assert!(!latch);
    assert_eq!(short, Some(50.0));
    assert!((ratio - 1.0).abs() < 0.001);
    assert!(admitted);
    assert_eq!(d.valid_count, 1);
}

#[test]
fn gap_reset() {
    let mut d = EwmaDetector::new();
    let _ = observe(&mut d, 50.0, t(0.0), 200.0, 500.0);
    // 300s gap
    let (latch, short, ratio, _) = observe(&mut d, 80.0, t(301.0), 200.0, 500.0);
    assert!(!latch);
    assert_eq!(short, Some(80.0));
    assert!((ratio - 1.0).abs() < 0.001);
    assert_eq!(d.valid_count, 1);
}

#[test]
fn warmup_blocks_relative_trigger() {
    let mut d = EwmaDetector::new();
    // 29 samples at 250ms (above warn=200), 58s elapsed
    for i in 0..29 {
        let _ = observe(&mut d, 250.0, t(i as f64 * 2.0), 200.0, 500.0);
    }
    assert!(!d.warmup_done);
    // 30th at 60s — warmup completes
    let _ = observe(&mut d, 250.0, t(60.0), 200.0, 500.0);
    assert!(d.warmup_done);
    // Spike to 1200: ratio>4, delta>20, x>warn
    let (latch, _, ratio, _) = observe(&mut d, 1200.0, t(62.0), 200.0, 500.0);
    assert!(
        latch,
        "warmup done + ratio>=4 + delta>=20 → latch, ratio={}",
        ratio
    );
}

#[test]
fn severe_during_warmup() {
    let mut d = EwmaDetector::new();
    let _ = observe(&mut d, 250.0, t(0.0), 200.0, 500.0);
    // Severe during warmup
    let (latch, _, _, _) = observe(&mut d, 600.0, t(1.0), 200.0, 500.0);
    assert!(latch, "severe should activate during warmup");
}

#[test]
fn delta_dominates() {
    let mut d = EwmaDetector::new();
    // 35 samples at 250ms, 70s
    for i in 0..35 {
        let _ = observe(&mut d, 250.0, t(i as f64 * 2.0), 200.0, 500.0);
    }
    assert!(d.warmup_done);
    // Spike to 1200: ratio>4, delta>20
    let (latch, _, ratio, _) = observe(&mut d, 1200.0, t(80.0), 200.0, 500.0);
    assert!(latch, "ratio>=4 && delta>=20 → latch, ratio={}", ratio);
    assert!(ratio >= 4.0);
}

#[test]
fn ratio_insufficient() {
    let mut d = EwmaDetector::new();
    // 35 samples at 300ms, 70s
    for i in 0..35 {
        let _ = observe(&mut d, 300.0, t(i as f64 * 2.0), 200.0, 500.0);
    }
    assert!(d.warmup_done);
    // Use baseline 100ms, spike 350ms: ratio ≈ 3.5, x=350 < severe=500
    let mut d2 = EwmaDetector::new();
    for i in 0..35 {
        let _ = observe(&mut d2, 100.0, t(i as f64 * 2.0), 50.0, 500.0);
    }
    assert!(d2.warmup_done);
    let (latch, _, ratio, _) = observe(&mut d2, 350.0, t(80.0), 50.0, 500.0);
    assert!(!latch, "ratio<4 and x<severe → no latch, ratio={}", ratio);
    assert!(ratio < 4.0);
}

#[test]
fn detrigger_exact() {
    let mut d = EwmaDetector::new();
    // Activate: 35 samples at 250ms, 70s
    for i in 0..35 {
        let _ = observe(&mut d, 250.0, t(i as f64 * 2.0), 200.0, 500.0);
    }
    let (latch, _, _, _) = observe(&mut d, 1200.0, t(80.0), 200.0, 500.0);
    assert!(latch);
    // Feed clean values to bring ratio down
    for i in 0..30 {
        let _ = observe(&mut d, 250.0, t(82.0 + i as f64 * 2.0), 200.0, 500.0);
    }
    let short_val = in_ns(d.short.unwrap());
    let long_val = in_ns(d.long.unwrap());
    let ratio = short_val / long_val.max(EPSILON_NS as f64);
    assert!(
        ratio <= DETRIGGER_RATIO as f64,
        "ratio should be <= 2.0, got {}",
        ratio
    );
    assert!(!d.latch_active, "latch should have cleared");
}

#[test]
fn intermediate_preserves_latch() {
    let mut d = EwmaDetector::new();
    for i in 0..35 {
        let _ = observe(&mut d, 250.0, t(i as f64 * 2.0), 200.0, 500.0);
    }
    // Activate
    let (latch, _, _, _) = observe(&mut d, 1200.0, t(80.0), 200.0, 500.0);
    assert!(latch);
    // Feed 500ms: short will be between long(250) and 4*long(1000), ratio in (2,4)
    let (latch2, _, ratio, _) = observe(&mut d, 500.0, t(82.0), 200.0, 500.0);
    assert!(
        ratio > 2.0 && ratio < 4.0,
        "ratio should be in (2,4), got {}",
        ratio
    );
    assert!(latch2, "intermediate ratio should preserve latch");
}

#[test]
fn gap_breaks_continuity() {
    let mut d = EwmaDetector::new();
    let _ = observe(&mut d, 50.0, t(0.0), 200.0, 500.0);
    d.mark_gap();
    assert!(d.continuity_broken);
    // Next valid sample enters step 3 (first after gap)
    let (latch, short, _ratio, admitted) = observe(&mut d, 50.0, t(1.0), 200.0, 500.0);
    assert!(!latch);
    assert_eq!(short, Some(50.0));
    assert!(!admitted, "first after gap should not admit to long");
}

#[test]
fn relearning_after_600s() {
    let mut d = EwmaDetector::new();
    let _ = observe(&mut d, 50.0, t(0.0), 200.0, 500.0);
    // 600s without admission
    let (latch, short, ratio, _) = observe(&mut d, 80.0, t(601.0), 200.0, 500.0);
    assert!(!latch);
    assert_eq!(short, Some(80.0));
    assert!((ratio - 1.0).abs() < 0.001);
    assert_eq!(d.valid_count, 1, "relearning should reset valid_count");
}

#[test]
fn dt_zero_clamp() {
    let mut d = EwmaDetector::new();
    let _ = observe(&mut d, 50.0, t(0.0), 200.0, 500.0);
    // Same timestamp — dt should be clamped to 0.001
    let (_, short, _, _) = observe(&mut d, 60.0, t(0.0), 200.0, 500.0);
    // short should have moved slightly (alpha_s with dt=0.001 is very small)
    let s = short.unwrap();
    assert!(
        s > 50.0 && s < 60.0,
        "short should move slightly, got {}",
        s
    );
}

#[test]
fn averages_lie_between_old_and_new() {
    let mut d = EwmaDetector::new();
    let half = Weights { short: ONE / 2, long: ONE / 4 };
    d.observe(100, t(0.0), 1, None, half);
    let (_, short, ratio, admitted) = d.observe(300, t(1.0), 1, None, half);
    assert_eq!(short, Some(grains(200)));
    assert_eq!(d.long, Some(grains(150)));
    assert!(admitted);
    // the slow average of before, but at least a millisecond
    assert_eq!((ratio.num, ratio.den), (grains(200), grains(1_000_000)));
    // a move by less than a nanosecond is not lost
    let (_, short, _, _) = d.observe(201, t(2.0), 1, None, half);
    assert_eq!(short, Some(grains(401) / 2));
}

#[test]
fn a_latch_freezes_the_slow_average() {
    let mut d = EwmaDetector::new();
    let half = Weights { short: ONE / 2, long: ONE / 2 };
    d.observe(ns(100.0), t(0.0), ns(200.0), Some(ns(500.0)), half);
    let (latch, _, _, admitted) = d.observe(ns(600.0), t(1.0), ns(200.0), Some(ns(500.0)), half);
    assert!(latch && !admitted);
    assert_eq!(d.long, Some(grains(ns(100.0))));
    d.observe(ns(600.0), t(2.0), ns(200.0), Some(ns(500.0)), half);
    assert_eq!(d.long, Some(grains(ns(100.0))));
    d.reset();
    assert_eq!(d.long, None);
}
