//! The session as text, the pooled figures and the statistics.
use ping_monitor::app::App;
use ping_monitor::config::Config;
use ping_monitor::detector::{DetectorMode, ProbeWeights, Weights, GRAINS};
use ping_monitor::exact::mean;
use ping_monitor::export::{
    appended, can_print, export_header, export_line, shadow_header, shadow_line,
};
use ping_monitor::net::PingSample;
use ping_monitor::pool::{percent_of, DEGRADED_SCORE, FULL_SCORE, POINT};
use ping_monitor::probe::{Metric, ShadowEvent};
use ping_monitor::round::{PrimaryBatch, RoundResult};
use ping_monitor::state::LinkState;
use ping_monitor::stats::{
    median, percentile, present_values, sorted, sum, Baseline, HistBucket, LatStat, Ratio, Ring,
};
use ping_monitor::text::{
    dec, dec_i16, dec_padded, double_fixed, fixed, ms, padded_left, padded_right, rounded, Double,
    FIXED_LIMIT,
};
use ping_monitor::time::{Clock, Instant};

const SEC: u64 = 1_000_000_000;
const MS: u64 = 1_000_000;

fn clock(secs: u64) -> Clock {
    Clock { now: Instant { ns: (1_000_000 + secs) * SEC }, unix_ms: 1_700_000_000_000 + secs * 1000 }
}

fn app(n: usize) -> App {
    let mut a = App::new(Config::default(), clock(0).now, None, None);
    for i in 0..n {
        a.add_primary(&format!("t{}", i), "127.0.0.1", 80, clock(0).now);
    }
    a
}

fn weights(one: u64) -> ProbeWeights {
    let w = Weights { short: one, long: one };
    ProbeWeights { latency: w, jitter: w }
}

/// The score in parts of a point.
fn points(a: &App) -> u64 {
    let s = a.score();
    assert_eq!(s.num * POINT as u128 % s.den, 0);
    (s.num * POINT as u128 / s.den) as u64
}

fn value(d: Double) -> f64 {
    d.num as f64 / (1u128 << d.halvings) as f64
}

fn ping(a: &mut App, idx: usize, rtt_ns: Option<u64>, secs: u64) {
    a.ingest_ping(idx, PingSample { rtt_ns }, clock(secs), weights(0));
}

#[test]
fn a_line_of_the_session() {
    let mut a = app(2);
    ping(&mut a, 0, Some(10 * MS), 1);
    ping(&mut a, 1, Some(30 * MS), 2);
    ping(&mut a, 0, Some(15_250_000), 3);
    ping(&mut a, 1, None, 4);
    a.ingest_dns(0, 0, Some(40 * MS), 0);
    a.ingest_dns(0, 1, Some(60 * MS), 0);
    a.ingest_dns(1, 0, Some(20 * MS), 0);
    let row = a.export_row(clock(5));
    // one of four lost: 25 points off
    assert_eq!(points(&a), 75_000_000_000);
    assert_eq!(
        export_line(&row),
        "1700000005\t5\tup\t75\t15.2\t18.4\t10.0\t30.0\t4\t1\t25.00\t5.2\t60.0\t40.0\t1000"
    );
    assert_eq!(export_header().split('\t').count(), 15);
    assert_eq!(export_line(&row).split('\t').count(), 15);
}

#[test]
fn a_line_of_a_fresh_session() {
    let a = app(1);
    assert_eq!(
        export_line(&a.export_row(clock(0))),
        "1700000000\t0\tup\t100\t-\t0.0\t0.0\t0.0\t0\t0\t0.00\t-\t-\t0.0\t1000"
    );
}

#[test]
fn files_of_an_export() {
    let mut a = app(1);
    let row = a.export_row(clock(9));
    let e = a.export_tsv(&row, Some("/home/x"));
    assert_eq!(e.dir, "/home/x/.ping_monitor/sessions");
    assert_eq!(e.path, "/home/x/.ping_monitor/sessions/1700000009.tsv");
    assert_eq!(e.shadow_path, "/home/x/.ping_monitor/sessions/1700000009.shadow.tsv");
    assert!(e.shadow_lines.is_empty());
    assert_eq!(a.export_tsv(&row, None).dir, "/tmp/.ping_monitor/sessions");
    a.shadow_log.push_back(ShadowEvent {
        ts: clock(2).now,
        metric: Metric::Latency,
        old_latch: false,
        new_latch: true,
        ratio: Ratio { num: 10, den: 3 },
        short: 12_345_678 * GRAINS,
    });
    assert!(a.export_tsv(&row, None).shadow_lines.is_empty());
    a.detector_mode = DetectorMode::Shadow;
    assert_eq!(
        a.export_tsv(&row, None).shadow_lines,
        vec!["2000\tlatency\tfalse\ttrue\t3.3333\t12.3".to_string()]
    );
    assert_eq!(shadow_header().split('\t').count(), 6);
    let j = ShadowEvent { metric: Metric::Jitter, ..a.shadow_log[0] };
    assert!(shadow_line(&j, clock(0).now).contains("\tjitter\t"));
    a.exported("/p".to_string());
    assert_eq!(a.last_export, Some("/p".to_string()));
}

/// In shadow mode a severe sample closes a latch that is logged, and nothing else
/// differs from the mode without detectors.
#[test]
fn shadow_logs_without_affecting_state() {
    let mut plain = app(1);
    let mut shadow = app(1);
    let mut hybrid = app(1);
    shadow.detector_mode = DetectorMode::Shadow;
    hybrid.detector_mode = DetectorMode::Hybrid;
    for t in 0..30 {
        let rtt = if t < 10 { 20 * MS } else { 600 * MS };
        for a in [&mut plain, &mut shadow, &mut hybrid] {
            let batch = PrimaryBatch {
                round_id: t,
                reset_epoch: 0,
                results: vec![RoundResult::Observed(PingSample { rtt_ns: Some(rtt) })],
                weights: vec![weights(1 << 31)],
                started_at: clock(t).now,
            };
            a.ingest_generation(batch, clock(t));
        }
        assert_eq!(plain.primaries[0].state, shadow.primaries[0].state);
        assert_eq!(plain.state, shadow.state);
        if t == 13 {
            // three severe samples: the latch has a say before the window has
            assert_eq!(plain.primaries[0].state, LinkState::Up);
            assert_eq!(hybrid.primaries[0].state, LinkState::Degraded);
        }
    }
    assert!(plain.shadow_log.is_empty());
    assert!(hybrid.shadow_log.is_empty());
    assert_eq!(shadow.shadow_log.len(), 1);
    assert_eq!(shadow.shadow_log[0].metric, Metric::Latency);
    assert!(shadow.shadow_log[0].new_latch);
    assert_eq!(shadow.shadow_log[0].ts, clock(10).now);
    assert_eq!(shadow.shadow_log[0].short, 310 * MS as u128 * GRAINS);
}

#[test]
fn score_weighs_latency_jitter_loss_dns_and_state() {
    let mut a = app(1);
    assert_eq!(points(&a), FULL_SCORE);
    // 50 ms above the limit of 200: five points
    a.primaries[0].last_value = Some(250 * MS);
    assert_eq!(points(&a), 95_000_000_000);
    // 40 ms above the limit of 60: eight points
    a.primaries[0].jitter_ring.push(Some(100 * MS));
    assert_eq!(points(&a), 87_000_000_000);
    // 30 ms above the limit of 100: three points
    a.dns.cells[0][0].last = Some(130 * MS);
    assert_eq!(points(&a), 84_000_000_000);
    a.primaries[0].last_value = Some(9_000 * MS);
    assert_eq!(points(&a), 59_000_000_000);
    a.state = LinkState::Degraded;
    assert_eq!(points(&a), DEGRADED_SCORE);
    a.primaries[0].total = 10;
    a.primaries[0].lost = 9;
    assert_eq!(points(&a), 19_000_000_000);
    a.state = LinkState::Down;
    assert_eq!(points(&a), 0);
}

#[test]
fn pooled_extremes_of_an_idle_target() {
    let mut a = app(2);
    ping(&mut a, 0, Some(10 * MS), 1);
    ping(&mut a, 0, Some(20 * MS), 2);
    let s = a.pooled_ping_stat();
    assert_eq!((s.count, s.sum), (2, 30 * MS as u128));
    // the second target has no samples, and its zero counts as an extreme
    assert_eq!((s.min, s.max), (0, 20 * MS));
    assert_eq!(s.avg(), Some(Ratio { num: 30 * MS as u128, den: 2 }));
    assert_eq!(a.primaries[0].stat.min, 10 * MS);
}

#[test]
fn shares_of_the_session_add_up() {
    let mut a = app(1);
    a.accrue_state_time(clock(6).now);
    a.state = LinkState::Degraded;
    a.accrue_state_time(clock(9).now);
    a.state = LinkState::Down;
    a.accrue_state_time(clock(10).now);
    let (u, d, n) = (a.uptime_pct(), a.degraded_pct(), a.down_pct());
    assert_eq!((u.num, d.num, n.num), (600_000, 300_000, 100_000));
    assert_eq!((u.den, d.den, n.den), (10_000, 10_000, 10_000));
    assert_eq!(u.num + d.num + n.num, 100 * u.den);
    assert_eq!(app(1).uptime_pct(), Ratio { num: 100, den: 1 });
    assert_eq!(percent_of(1, 0, 7), Ratio { num: 7, den: 1 });
}

#[test]
fn thresholds_follow_the_baseline_but_not_below_the_floor() {
    let mut a = app(1);
    for _ in 0..49 {
        a.primaries[0].baseline.push_latency(300 * MS);
    }
    assert_eq!(a.lat_warn_ms().ns, 200 * MS as u128);
    a.primaries[0].baseline.push_latency(300 * MS);
    assert_eq!(a.lat_warn_ms().ns, 600 * MS as u128);
    assert_eq!(a.lat_bad_ms().ns, 1_200 * MS as u128);
    assert_eq!(a.jit_warn_ms(), Ratio { num: 120 * MS as u128, den: 2 });
    for _ in 0..50 {
        a.primaries[0].baseline.push_jitter(3);
    }
    assert_eq!(a.jit_warn_ms(), Ratio { num: 120 * MS as u128, den: 2 });
    for _ in 0..300 {
        a.primaries[0].baseline.push_jitter(100 * MS + 1);
    }
    // two and a half times: half a nanosecond counts
    let warn = Ratio { num: 500 * MS as u128 + 5, den: 2 };
    assert_eq!(a.jit_warn_ms(), warn);
    let (lat, jit, loss, down) = a.primaries[0].adaptive_thresholds(&a.cfg);
    assert_eq!((lat, jit), (600 * MS as u128, warn));
    assert_eq!((loss, down), (200_000, 600_000));
}

#[test]
fn dns_thresholds_follow_the_slowest_cell() {
    let mut a = app(1);
    for _ in 0..50 {
        a.ingest_dns(2, 1, Some(90 * MS), 0);
    }
    assert_eq!(a.dns_warn_ms().ns, 180 * MS as u128);
    assert_eq!(a.dns_bad_ms().ns, 400 * MS as u128);
    a.ingest_dns(0, 0, Some(190 * MS), 0);
    assert_eq!(a.dns.cells[0][0].state, LinkState::Degraded);
    assert_eq!(a.events.back().unwrap().msg, "[DNS sys→www.google.com] high: 190 ms");
    a.ingest_dns(0, 0, None, 0);
    assert_eq!(a.dns.cells[0][0].state, LinkState::Down);
    assert_eq!(a.events.back().unwrap().msg, "[DNS sys→www.google.com] failed");
    assert_eq!(a.system_resolver_worst(), None);
    assert_eq!(value(a.dns_avg()), 140.0);
    assert_eq!(double_fixed(a.dns_avg(), 1), "140.0");
    let n = a.events.len();
    assert!(a.ingest_dns(3, 0, None, 0).is_none());
    assert_eq!(a.events.len(), n);
}

#[test]
fn recoveries_are_timed() {
    let mut a = app(1);
    for t in 0..30 {
        ping(&mut a, 0, None, t);
    }
    assert_eq!(a.state, LinkState::Down);
    let mut t = 30;
    while a.state != LinkState::Up {
        ping(&mut a, 0, Some(MS), t);
        t += 1;
        assert!(t < 200);
    }
    assert_eq!((a.outages, a.recoveries), (1, 1));
    assert_eq!(a.bad_since, None);
    assert_eq!(a.up_since, Some(clock(t - 1).now));
    assert_eq!(a.mttr_ms(), a.mttr_ms_total);
    assert_eq!(a.worst_loss_burst, 30);
    assert_eq!(a.best_uptime_secs, 6);
    assert_eq!(a.cur_uptime_secs(clock(t + 4).now), 5);
    assert_eq!(a.events.back().unwrap().msg.split("  ").next(), Some("connection recovered"));
}

#[test]
fn statistics_of_small_samples() {
    assert_eq!(sorted(&vec![3, 1, 2]), vec![1, 2, 3]);
    assert_eq!(median(&vec![]), None);
    assert_eq!(median(&vec![4, 1]), Some(4));
    assert_eq!(median(&vec![9, 1, 5]), Some(5));
    assert_eq!(percentile(&vec![], 90), None);
    assert_eq!(percentile(&vec![7], 90), Some(7));
    assert_eq!(percentile(&(1..=10).collect::<Vec<u64>>(), 90), Some(10));
    assert_eq!(percentile(&(1..=100).collect::<Vec<u64>>(), 90), Some(91));
    assert_eq!(present_values(&vec![Some(1), None, Some(2)]), vec![1, 2]);
    assert_eq!(sum(&vec![u64::MAX, 1]), u64::MAX as u128 + 1);
    let mut s = LatStat::default();
    assert_eq!(s.avg(), None);
    for v in [5, 2, 9] {
        s.add(v);
    }
    assert_eq!((s.count, s.sum, s.min, s.max, s.last), (3, 16, 2, 9, Some(9)));
    assert_eq!(s.avg(), Some(Ratio { num: 16, den: 3 }));
}

#[test]
fn windows_keep_the_latest() {
    let mut r: Ring<u64> = Ring::new(3);
    for v in 1..=5 {
        r.push(v);
    }
    assert_eq!(r.as_vec(), vec![3, 4, 5]);
    assert_eq!(r.len(), 3);
    let mut b = Baseline::new();
    for v in 0..400 {
        b.push_latency(v);
    }
    assert_eq!(b.latency_len(), 300);
    assert_eq!(b.jitter_len(), 0);
    assert_eq!(b.lat_p90(), Some(370));
    assert_eq!(b.jit_p90(), None);
    let mut h = HistBucket::default();
    h.push(Some(5), "a");
    h.push(None, "b");
    h.push(Some(5), "c");
    h.push(Some(6), "d");
    assert_eq!((h.count, h.loss, h.peak_rtt), (4, 1, Some(6)));
    assert_eq!(h.peak_primary, Some("d".to_string()));
}

#[test]
fn numbers_as_text() {
    assert_eq!(dec(0), "0");
    assert_eq!(dec(u128::MAX), "340282366920938463463374607431768211455");
    assert_eq!(dec_i16(-32_768), "-32768");
    assert_eq!(dec_i16(7), "7");
    assert_eq!(dec_padded(5, 3), "005");
    assert_eq!(dec_padded(1234, 3), "1234");
    assert_eq!(padded_left("ab", 4, ' '), "  ab");
    assert_eq!(padded_right("ab", 4), "ab  ");
    assert_eq!(rounded(5, 2), 2);
    assert_eq!(rounded(7, 2), 4);
    assert_eq!(fixed(2, 3, 2), "0.67");
    assert_eq!(fixed(1, 8, 2), "0.12");
    assert_eq!(fixed(25, 2, 0), "12");
    assert_eq!(ms(1_999_999, 1), "2.0");
}

#[test]
fn half_a_nanosecond_decides() {
    let mut a = app(1);
    for _ in 0..60 {
        a.primaries[0].baseline.push_jitter(100 * MS + 1);
        a.primaries[0].lat_ring.push(Some(MS));
    }
    // the threshold is 250 ms and 2.5 ns: means of 2.5 ns and of 3 ns above 250 ms
    for k in 0..60 {
        a.primaries[0].jitter_ring.push(Some(250 * MS + 2 + k % 2));
    }
    assert_eq!(a.primaries[0].classify(&a.cfg), (false, false));
    for _ in 0..60 {
        a.primaries[0].jitter_ring.push(Some(250 * MS + 3));
    }
    assert_eq!(a.primaries[0].classify(&a.cfg), (true, false));
}

#[test]
fn means_are_not_cut_before_they_are_printed() {
    let mut a = app(1);
    ping(&mut a, 0, Some(49_999), 1);
    ping(&mut a, 0, Some(50_002), 2);
    let line = export_line(&a.export_row(clock(3)));
    // the mean is 50000.5 ns
    assert_eq!(line.split('\t').nth(5), Some("0.1"));
    a.ingest_dns(0, 0, Some(49_999), 0);
    a.ingest_dns(0, 0, Some(50_002), 0);
    let line = export_line(&a.export_row(clock(3)));
    assert_eq!(line.split('\t').nth(13), Some("0.1"));
    a.ingest_dns(0, 1, Some(49_999), 0);
    let line = export_line(&a.export_row(clock(3)));
    assert_eq!(line.split('\t').nth(13), Some("0.0"));
    assert!(can_print(&a.export_row(clock(3))));
}

#[test]
fn means_of_fractions_are_rounded_once() {
    let r = |num: u128, den: u128| Ratio { num, den };
    let ms = 1_000_000;
    assert_eq!(double_fixed(mean(&vec![]), 1), "0.0");
    assert_eq!(value(mean(&vec![])), 0.0);
    assert_eq!(value(mean(&vec![r(ms, 3), r(2 * ms, 3)])), 0.5);
    assert_eq!(value(mean(&vec![r(ms, 3)])), 1.0 / 3.0);
    assert_eq!(value(mean(&vec![r(ms, 3), r(ms, 7), r(ms, 11)])), 131.0 / 693.0);
    let big = u64::MAX as u128;
    assert_eq!(value(mean(&vec![r(big - 1, big), r(1, big)])), 0.5e-6);
    assert_eq!(value(mean(&vec![r(big * big, big); 3])), big as f64 / 1e6);
    // too small for any place that is printed
    assert_eq!(value(mean(&vec![r(1, big)])), 0.0);
    for n in [1u128, 7, 20_050_000, 150_000, 250_000, 350_000, 99_999_999, 123_456_789_012] {
        assert_eq!(value(mean(&vec![r(n, 1)])), n as f64 / 1e6);
        assert_eq!(double_fixed(mean(&vec![r(n, 1)]), 1), format!("{:.1}", n as f64 / 1e6));
    }
}

/// Times and shares are printed as floating-point numbers are.
#[test]
fn figures_are_printed_as_doubles() {
    assert_eq!(ms(20_050_000, 1), "20.1");
    assert_eq!(ms(150_000, 1), "0.1");
    assert_eq!(ms(250_000, 1), "0.2");
    let mut n: u64 = 1;
    for k in 0..40_000u64 {
        let x = if k % 2 == 0 { n } else { n / 50_000 * 50_000 };
        for places in 0..5usize {
            let want = format!("{:.*}", places, x as f64 / 1e6);
            assert_eq!(ms(x as u128, places), want, "{} {}", x, places);
        }
        n = n.wrapping_mul(6_364_136_223_846_793_005).wrapping_add(k) >> (11 + k % 50);
    }
    for total in 1..300u64 {
        for lost in 0..=total {
            let p = percent_of(lost, total, 0);
            let x = lost as f64 * 100.0 / total as f64;
            assert_eq!(fixed(p.num, p.den, 1), format!("{:.1}", x));
            assert_eq!(fixed(p.num, p.den, 2), format!("{:.2}", x));
        }
    }
    assert_eq!(fixed(1, 2_000, 1), format!("{:.1}", 0.0005));
    assert_eq!(fixed(100, 200_000, 2), format!("{:.2}", 0.0005));
    // far above the significand, and far below what is printed
    for x in [(1u64 << 60) + 128, (1 << 60) + 129, (1 << 60) + 384, (1 << 53) + 1, (1 << 54) + 6] {
        assert_eq!(fixed(x as u128, 1, 1), format!("{:.1}", x as f64));
    }
    assert_eq!(fixed(1, FIXED_LIMIT, 4), "0.0000");
}

#[test]
fn loss_takes_off_an_exact_share() {
    let mut a = app(1);
    a.primaries[0].total = 3;
    a.primaries[0].lost = 1;
    let s = a.score();
    // 100 - 100 / 3
    assert_eq!(s.num * 3, s.den * 200);
    let row = a.export_row(clock(1));
    assert_eq!(row.score, 66);
}

#[test]
fn titles_come_first_in_a_new_file_only() {
    let lines = vec!["a\tb".to_string(), "c".to_string()];
    assert_eq!(appended("x\ty", &lines, true), "x\ty\na\tb\nc\n");
    assert_eq!(appended("x\ty", &lines, false), "a\tb\nc\n");
    assert_eq!(appended("x", &vec![], true), "x\n");
    let (one, two) = (vec![lines[0].clone()], vec![lines[1].clone()]);
    let twice = appended("h", &one, true) + &appended("h", &two, false);
    assert_eq!(twice, appended("h", &lines, true));
}

#[test]
fn the_three_highest_spikes_are_kept() {
    let mut a = app(1);
    for (t, v) in [(1, 100), (2, 90), (3, 10), (4, 95), (5, 20)] {
        ping(&mut a, 0, Some(v * MS), t);
    }
    let tops: Vec<u64> = a.top_latency.iter().map(|s| s.0 / MS).collect();
    assert_eq!(tops, vec![100, 95, 90]);
    assert_eq!(a.top_latency[1].1, clock(4).unix_ms);
    let jits: Vec<u64> = a.top_jitter.iter().map(|s| s.0 / MS).collect();
    assert_eq!(jits, vec![85, 80, 75]);
    assert_eq!((a.peak_latency, a.peak_jitter), (100 * MS, 85 * MS));
}

#[test]
fn large_quotients_as_text() {
    assert_eq!(fixed(u128::MAX, 65_536, 1), "5192296858534827628530496329220096.0");
    assert_eq!(fixed(FIXED_LIMIT, 1, 0), "5192296858534827628530496329220096");
    assert_eq!(fixed(5, 4, 1), "1.2");
    assert_eq!(fixed(7, 4, 1), "1.8");
    assert_eq!(fixed(199_999, 100_000, 4), "2.0000");
}
