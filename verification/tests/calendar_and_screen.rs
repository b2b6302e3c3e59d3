//! Dates, and what the screen shows.
use ping_monitor::app::{App, Level};
use ping_monitor::calendar::{civil_from_days, fmt_clock_short, fmt_wall};
use ping_monitor::config::Config;
use ping_monitor::panels::{
    draw_dns, draw_events, draw_extras, draw_heatmap, draw_loss, draw_stats, draw_targets,
    short_name,
};
use ping_monitor::state::LinkState;
use ping_monitor::stats::{HistBucket, Ratio};
use ping_monitor::time::Instant;
use ping_monitor::ui::{
    axis_labels, draw, draw_footer, draw_header, draw_insights, draw_jitter, draw_latency,
    fit_spark, header_areas, inner, inner_w, plan, rooms_of, score_color, segment_runs, Area,
    Panel, Room, Span, Tone,
};

const SEC: u64 = 1_000_000_000;
const MS: u64 = 1_000_000;

fn now(secs: u64) -> Instant {
    Instant { ns: (1_000_000 + secs) * SEC }
}

fn app() -> App {
    let mut a = App::new(Config::default(), now(0), None, None);
    a.add_primary("cf", "1.1.1.1", 443, now(0));
    a.add_primary("gg", "8.8.8.8", 443, now(0));
    a
}

fn area(width: u16, height: u16) -> Area {
    Area { x: 2, y: 1, width, height }
}

fn text(line: &[Span]) -> String {
    line.iter().map(|s| s.text.as_str()).collect()
}

#[test]
fn civil_from_days_known_anchors() {
    assert_eq!(civil_from_days(0), (1970, 1, 1));
    assert_eq!(civil_from_days(365), (1971, 1, 1));
    assert_eq!(civil_from_days(10957), (2000, 1, 1));
    assert_eq!(civil_from_days(19723), (2024, 1, 1));
    assert_eq!(civil_from_days(19782), (2024, 2, 29));
}

#[test]
fn days_before_the_epoch_and_century_years() {
    assert_eq!(civil_from_days(-1), (1969, 12, 31));
    assert_eq!(civil_from_days(-719_468), (0, 3, 1));
    assert_eq!(civil_from_days(-719_469), (0, 2, 29));
    assert_eq!(civil_from_days(11_016), (2000, 2, 29));
    assert_eq!(civil_from_days(47_540), (2100, 2, 28));
    assert_eq!(civil_from_days(47_541), (2100, 3, 1));
}

#[test]
fn wall_clock_text() {
    assert_eq!(fmt_wall(0), "01/01/70 00:00:00.000");
    assert_eq!(fmt_wall(1_709_210_096_007), "29/02/24 12:34:56.007");
    assert_eq!(fmt_clock_short(1_709_210_096_007), "12:34");
}

#[test]
fn the_plan_depends_on_the_room() {
    let mut a = app();
    let small: Vec<Panel> = plan(&a, 20).iter().map(|p| p.0).collect();
    assert_eq!(
        small,
        vec![
            Panel::Header,
            Panel::Insights,
            Panel::Latency,
            Panel::Targets,
            Panel::Loss,
            Panel::Jitter,
            Panel::Dns,
            Panel::Events,
            Panel::Footer,
        ]
    );
    a.add_extra("gw", "192.168.1.1", 80);
    let large = plan(&a, 60);
    assert_eq!(large.len(), 12);
    assert_eq!(large[3], (Panel::Targets, Room::Length(6)));
    assert_eq!(large[4], (Panel::Heatmap, Room::Length(5)));
    assert_eq!(large[7], (Panel::Dns, Room::Length(6)));
    assert_eq!(large[8], (Panel::Extras, Room::Length(3)));
    assert_eq!(rooms_of(&large)[10], Room::Min(4));
    assert_eq!(plan(&a, 26).len(), 10);
    assert_eq!(plan(&a, 30).len(), 11);
    a.primaries.clear();
    assert!(!plan(&a, 60).iter().any(|p| p.0 == Panel::Targets));
}

/// With room for everything each panel gets what it asked for, and the log the rest.
#[test]
fn the_screen_is_shared_out() {
    let mut a = app();
    a.add_extra("gw", "192.168.1.1", 80);
    let size = Area { x: 0, y: 0, width: 120, height: 80 };
    let parts = draw(&a, size);
    let heights: Vec<u16> = parts.iter().map(|p| p.1.height).collect();
    assert_eq!(heights, vec![3, 5, 9, 6, 5, 6, 6, 6, 3, 5, 24, 2]);
    let mut y = 0;
    for (_, p) in &parts {
        assert_eq!((p.x, p.width, p.y), (0, 120, y));
        y += p.height;
    }
    assert_eq!(y, 80);
    let (l, r) = header_areas(Area { x: 0, y: 4, width: 100, height: 3 });
    assert_eq!(l, Area { x: 0, y: 4, width: 70, height: 3 });
    assert_eq!(r, Area { x: 70, y: 4, width: 30, height: 3 });
    let (l, r) = header_areas(Area { x: 2, y: 0, width: 5, height: 3 });
    assert_eq!((l.x, l.width, r.x, r.width), (2, 4, 6, 1));
}

/// A header is cut at the nearest cell, whatever its width and place.
#[test]
fn headers_are_cut_at_the_nearest_cell() {
    for x in [0u16, 1, 7, 333] {
        for w in 0..250u16 {
            let (l, r) = header_areas(Area { x, y: 1, width: w, height: 3 });
            let cut = (7 * w + 5) / 10;
            assert_eq!((l.x, l.width), (x, cut));
            assert_eq!((r.x, r.width), (x + cut, w - cut));
        }
    }
}

/// From the height on at which they all fit, the panels fill the screen.
#[test]
fn panels_fill_the_screen() {
    let mut a = app();
    a.add_extra("gw", "192.168.1.1", 80);
    for y in [0u16, 3, 40] {
        for height in 60..110u16 {
            let parts = draw(&a, Area { x: 5, y, width: 90, height });
            let mut at = y;
            for ((panel, part), (_, room)) in parts.iter().zip(plan(&a, height)) {
                assert_eq!((part.x, part.width, part.y), (5, 90, at));
                match room {
                    Room::Length(n) => assert_eq!(part.height, n),
                    _ => assert_eq!((*panel, part.height), (Panel::Events, height - 56)),
                }
                at += part.height;
            }
            assert_eq!(at, y + height);
        }
    }
}

#[test]
fn frames() {
    assert_eq!(inner(area(10, 5)), Area { x: 3, y: 2, width: 8, height: 3 });
    assert_eq!(inner(area(1, 0)), Area { x: 3, y: 1, width: 0, height: 0 });
    assert_eq!((inner_w(0), inner_w(3), inner_w(12)), (1, 1, 10));
}

#[test]
fn sparks_stretch_and_thin() {
    assert_eq!(fit_spark(&[], 3), vec![0, 0, 0]);
    assert_eq!(fit_spark(&[7], 2), vec![7, 7]);
    assert_eq!(fit_spark(&[1, 2], 4), vec![1, 1, 2, 2]);
    assert_eq!(fit_spark(&[1, 2, 3, 4], 2), vec![1, 3]);
    assert!(fit_spark(&[1], 0).is_empty());
}

#[test]
fn runs_have_no_gap_and_lose_nothing() {
    let data = [None, Some(1u64), Some(2), None, None, Some(3), Some(4)];
    let runs = segment_runs(&data);
    assert_eq!(runs, vec![vec![(1, 1), (2, 2)], vec![(5, 3), (6, 4)]]);
}

#[test]
fn latency_chart() {
    let mut a = app();
    let c = draw_latency(&a);
    assert_eq!(
        c.title,
        "Latency  pooled  cur 0.0 ms   avg 0.0   min 0.0   max 0.0   (median of 2 targets)"
    );
    // half the limit of 200 ms: the reference line is out of sight
    assert_eq!((c.y_max_ms, c.warn, c.span, c.tone), (100, None, 1, Tone::Good));
    a.lat_hist.push(Some(170 * MS));
    a.lat_hist.push(None);
    a.lat_hist.push(Some(180 * MS));
    a.primaries[0].last_value = Some(300 * MS);
    let c = draw_latency(&a);
    assert_eq!((c.y_max_ms, c.warn, c.span), (220, Some(200 * MS), 3));
    assert_eq!(c.runs, vec![vec![(0, 170 * MS)], vec![(2, 180 * MS)]]);
    assert_eq!(c.tone, Tone::Warn);
    a.primaries[0].last_value = Some(501 * MS);
    assert_eq!(draw_latency(&a).tone, Tone::Bad);
    let (zero, half, all) = axis_labels(c.y_max_ms);
    assert_eq!((zero.as_str(), half.as_str(), all.as_str()), ("0", "110", "220"));
}

#[test]
fn jitter_chart() {
    let mut a = app();
    a.jit_hist.push(Some(100 * MS));
    a.primaries[0].jitter_ring.push(Some(61 * MS));
    let c = draw_jitter(&a);
    assert_eq!(c.title, "Jitter  pooled  cur 61.0 ms  (median of 2 targets)  ◐ elevated");
    assert_eq!((c.y_max_ms, c.warn, c.tone), (130, Some(60 * MS), Tone::Warn));
    a.primaries[0].jitter_ring.push(Some(121 * MS));
    assert!(draw_jitter(&a).title.ends_with("  ⚠ HIGH"));
    a.primaries[0].jitter_ring.push(Some(60 * MS));
    assert!(draw_jitter(&a).title.ends_with("targets)"));
}

#[test]
fn header_and_footer() {
    let mut a = app();
    let h = draw_header(&a);
    assert_eq!(
        text(&h.line),
        " ping_monitor  [cf:1.1.1.1:443, gg:8.8.8.8:443] dns 3×3 remind 30s  ● Online"
    );
    assert_eq!((h.percent, h.label.as_str(), h.tone), (100, "100/100", Tone::Good));
    a.state = LinkState::Down;
    let h = draw_header(&a);
    assert_eq!((h.percent, h.label.as_str(), h.tone), (0, "  0/100", Tone::Bad));
    assert_eq!(h.line[3].text, "○ Down");
    assert!(h.line[3].bold);
    assert_eq!(score_color(Ratio { num: 74_999, den: 1_000 }), Tone::Warn);
    assert_eq!(score_color(Ratio { num: 225, den: 3 }), Tone::Good);
    assert_eq!(score_color(Ratio { num: 119, den: 3 }), Tone::Bad);
    assert_eq!(
        text(&draw_footer(&a)),
        " [m] sound on   [r] reset   [e] export   [t] traceroute   [q] quit   \
         0 pings, 0 lost  cadence 1000ms"
    );
    a.muted = true;
    assert_eq!(draw_footer(&a)[3].text, "muted");
}

#[test]
fn insight_lines() {
    let mut a = app();
    for r in a.dns.cells.iter_mut() {
        for c in r.iter_mut() {
            c.last = Some(MS);
        }
    }
    let lines = draw_insights(&a, now(5));
    assert_eq!(lines.len(), 1);
    assert_eq!(
        text(&lines[0]),
        " link healthy · uptime 00:00:05 · score 100/100 · loss 0.0% → all metrics nominal"
    );
    assert_eq!(lines[0][0].tone, Tone::Good);
}

#[test]
fn loss_panel() {
    let mut a = app();
    for lost in [true, false, true] {
        a.primaries[0].loss_ring.push(lost);
    }
    a.primaries[1].loss_ring.push(true);
    a.primaries[0].total = 8;
    a.primaries[0].lost = 1;
    let v = draw_loss(&a, 5);
    assert_eq!(v.bars, vec![2, 0, 1]);
    assert_eq!(v.max, 2);
    assert_eq!(
        v.title,
        "Packet Loss  pooled  window 3 loss-events   3 targets/sample peak   \
         total 1 (12.50%)  ◐ loss"
    );
    a.primaries[0].lost = 5;
    assert!(draw_loss(&a, 5).title.ends_with("(62.50%)  ⚠ HIGH"));
}

#[test]
fn dns_panel() {
    let mut a = app();
    let v = draw_dns(&a);
    assert_eq!(v.title, "DNS Matrix  3×3  (warn 100ms / bad 400ms)  ⚠ ALL DNS FAILING");
    assert_eq!(text(&v.header), " resolver google cloudflare amazon row-avg");
    assert_eq!(text(&v.rows[0][4]), "  —  ");
    a.dns.cells[1][0].last = Some(100 * MS);
    a.dns.cells[1][1].last = Some(401 * MS);
    let v = draw_dns(&a);
    assert!(v.title.ends_with("  ⚠ SYSTEM DNS DOWN — alternates OK"));
    let row: Vec<String> = v.rows[1].iter().map(|c| text(c)).collect();
    // 250.5 ms, to even
    assert_eq!(row, vec![" cf", "◐ 100ms", "○ 401ms", "✗  fail", " 250ms"]);
    assert_eq!(v.rows[1][4][0].tone, Tone::Warn);
    a.dns.cells[0][0].last = Some(99 * MS);
    assert!(draw_dns(&a).title.ends_with("bad 400ms)"));
    assert_eq!(draw_dns(&a).rows[0][1][0].tone, Tone::Good);
}

#[test]
fn short_names() {
    assert_eq!(short_name("www.google.com"), "google");
    assert_eq!(short_name("example.org."), "example");
    assert_eq!(short_name("localhost"), "localhost");
    assert_eq!(short_name("..."), "");
}

#[test]
fn heatmap_panel() {
    let mut a = app();
    let slice = |peak: Option<u64>, count: u32, loss: u32| HistBucket {
        peak_rtt: peak.map(|p| p * MS),
        peak_primary: None,
        count,
        loss,
    };
    for b in [
        slice(None, 0, 0),
        slice(None, 2, 2),
        slice(Some(60), 2, 0),
        slice(Some(130), 2, 0),
        slice(Some(201), 2, 0),
        slice(Some(501), 2, 0),
        slice(Some(700), 2, 0),
        slice(Some(10), 2, 1),
    ] {
        a.hist.push_back(b);
    }
    let v = draw_heatmap(&a, area(20, 5));
    assert_eq!(
        v.title,
        "Heatmap (last 8 × 30s, pooled)  peak RTT per bucket, loss also red"
    );
    assert_eq!(v.rows, 3);
    assert_eq!(
        v.columns,
        vec![
            (Tone::Muted, 0),
            (Tone::Bad, 3),
            (Tone::Good, 1),
            (Tone::Accent, 1),
            (Tone::Warn, 2),
            (Tone::Bad, 3),
            (Tone::Bad, 3),
            (Tone::Bad, 1),
        ]
    );
    assert_eq!(draw_heatmap(&a, area(5, 5)).columns, v.columns[5..].to_vec());
    assert!(draw_heatmap(&a, area(3, 5)).columns.is_empty());
}

#[test]
fn target_panel() {
    let mut a = app();
    a.primaries[0].last_value = Some(12_600_000);
    a.primaries[0].stat.add(12_600_000);
    a.primaries[0].total = 8;
    a.primaries[0].lost = 1;
    a.primaries[1].state = LinkState::Down;
    let v = draw_targets(&a, now(0));
    assert_eq!(v.title, "Targets  2 consensus members");
    let row: Vec<&str> = v.rows[0].iter().map(|s| s.text.as_str()).collect();
    assert_eq!(
        row,
        vec![
            " ●  cf    ",
            "1.1.1.1        ",
            "● Online",
            "cur 13 ms     ",
            "avg 13    ",
            "loss  12.5%  1/8",
            "",
        ]
    );
    assert_eq!(v.rows[0][5].tone, Tone::Warn);
    assert_eq!(v.rows[1][3].text, "cur timeout   ");
    assert_eq!(v.rows[1][4].text, "avg —     ");
    a.state = LinkState::Degraded;
    a.recovery.resume(now(0));
    assert_eq!(draw_targets(&a, now(4)).rows[1][6].text, "recover in 11s");
    assert_eq!(draw_targets(&a, now(40)).rows[1][6].text, "recover in 0s");
}

#[test]
fn extras_panel() {
    let mut a = app();
    a.add_extra("gw", "192.168.1.1", 80);
    assert_eq!(
        text(&draw_extras(&a)[0]),
        " gw         192.168.1.1 ● Online   cur    ---    loss 0.0%  0/0"
    );
    a.extras[0].last = Some(2_500_000);
    a.extras[0].total = 3;
    a.extras[0].lost = 1;
    let lines = draw_extras(&a);
    assert!(text(&lines[0]).ends_with("   cur    2.5 ms  loss 33.3%  1/3"));
    assert_eq!(lines[0][4].tone, Tone::Bad);
}

#[test]
fn events_panel() {
    let mut a = app();
    a.log(Level::Info, "first".to_string(), 0);
    a.log(Level::Bad, "second".to_string(), 1_709_210_096_007);
    let v = draw_events(&a);
    assert_eq!(v.title, "Events (2/24, newest first)");
    assert_eq!(text(&v.lines[0]), " ✗ 29/02/24 12:34:56.007 second");
    assert_eq!(text(&v.lines[1]), " · 01/01/70 00:00:00.000 first");
    assert_eq!(v.lines[0][2].tone, Tone::Bad);
}

#[test]
fn stats_panel() {
    let mut a = app();
    a.best_uptime_secs = 3_661;
    a.worst_loss_burst = 4;
    a.peak_latency = 501 * MS;
    a.peak_jitter = 60 * MS;
    a.sess_up_ms = 949;
    a.sess_down_ms = 51;
    a.recoveries = 2;
    a.mttr_ms_total = 121_000;
    a.outages = 2;
    let lines = draw_stats(&a, area(120, 5), now(59));
    assert_eq!(lines.len(), 2);
    assert_eq!(
        text(&lines[0]),
        " best uptime 01:01:01    current up 00:00:59    worst burst 4    \
         peak lat 501 ms    peak jit 60 ms"
    );
    assert_eq!(
        text(&lines[1]),
        " up 94.9%    degraded 0.0%    down 5.1%    MTTR 00:01:00    recoveries 2    outages 2"
    );
    assert_eq!(lines[0][10].tone, Tone::Bad);
    assert_eq!(lines[0][13].tone, Tone::Good);
    assert_eq!(lines[1][1].tone, Tone::Warn);
    a.top_latency = vec![(501 * MS, 1_709_210_096_007), (20 * MS, 0)];
    let lines = draw_stats(&a, area(120, 5), now(59));
    assert_eq!(text(&lines[2]), " top lat 501ms@12:34  20ms@00:00    top jit ");
    assert_eq!(draw_stats(&a, area(99, 5), now(59)).len(), 2);
    assert_eq!(draw_stats(&a, area(120, 4), now(59)).len(), 2);
}
