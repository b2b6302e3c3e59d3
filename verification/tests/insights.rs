//! The diagnosis, rule by rule.
use ping_monitor::app::{App, Level};
use ping_monitor::config::Config;
use ping_monitor::insight::diagnose;
use ping_monitor::probe::ExtraProbe;
use ping_monitor::state::LinkState;
use ping_monitor::stats::Ring;
use ping_monitor::time::Instant;

const NOW: Instant = Instant { ns: 1_000_000_000_000_000 };
const UNIX_MS: u64 = 1_700_000_000_000;

fn ns(ms: f64) -> u64 {
    (ms * 1e6).round() as u64
}


fn base_app() -> App {
    let mut a = App::new(Config::default(), NOW, None, None);
    for (label, host) in [("cf", "1.1.1.1"), ("gg", "8.8.8.8"), ("q9", "9.9.9.9")] {
        a.add_primary(label, host, 443, NOW);
    }
    set_dns(&mut a, Some(30.0));
    a
}

fn set_dns(app: &mut App, ms: Option<f64>) {
    for row in app.dns.cells.iter_mut() {
        for c in row.iter_mut() {
            c.last = ms.map(ns);
        }
    }
}

fn add_extra(app: &mut App, state: LinkState) {
    app.extras.push(ExtraProbe {
        label: "gw".into(),
        host: "192.168.1.1".into(),
        port: 80,
        last: Some(ns(2.0)),
        state,
        total: 10,
        lost: 0,
        ring: Ring::new(30),
        consec_loss: 0,
        last_sample_at: None,
    });
}

fn all_down(app: &mut App) {
    for p in app.primaries.iter_mut() {
        p.state = LinkState::Down;
    }
    app.state = LinkState::Down;
}

#[test]
fn healthy_when_nothing_wrong() {
    let a = base_app();
    let out = diagnose(&a, NOW);
    assert_eq!(out.len(), 1);
    assert!(matches!(out[0].severity, Level::Good));
    assert!(out[0].cause.contains("healthy"));
}

#[test]
fn router_down_when_gateway_also_down() {
    let mut a = base_app();
    all_down(&mut a);
    add_extra(&mut a, LinkState::Down);
    let out = diagnose(&a, NOW);
    assert!(matches!(out[0].severity, Level::Bad));
    assert!(out[0].cause.contains("router"));
}

#[test]
fn isp_outage_when_lan_ok() {
    let mut a = base_app();
    all_down(&mut a);
    add_extra(&mut a, LinkState::Up);
    let out = diagnose(&a, NOW);
    assert!(out[0].cause.contains("upstream outage"));
    assert!(
        !out[0].evidence.contains("LAN OK"),
        "LAN OK overclaim removed"
    );
}

#[test]
fn isp_outage_skipped_when_wifi_weak() {
    let mut a = base_app();
    all_down(&mut a);
    add_extra(&mut a, LinkState::Up);
    a.set_wifi_rssi(Some(-80), UNIX_MS);
    let out = diagnose(&a, NOW);
    assert!(out[0].cause.contains("Wi-Fi"));
    assert!(matches!(out[0].severity, Level::Bad));
    assert!(!out.iter().any(|i| i.cause.contains("upstream outage")));
}

#[test]
fn wifi_weak_warns_on_degraded() {
    let mut a = base_app();
    a.state = LinkState::Degraded;
    a.set_wifi_rssi(Some(-80), UNIX_MS);
    let out = diagnose(&a, NOW);
    assert!(out[0].cause.contains("Wi-Fi"));
    assert!(matches!(out[0].severity, Level::Warn));
}

#[test]
fn upstream_congestion_on_degraded_latency() {
    let mut a = base_app();
    a.state = LinkState::Degraded;
    for p in a.primaries.iter_mut() {
        p.last_value = Some(ns(300.0));
    }
    let out = diagnose(&a, NOW);
    assert!(out[0].cause.contains("congestion"));
}

#[test]
fn packet_loss_early_warning() {
    let mut a = base_app();
    for p in a.primaries.iter_mut() {
        p.total = 10;
        p.lost = 3;
        p.last_value = Some(ns(20.0));
    }
    let out = diagnose(&a, NOW);
    assert!(out[0].cause.contains("packet loss"));
    assert!(matches!(out[0].severity, Level::Warn));
}

#[test]
fn jitter_high_detected() {
    let mut a = base_app();
    for p in a.primaries.iter_mut() {
        p.jitter_ring.push(Some(ns(100.0)));
        p.last_value = Some(ns(20.0));
    }
    let out = diagnose(&a, NOW);
    assert!(out[0].cause.contains("jitter"));
}

#[test]
fn latency_creep_early_warning() {
    let mut a = base_app();
    for p in a.primaries.iter_mut() {
        p.last_value = Some(ns(300.0));
    }
    let out = diagnose(&a, NOW);
    assert!(out[0].cause.contains("latency elevated"));
}

#[test]
fn sys_dns_dead_with_alternates_ok() {
    let mut a = base_app();
    for c in a.dns.cells[0].iter_mut() {
        c.last = None;
    }
    let out = diagnose(&a, NOW);
    assert!(out[0].cause.contains("system DNS"));
    assert!(matches!(out[0].severity, Level::Bad));
}

#[test]
fn dns_blocked_when_pings_ok() {
    let mut a = base_app();
    set_dns(&mut a, None);
    let out = diagnose(&a, NOW);
    assert!(out[0].cause.contains("all DNS failing"));
}

#[test]
fn domain_down_single_column() {
    let mut a = base_app();
    for row in a.dns.cells.iter_mut() {
        row[0].last = None;
    }
    let out = diagnose(&a, NOW);
    assert!(out[0].cause.contains("www.google.com"));
    assert!(matches!(out[0].severity, Level::Info));
}

#[test]
fn resolver_down_single_row() {
    let mut a = base_app();
    for c in a.dns.cells[1].iter_mut() {
        c.last = None;
    }
    let out = diagnose(&a, NOW);
    assert!(out[0].cause.contains("resolver cf unreachable"));
}

#[test]
fn dns_slow_system_resolver() {
    let mut a = base_app();
    for c in a.dns.cells[0].iter_mut() {
        c.last = Some(ns(250.0));
    }
    let out = diagnose(&a, NOW);
    assert!(out[0].cause.contains("slow DNS"));
}

#[test]
fn single_target_bad_info() {
    let mut a = base_app();
    a.primaries[1].state = LinkState::Degraded;
    let out = diagnose(&a, NOW);
    assert!(out[0].cause.contains("gg"));
    assert!(matches!(out[0].severity, Level::Info));
}

#[test]
fn diagnose_caps_at_three_with_priority_order() {
    let mut a = base_app();
    // sys DNS dead + high jitter + elevated latency, all at once
    for c in a.dns.cells[0].iter_mut() {
        c.last = None;
    }
    for p in a.primaries.iter_mut() {
        p.jitter_ring.push(Some(ns(100.0)));
        p.last_value = Some(ns(300.0));
    }
    let out = diagnose(&a, NOW);
    assert_eq!(out.len(), 3);
    assert!(out[0].cause.contains("system DNS"));
    assert!(out[1].cause.contains("jitter"));
    assert!(out[2].cause.contains("latency elevated"));
}

#[test]
fn jitter_high_skips_when_none() {
    let mut a = base_app();
    a.state = LinkState::Degraded;
    // All jitter rings empty → jitter_view() returns None.
    let out = diagnose(&a, NOW);
    assert!(
        !out.iter().any(|i| i.cause.contains("jitter")),
        "jitter insight should not appear when jitter_view is None"
    );
}
