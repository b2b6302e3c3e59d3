//! Messages, keys, settings and time.
use ping_monitor::app::{App, Level};
use ping_monitor::config::Config;
use ping_monitor::control::{
    draw_is_due, emit, gateway_epoch, ping_pause_ms, Effects, Key, Msg,
};
use ping_monitor::detector::{DetectorMode, ProbeWeights, Weights};
use ping_monitor::net::{lookup_answer, name_server, PingSample, Reply, TcpPinger};
use ping_monitor::round::{PrimaryBatch, RoundResult};
use ping_monitor::settings::{default_primaries, parse_names, parse_probes, Settings};
use ping_monitor::sound::{AudioState, SoundEvent};
use ping_monitor::state::LinkState;
use ping_monitor::time::{Clock, Duration, Instant};

const SEC: u64 = 1_000_000_000;

fn clock(secs: u64) -> Clock {
    Clock { now: Instant { ns: (1_000_000 + secs) * SEC }, unix_ms: 1_700_000_000_000 + secs * 1000 }
}

fn none() -> Settings<'static> {
    Settings { mode: None, prealert: None, names: None, targets: None, extras: None }
}

fn app() -> App {
    App::start(Config::default(), clock(0), none())
}

fn no_weights() -> ProbeWeights {
    let w = Weights { short: 0, long: 0 };
    ProbeWeights { latency: w, jitter: w }
}

fn batch(a: &App, rtts: &[Option<u64>]) -> PrimaryBatch {
    PrimaryBatch {
        round_id: 0,
        reset_epoch: a.reset_epoch,
        results: rtts.iter().map(|r| RoundResult::Observed(PingSample { rtt_ns: *r })).collect(),
        weights: Vec::new(),
        started_at: clock(0).now,
    }
}

fn quiet(e: &Effects) -> bool {
    !e.quit
        && e.play.is_none()
        && e.notify.is_none()
        && e.export.is_none()
        && !e.by_hand
        && e.trace.is_none()
}

/// Rounds, a second apart, until the connection is down. Returns the next second.
fn take_down(a: &mut App, from: u64) -> u64 {
    let mut t = from;
    while a.state != LinkState::Down {
        let b = batch(a, &[None, None, None]);
        a.handle(Msg::Round(b), clock(t));
        t += 1;
        assert!(t < from + 100);
    }
    t
}

#[test]
fn msg_round_trip() {
    assert_eq!(2 + 2, 4);
}

#[test]
fn start_introduces_targets_resolvers_and_keys() {
    let a = app();
    let texts: Vec<&str> = a.events.iter().map(|e| e.msg.as_str()).collect();
    assert_eq!(
        texts,
        vec![
            "primary targets: 3",
            "  [cf] 1.1.1.1:443  (consensus member)",
            "  [gg] 8.8.8.8:443  (consensus member)",
            "  [q9] 9.9.9.9:443  (consensus member)",
            "dns matrix: 3 resolvers × 3 domains  timeout 1500ms",
            "keys: m/mute r/reset e/export t/traceroute q/quit",
        ]
    );
    assert_eq!(a.primaries.len(), 3);
    assert_eq!(a.dns.resolvers[0].0, "sys");
    assert_eq!(a.dns.resolvers[1].1, Some("1.1.1.1".to_string()));
    assert_eq!(a.dns.cells.len(), 3);
    assert_eq!(a.interval_ms, 1_000);
}

#[test]
fn start_follows_the_settings() {
    let s = Settings {
        mode: Some("hybrid"),
        prealert: Some("1"),
        names: Some(" example.org , ,example.net"),
        targets: Some("a: 10.0.0.1 :80,broken,b:10.0.0.2:notaport,c:h:70000,d:h:+7"),
        extras: Some("gw:192.168.1.1:80"),
    };
    let a = App::start(Config::default(), clock(0), s);
    assert_eq!(a.detector_mode, DetectorMode::Hybrid);
    assert!(a.prealert_enabled);
    assert_eq!(a.dns.names, vec!["example.org".to_string(), "example.net".to_string()]);
    assert_eq!(a.dns.cells[2].len(), 2);
    assert_eq!(a.primaries.len(), 2);
    assert_eq!(a.primaries[0].host, "10.0.0.1");
    assert_eq!(a.primaries[0].port, 80);
    assert_eq!(a.primaries[1].label, "d");
    assert_eq!(a.primaries[1].port, 7);
    assert_eq!(a.extras.len(), 1);
    assert_eq!(a.events[0].msg, "extras: 1 probe(s)");
}

#[test]
fn prealert_needs_a_one() {
    let mut s = none();
    s.prealert = Some("true");
    assert!(!App::start(Config::default(), clock(0), s).prealert_enabled);
}

#[test]
fn names_that_are_all_empty_leave_the_default() {
    let mut s = none();
    s.names = Some(" , ,");
    let a = App::start(Config::default(), clock(0), s);
    assert_eq!(a.dns.names.len(), 3);
    assert!(parse_names("").is_empty());
}

#[test]
fn lists_of_probes() {
    assert!(parse_probes("").is_empty());
    assert!(parse_probes("a:b").is_empty());
    // the third part is the rest: a second colon in it spoils the port
    assert!(parse_probes("a:b:80:90").is_empty());
    let p = parse_probes("x:y:0,z::65535");
    assert_eq!(p.len(), 2);
    assert_eq!((p[0].label.as_str(), p[0].host.as_str(), p[0].port), ("x", "y", 0));
    assert_eq!((p[1].label.as_str(), p[1].host.as_str(), p[1].port), ("z", "", 65_535));
    assert_eq!(default_primaries().len(), 3);
}

#[test]
fn numbers_of_the_environment() {
    let c = Config::from_settings(Some("800"), Some("45"));
    assert_eq!(c.timeout_ms, 800);
    assert_eq!(c.reminder_interval, Duration::from_secs(45));
    let d = Config::from_settings(Some("8x"), Some(""));
    assert_eq!(d.timeout_ms, 1_500);
    assert_eq!(d.reminder_interval, Duration::from_secs(30));
    let mut e = Config::from_settings(Some("18446744073709551615"), None);
    assert_eq!(e.timeout_ms, u64::MAX);
    assert_eq!(e.validate(), vec!["timeout_ms clamped to [50,10000]"]);
    assert_eq!(e.timeout_ms, 10_000);
    let f = Config::from_settings(Some("18446744073709551616"), None);
    assert_eq!(f.timeout_ms, 1_500);
}

#[test]
fn validation_settles() {
    let mut c = Config::from_settings(Some("1"), Some("1"));
    assert_eq!(c.validate().len(), 2);
    assert!(c.validate().is_empty());
}

#[test]
fn a_round_in_trouble_is_told_of() {
    let mut a = app();
    let mut heard: Vec<(SoundEvent, &'static str)> = Vec::new();
    for t in 0..40 {
        let b = batch(&a, &[None, None, None]);
        let msg = Msg::Round(b);
        assert!(a.can_handle(&msg, clock(t)));
        let e = a.handle(msg, clock(t));
        if let Some(s) = e.play {
            let row = e.export.unwrap();
            assert_eq!(row.state, a.state);
            assert_eq!(row.loss_pct.num, 100 * row.loss_pct.den);
            heard.push((s, e.notify.unwrap()));
        }
    }
    // five samples are needed before a verdict, three before it takes effect
    assert_eq!(heard, vec![(SoundEvent::Down, "connection DOWN")]);
    assert_eq!(a.state, LinkState::Down);
    assert_eq!(a.interval_ms, 500);
    assert_eq!(a.gw_cadence_ms, 1_000);
    assert_eq!(a.outages, 1);
    let last = a.events.iter().find(|e| e.level == Level::Bad).unwrap();
    assert_eq!(
        last.msg,
        "connection DOWN  targets 0/3 up  loss 100%  (0/0/3)  cause: unknown  ♪ down"
    );
}

#[test]
fn mute_is_silent_and_twice_is_back() {
    let mut a = app();
    let e = a.on_key(Key::Char('m'), clock(0));
    assert!(quiet(&e));
    assert!(a.muted);
    assert_eq!(a.events.back().unwrap().msg, "sound muted");
    for t in 0..40 {
        let b = batch(&a, &[None, None, None]);
        assert!(a.handle(Msg::Round(b), clock(t)).play.is_none());
    }
    assert_eq!(a.state, LinkState::Down);
    a.on_key(Key::Char('m'), clock(41));
    assert!(!a.muted);
    assert_eq!(a.events.back().unwrap().msg, "sound on");
    assert_eq!(emit(Some(SoundEvent::Loss), true), None);
    assert_eq!(emit(Some(SoundEvent::Loss), false), Some(SoundEvent::Loss));
}

#[test]
fn the_mute_switch() {
    let mut s = AudioState::default();
    assert!(!s.muted());
    s.set_muted(true);
    assert!(s.muted());
}

#[test]
fn keys_quit_export_trace_and_reset() {
    let mut a = app();
    assert!(a.on_key(Key::Char('q'), clock(0)).quit);
    assert!(a.on_key(Key::Esc, clock(0)).quit);
    assert!(quiet(&a.on_key(Key::Other, clock(0))));
    assert!(quiet(&a.on_key(Key::Char('x'), clock(0))));
    let e = a.on_key(Key::Char('e'), clock(7));
    assert!(e.by_hand);
    assert_eq!(e.export.unwrap().elapsed_s, 7);
    a.primaries[0].state = LinkState::Down;
    let e = a.on_key(Key::Char('t'), clock(8));
    assert_eq!(e.trace, Some("8.8.8.8".to_string()));
    assert_eq!(a.events.back().unwrap().msg, "traceroute → 8.8.8.8 …");
    let epoch = a.reset_epoch;
    assert!(quiet(&a.on_key(Key::Char('r'), clock(9))));
    assert_eq!(a.reset_epoch, epoch + 1);
    assert_eq!(a.primaries[0].state, LinkState::Up);
    assert_eq!(a.events.back().unwrap().msg, "stats reset");
}

#[test]
fn traceroute_without_an_up_target() {
    let mut a = app();
    for p in a.primaries.iter_mut() {
        p.state = LinkState::Down;
    }
    assert_eq!(a.on_key(Key::Char('t'), clock(0)).trace, Some("1.1.1.1".to_string()));
    let mut b = App::new(Config::default(), clock(0).now, None, None);
    assert_eq!(b.on_key(Key::Char('t'), clock(0)).trace, Some("1.1.1.1".to_string()));
}

#[test]
fn exports_are_reported() {
    let mut a = app();
    a.report_export(Ok("/x/1.tsv".to_string()), 5);
    assert_eq!(a.last_export, Some("/x/1.tsv".to_string()));
    assert_eq!(a.events.back().unwrap().msg, "exported → /x/1.tsv");
    a.report_export(Err("disk full".to_string()), 6);
    assert_eq!(a.last_export, Some("/x/1.tsv".to_string()));
    assert_eq!(a.events.back().unwrap().msg, "export failed: disk full");
    assert_eq!(a.events.back().unwrap().level, Level::Bad);
}

#[test]
fn reminders_keep_their_distance() {
    let mut a = app();
    assert!(a.on_tick(clock(0)).play.is_none());
    let t = take_down(&mut a, 0);
    let turned = t - 1;
    assert!(a.on_tick(clock(turned + 29)).play.is_none());
    assert_eq!(a.on_tick(clock(turned + 30)).play, Some(SoundEvent::Down));
    assert_eq!(a.events.back().unwrap().msg, "still down  ♪");
    assert!(a.on_tick(clock(turned + 59)).play.is_none());
    a.muted = true;
    assert!(a.on_tick(clock(turned + 60)).play.is_none());
    assert_eq!(a.events.back().unwrap().msg, "still down");
    a.muted = false;
    a.state = LinkState::Degraded;
    assert_eq!(a.on_tick(clock(turned + 90)).play, Some(SoundEvent::Shimmer));
    assert_eq!(a.events.back().unwrap().msg, "still degraded  ♪");
}

#[test]
fn other_messages() {
    let mut a = app();
    assert!(a.handle(Msg::Quit, clock(0)).quit);
    assert!(quiet(&a.handle(Msg::TraceLine(" 1  10.0.0.1".to_string()), clock(1))));
    assert_eq!(a.events.back().unwrap().msg, " 1  10.0.0.1");
    a.handle(Msg::TraceDone, clock(2));
    assert_eq!(a.events.back().unwrap().msg, "traceroute finished");
    a.handle(Msg::WifiRssi(Some(-60)), clock(3));
    assert_eq!(a.events.back().unwrap().msg, "wifi up  -60 dBm (good)");
    a.handle(Msg::Dns(1, 2, Some(450_000_000)), clock(4));
    assert_eq!(a.events.back().unwrap().msg, "[DNS cf→www.amazon.com] slow: 450 ms");
    assert_eq!(a.dns.cells[1][2].state, LinkState::Down);
    a.handle(Msg::Ping(0, PingSample { rtt_ns: Some(5) }, no_weights()), clock(5));
    assert_eq!(a.primaries[0].total, 1);
    assert!(quiet(&a.handle(Msg::ExtraPing(9, PingSample { rtt_ns: None }), clock(6))));
}

#[test]
fn gateway_is_followed_and_stale_probes_are_dropped() {
    let mut a = app();
    a.handle(Msg::GatewayFound("192.168.1.1".to_string()), clock(0));
    assert_eq!(a.events.back().unwrap().msg, "gateway detected  192.168.1.1");
    let n = a.events.len();
    a.handle(Msg::GatewayFound("192.168.1.1".to_string()), clock(1));
    assert_eq!(a.events.len(), n);
    a.handle(Msg::GatewayPing(0, 1, 1, PingSample { rtt_ns: Some(2_000_000) }), clock(2));
    assert_eq!(a.extras[0].total, 1);
    a.handle(Msg::GatewayFound("10.0.0.1".to_string()), clock(3));
    assert_eq!(a.events.back().unwrap().msg, "gateway changed  192.168.1.1 → 10.0.0.1");
    assert_eq!(a.extras[0].total, 0);
    a.handle(Msg::GatewayPing(0, 1, 2, PingSample { rtt_ns: Some(2_000_000) }), clock(4));
    assert_eq!(a.extras[0].total, 0);
    assert_eq!(gateway_epoch(1, "192.168.1.1", "10.0.0.1"), 2);
    assert_eq!(gateway_epoch(2, "10.0.0.1", "10.0.0.1"), 2);
}

#[test]
fn schedules() {
    assert_eq!(ping_pause_ms(0), 50);
    assert_eq!(ping_pause_ms(1_000), 1_000);
    let a = app();
    // 5000 ms over nine cells
    assert_eq!(a.dns_stagger_ms(0, 0), 0);
    assert_eq!(a.dns_stagger_ms(1, 2), 5 * 555);
    assert!(!draw_is_due(clock(0).now, Instant { ns: clock(0).now.ns + 79_999_999 }));
    assert!(draw_is_due(clock(0).now, Instant { ns: clock(0).now.ns + 80_000_000 }));
}

#[test]
fn a_refused_connection_is_an_answer() {
    assert_eq!(PingSample::of(Reply::Connected, 7).rtt_ns, Some(7));
    assert_eq!(PingSample::of(Reply::Refused, 8).rtt_ns, Some(8));
    assert_eq!(PingSample::of(Reply::Reset, 9).rtt_ns, Some(9));
    assert_eq!(PingSample::of(Reply::Failed, 10).rtt_ns, None);
}

#[test]
fn full_counters_are_noticed() {
    let mut a = app();
    a.primaries[1].total = u64::MAX;
    assert!(!a.can_take_round(3, clock(0).now));
    a.primaries[1].total = 0;
    assert!(a.can_take_round(3, clock(0).now));
    a.outages = u32::MAX;
    assert!(!a.can_take_round(3, clock(0).now));
    a.outages = 0;
    a.sess_up_ms = u64::MAX;
    assert!(a.can_accrue(clock(0).now));
    assert!(!a.can_accrue(clock(1).now));
    a.add_extra("x", "y", 1);
    a.extras[0].consec_loss = u32::MAX;
    assert!(!a.can_take_extra(0));
    assert!(a.can_take_extra(1));
    a.dns.cells[0][0].stat.count = u64::MAX;
    assert!(!a.can_take_answer(0, 0));
    assert!(a.can_take_answer(0, 1));
}

#[test]
fn addresses_and_answers() {
    let p = TcpPinger { addr: "10.0.0.1".to_string(), port: 443, timeout_ms: 5 };
    assert_eq!(p.target(), "10.0.0.1:443");
    assert_eq!(name_server("1.1.1.1"), "1.1.1.1:53");
    assert_eq!(lookup_answer(0, 9), None);
    assert_eq!(lookup_answer(2, 9), Some(9));
}
