//! The loop of the program, as decisions: what a message, a key or the passing of
//! time does to the monitor, and what it asks of the outside.
use vstd::prelude::*;
use crate::app::{opt_str, App, AppV, EventV, Level};
use crate::detector::ProbeWeights;
use crate::export::ExportRow;
use crate::intake::{GatewayUpdate, UpdateV};
use crate::net::PingSample;
use crate::probe::ProbeV;
use crate::round::{is_outcome, is_round_outcome, Outcome, PrimaryBatch};
use crate::sound::SoundEvent;
use crate::state::LinkState;
use crate::stats::opt_text;
use crate::text::{chars_of, spells};
use crate::time::{elapsed_ns, Clock, Instant};

verus! {

/// The screen is drawn at most this often.
pub const DRAW_PERIOD_NS: u64 = 80_000_000;

/// What the probes and tasks report.
pub enum Msg {
    Ping(usize, PingSample, ProbeWeights),
    Round(PrimaryBatch),
    Dns(usize, usize, Option<u64>),
    ExtraPing(usize, PingSample),
    GatewayPing(usize, u64, u64, PingSample),
    GatewayFound(String),
    TraceLine(String),
    TraceDone,
    WifiRssi(Option<i16>),
    Quit,
}

/// A key press.
#[derive(Clone, Copy, PartialEq, Eq, Structural, Debug)]
pub enum Key {
    Char(char),
    Esc,
    Other,
}

/// What is asked of the outside. `export` is a line for the session file, which
/// the user is told of if `by_hand`; `trace` is a host to trace the way to.
pub struct Effects {
    pub quit: bool,
    pub play: Option<SoundEvent>,
    pub notify: Option<&'static str>,
    pub export: Option<ExportRow>,
    pub by_hand: bool,
    pub trace: Option<String>,
}

/// Nothing is asked.
pub open spec fn is_quiet(e: Effects) -> bool {
    !e.quit && e.play is None && e.notify is None && e.export is None && !e.by_hand
        && e.trace is None
}

fn quiet() -> (e: Effects)
    ensures
        is_quiet(e),
{
    Effects { quit: false, play: None, notify: None, export: None, by_hand: false, trace: None }
}

/// A cue is played unless the sound is off.
pub open spec fn audible(sound: Option<SoundEvent>, muted: bool) -> Option<SoundEvent> {
    if muted {
        None
    } else {
        sound
    }
}

pub fn emit(sound: Option<SoundEvent>, muted: bool) -> (r: Option<SoundEvent>)
    ensures
        r == audible(sound, muted),
{
    if muted {
        None
    } else {
        sound
    }
}

/// The effects of a decided round.
pub open spec fn carries(e: Effects, o: Outcome, muted: bool) -> bool {
    &&& e.play == audible(o.sound, muted)
    &&& opt_str(e.notify) == opt_str(o.notify)
    &&& e.export == o.export
    &&& !e.quit && !e.by_hand && e.trace is None
}

fn carried(o: Outcome, muted: bool) -> (e: Effects)
    ensures
        carries(e, o, muted),
{
    Effects {
        quit: false,
        play: emit(o.sound, muted),
        notify: o.notify,
        export: o.export,
        by_hand: false,
        trace: None,
    }
}

// ------------------------------------------------------------------ messages

/// What a detected gateway is logged as.
pub open spec fn gateway_entry(u: UpdateV, gw: Seq<char>) -> Option<Seq<char>> {
    match u {
        UpdateV::Unchanged => None,
        UpdateV::Updated { was, now } => Some("gateway changed  "@ + was + " → "@ + now),
        UpdateV::Added { idx } => Some("gateway detected  "@ + gw),
    }
}

impl AppV {
    /// The monitor after a gateway has been detected, with an entry for a change.
    pub open spec fn with_found_gateway(self, gw: Seq<char>, unix_ms: u64) -> AppV {
        let a = self.with_gateway(gw);
        match gateway_entry(self.gateway_report(gw), gw) {
            Some(text) => a.logged(unix_ms, Level::Info, text),
            None => a,
        }
    }

    /// The monitor after one sample of one target, decided at once.
    pub open spec fn after_ping(
        self,
        idx: int,
        rtt: Option<u64>,
        w: ProbeWeights,
        clock: Clock,
    ) -> AppV {
        self.ingested(idx, rtt, clock.now, clock.unix_ms, w).with_medians().finalized(
            clock.now,
            clock,
        ).unmarked()
    }

    /// The monitor after a message.
    pub open spec fn after_msg(self, msg: Msg, clock: Clock) -> AppV {
        match msg {
            Msg::Ping(i, s, w) => self.after_ping(i as int, s.rtt_ns, w, clock),
            Msg::Round(b) => self.after_round(b, clock.now, clock),
            Msg::Dns(r, d, ns) => self.with_answer(r as int, d as int, ns, clock.unix_ms),
            Msg::ExtraPing(i, s) => self.with_extra(i as int, s.rtt_ns, clock),
            Msg::GatewayPing(i, sent, current, s) => if sent == current {
                self.with_extra(i as int, s.rtt_ns, clock)
            } else {
                self
            },
            Msg::GatewayFound(gw) => self.with_found_gateway(gw@, clock.unix_ms),
            Msg::TraceLine(line) => self.logged(clock.unix_ms, Level::Info, line@),
            Msg::TraceDone => self.logged(clock.unix_ms, Level::Info, "traceroute finished"@),
            Msg::WifiRssi(v) => self.with_wifi(v, clock.unix_ms),
            Msg::Quit => self,
        }
    }

    /// The counters have room for a message.
    pub open spec fn takes(self, msg: Msg, clock: Clock) -> bool {
        match msg {
            Msg::Ping(i, s, w) => self.has_room(1, clock.now),
            Msg::Round(b) => self.takes_round(b, clock.now),
            Msg::Dns(r, d, ns) => self.has_cell(r as int, d as int)
                ==> self.dns.cells[r as int][d as int].stat.count < u64::MAX,
            Msg::ExtraPing(i, s) => i < self.extras.len() ==> self.extras[i as int].has_room(),
            Msg::GatewayPing(i, sent, current, s) => i < self.extras.len()
                ==> self.extras[i as int].has_room(),
            _ => true,
        }
    }
}

/// The effects of a message.
pub open spec fn is_effect(e: Effects, before: AppV, msg: Msg, clock: Clock) -> bool {
    match msg {
        Msg::Ping(i, s, w) => exists|o: Outcome| #[trigger]
            carries(e, o, before.muted) && is_outcome(
                o,
                before.ingested(i as int, s.rtt_ns, clock.now, clock.unix_ms, w).with_medians(),
                clock.now,
                clock,
            ),
        Msg::Round(b) => exists|o: Outcome| #[trigger]
            carries(e, o, before.muted) && is_round_outcome(o, before, b, clock.now, clock),
        Msg::Quit => e.quit && is_quiet(Effects { quit: false, ..e }),
        _ => is_quiet(e),
    }
}

impl App {
    /// Whether the counters have room for a message.
    pub fn can_handle(&self, msg: &Msg, clock: Clock) -> (r: bool)
        requires
            self.wf(),
        ensures
            r == self@.takes(*msg, clock),
    {
        match msg {
            Msg::Ping(_i, _s, _w) => self.can_take_round(1, clock.now),
            Msg::Round(b) => b.reset_epoch != self.reset_epoch || self.can_take_round(
                b.results.len(),
                clock.now,
            ),
            Msg::Dns(r, d, _ns) => self.can_take_answer(*r, *d),
            Msg::ExtraPing(i, _s) => self.can_take_extra(*i),
            Msg::GatewayPing(i, _sent, _current, _s) => self.can_take_extra(*i),
            _ => true,
        }
    }

    fn gateway_found(&mut self, gw: &String, unix_ms: u64)
        requires
            old(self).wf(),
        ensures
            final(self).wf(),
            final(self)@ == old(self)@.with_found_gateway(gw@, unix_ms),
    {
        match self.apply_gateway_update(gw.as_str()) {
            GatewayUpdate::Unchanged => {},
            GatewayUpdate::Updated { old: was, new: now } => {
                let mut msg = String::from_str("gateway changed  ");
                msg.append(was.as_str());
                msg.append(" → ");
                msg.append(now.as_str());
                self.log(Level::Info, msg, unix_ms);
            },
            GatewayUpdate::Added { idx: _ } => {
                let mut msg = String::from_str("gateway detected  ");
                msg.append(gw.as_str());
                self.log(Level::Info, msg, unix_ms);
            },
        }
    }

    /// Takes in a message.
    pub fn handle(&mut self, msg: Msg, clock: Clock) -> (e: Effects)
        requires
            old(self).wf(),
            old(self)@.takes(msg, clock),
        ensures
            final(self).wf(),
            final(self)@ == old(self)@.after_msg(msg, clock),
            is_effect(e, old(self)@, msg, clock),
    {
        let muted = self.muted;
        match msg {
            Msg::Ping(i, s, w) => {
                let o = self.ingest_ping(i, s, clock, w);
                let e = carried(o, muted);
                proof {
                    assert(carries(e, o, muted));
                }
                e
            },
            Msg::Round(b) => {
                let o = self.ingest_generation(b, clock);
                let e = carried(o, muted);
                proof {
                    assert(carries(e, o, muted));
                }
                e
            },
            Msg::Dns(r, d, ns) => {
                let _ = self.ingest_dns(r, d, ns, clock.unix_ms);
                quiet()
            },
            Msg::ExtraPing(i, s) => {
                self.ingest_extra(i, s, clock);
                quiet()
            },
            Msg::GatewayPing(i, sent, current, s) => {
                self.ingest_gateway_probe(i, sent, current, s, clock);
                quiet()
            },
            Msg::GatewayFound(gw) => {
                self.gateway_found(&gw, clock.unix_ms);
                quiet()
            },
            Msg::TraceLine(line) => {
                self.log(Level::Info, line, clock.unix_ms);
                quiet()
            },
            Msg::TraceDone => {
                self.log(Level::Info, String::from_str("traceroute finished"), clock.unix_ms);
                quiet()
            },
            Msg::WifiRssi(v) => {
                self.set_wifi_rssi(v, clock.unix_ms);
                quiet()
            },
            Msg::Quit => {
                let mut e = quiet();
                e.quit = true;
                e
            },
        }
    }
}

// ---------------------------------------------------------------------- time

impl AppV {
    /// What a reminder says; a note sign stands for its cue.
    pub open spec fn reminder_text(self) -> Seq<char> {
        (if self.state == LinkState::Down {
            "still down"@
        } else {
            "still degraded"@
        }) + (if self.muted {
            ""@
        } else {
            "  ♪"@
        })
    }

    pub open spec fn reminder_level(self) -> Level {
        if self.state == LinkState::Down {
            Level::Bad
        } else {
            Level::Warn
        }
    }

    /// The monitor after a reminder, if one was due.
    pub open spec fn reminded(self, clock: Clock) -> AppV {
        if self.reminder_is_due(clock.now) {
            AppV { last_reminder: Some(clock.now), ..self }.logged(
                clock.unix_ms,
                self.reminder_level(),
                self.reminder_text(),
            )
        } else {
            self
        }
    }

    /// The cue of a reminder.
    pub open spec fn reminder_cue(self, now: Instant) -> Option<SoundEvent> {
        if !self.reminder_is_due(now) || self.muted {
            None
        } else if self.state == LinkState::Down {
            Some(SoundEvent::Down)
        } else {
            Some(SoundEvent::Shimmer)
        }
    }
}

impl App {
    /// Lets time pass: trouble that lasts is reminded of.
    pub fn on_tick(&mut self, clock: Clock) -> (e: Effects)
        requires
            old(self).wf(),
        ensures
            final(self).wf(),
            final(self)@ == old(self)@.reminded(clock),
            e.play == old(self)@.reminder_cue(clock.now),
            is_quiet(Effects { play: None, ..e }),
    {
        let mut e = quiet();
        if let Some((sound, level, text)) = self.tick_reminder(clock.now) {
            let mut msg = String::from_str(text);
            msg.append(
                if self.muted {
                    ""
                } else {
                    "  ♪"
                },
            );
            self.log(level, msg, clock.unix_ms);
            e.play = emit(Some(sound), self.muted);
        }
        e
    }
}

/// The screen is due to be drawn again.
pub fn draw_is_due(last_draw: Instant, now: Instant) -> (r: bool)
    ensures
        r == (elapsed_ns(last_draw, now) >= DRAW_PERIOD_NS),
{
    now.nanos_since(last_draw) >= DRAW_PERIOD_NS
}

// ---------------------------------------------------------------------- keys

/// The place of the first target that is up.
pub open spec fn first_up(ps: Seq<ProbeV>) -> Option<int>
    decreases ps.len(),
{
    if ps.len() == 0 {
        None
    } else {
        match first_up(ps.drop_last()) {
            Some(i) => Some(i),
            None => if ps.last().state == LinkState::Up {
                Some(ps.len() - 1)
            } else {
                None
            },
        }
    }
}

impl AppV {
    /// Where a traceroute goes: to the first target that is up, else to the first
    /// of all.
    pub open spec fn trace_target(self) -> Seq<char> {
        match first_up(self.primaries) {
            Some(i) => self.primaries[i].host,
            None => if self.primaries.len() > 0 {
                self.primaries[0].host
            } else {
                "1.1.1.1"@
            },
        }
    }

    /// The monitor after a key press.
    pub open spec fn after_key(self, key: Key, clock: Clock) -> AppV {
        if key == Key::Char('m') {
            AppV { muted: !self.muted, ..self }.logged(
                clock.unix_ms,
                Level::Info,
                if self.muted {
                    "sound on"@
                } else {
                    "sound muted"@
                },
            )
        } else if key == Key::Char('r') {
            self.restarted(clock)
        } else if key == Key::Char('t') {
            self.logged(
                clock.unix_ms,
                Level::Info,
                "traceroute → "@ + self.trace_target() + " …"@,
            )
        } else {
            self
        }
    }
}

/// The effects of a key press.
pub open spec fn is_key_effect(e: Effects, before: AppV, key: Key, clock: Clock) -> bool {
    &&& e.quit == (key == Key::Char('q') || key == Key::Esc)
    &&& e.play is None
    &&& e.notify is None
    &&& e.by_hand == (key == Key::Char('e'))
    &&& e.export == (if key == Key::Char('e') {
        Some(before.row(clock))
    } else {
        None
    })
    &&& opt_text(e.trace) == (if key == Key::Char('t') {
        Some(before.trace_target())
    } else {
        None
    })
}

impl App {
    fn trace_host(&self) -> (s: String)
        ensures
            s@ == self@.trace_target(),
    {
        let mut at: Option<usize> = None;
        let mut i: usize = 0;
        let ghost ps = self@.primaries;
        while i < self.primaries.len()
            invariant
                i <= self.primaries.len(),
                ps == self@.primaries,
                match at {
                    Some(k) => k < i && first_up(ps.take(i as int)) == Some(k as int),
                    None => first_up(ps.take(i as int)) is None,
                },
            decreases self.primaries.len() - i,
        {
            proof {
                assert(ps.take(i + 1).drop_last() =~= ps.take(i as int));
            }
            if at.is_none() && self.primaries[i].state == LinkState::Up {
                at = Some(i);
            }
            i = i + 1;
        }
        proof {
            assert(ps.take(i as int) =~= ps);
        }
        match at {
            Some(k) => self.primaries[k].host.clone(),
            None => if self.primaries.len() > 0 {
                self.primaries[0].host.clone()
            } else {
                String::from_str("1.1.1.1")
            },
        }
    }

    /// Takes in a key press.
    pub fn on_key(&mut self, key: Key, clock: Clock) -> (e: Effects)
        requires
            old(self).wf(),
        ensures
            final(self).wf(),
            final(self)@ == old(self)@.after_key(key, clock),
            is_key_effect(e, old(self)@, key, clock),
    {
        let mut e = quiet();
        match key {
            Key::Esc => {
                e.quit = true;
            },
            Key::Other => {},
            Key::Char(c) => {
                if c == 'q' {
                    e.quit = true;
                } else if c == 'm' {
                    self.muted = !self.muted;
                    let text = if self.muted {
                        "sound muted"
                    } else {
                        "sound on"
                    };
                    self.log(Level::Info, String::from_str(text), clock.unix_ms);
                } else if c == 'r' {
                    self.reset(clock);
                } else if c == 'e' {
                    e.export = Some(self.export_row(clock));
                    e.by_hand = true;
                } else if c == 't' {
                    let host = self.trace_host();
                    let mut msg = String::from_str("traceroute → ");
                    msg.append(host.as_str());
                    msg.append(" …");
                    self.log(Level::Info, msg, clock.unix_ms);
                    e.trace = Some(host);
                }
            },
        }
        e
    }

    /// Tells the user how an export by hand went: the file, or the error.
    pub fn report_export(&mut self, result: Result<String, String>, unix_ms: u64)
        requires
            old(self).wf(),
        ensures
            final(self).wf(),
            final(self)@ == (match result {
                Ok(path) => (AppV { last_export: Some(path@), ..old(self)@ }).logged(
                    unix_ms,
                    Level::Good,
                    "exported → "@ + path@,
                ),
                Err(why) => old(self)@.logged(unix_ms, Level::Bad, "export failed: "@ + why@),
            }),
    {
        match result {
            Ok(path) => {
                let mut msg = String::from_str("exported → ");
                msg.append(path.as_str());
                self.exported(path);
                self.log(Level::Good, msg, unix_ms);
            },
            Err(why) => {
                let mut msg = String::from_str("export failed: ");
                msg.append(why.as_str());
                self.log(Level::Bad, msg, unix_ms);
            },
        }
    }
}

// ----------------------------------------------------------------- schedules

/// The pause between two rounds, in milliseconds: never less than 50.
pub fn ping_pause_ms(interval_ms: u64) -> (r: u64)
    ensures
        r == (if interval_ms >= 50 {
            interval_ms
        } else {
            50
        }),
{
    if interval_ms >= 50 {
        interval_ms
    } else {
        50
    }
}

/// How long the probe of resolver `r` for name `d` waits at first, in milliseconds:
/// the probes of the matrix are spread over the interval, at least 50 apart.
pub open spec fn dns_stagger(resolvers: nat, names: nat, r: nat, d: nat, interval_ms: nat) -> nat {
    let cells = if resolvers * names == 0 {
        1
    } else {
        resolvers * names
    };
    let step = if interval_ms / cells >= 50 {
        interval_ms / cells
    } else {
        50
    };
    (r * names + d) * step
}

impl App {
    /// The first wait of a probe of the matrix, as far as it fits into 64 bits.
    pub fn dns_stagger_ms(&self, r: usize, d: usize) -> (ms: u64)
        requires
            r < self@.dns.resolvers.len(),
            d < self@.dns.names.len(),
        ensures
            ({
                let want = dns_stagger(
                    self@.dns.resolvers.len(),
                    self@.dns.names.len(),
                    r as nat,
                    d as nat,
                    self.cfg.dns_interval_ms as nat,
                );
                ms == (if want <= u64::MAX {
                    want
                } else {
                    u64::MAX as nat
                })
            }),
    {
        let rows: u128 = self.dns.resolvers.len() as u128;
        let cols: u128 = self.dns.names.len() as u128;
        proof {
            assert(0 < rows * cols <= u64::MAX * u64::MAX) by (nonlinear_arith)
                requires
                    0 < rows <= u64::MAX,
                    0 < cols <= u64::MAX,
            ;
            assert(0 <= r * cols && (r + 1) * cols <= rows * cols && (r + 1) * cols == r * cols
                + cols) by (nonlinear_arith)
                requires
                    0 <= r,
                    r + 1 <= rows,
                    0 < cols,
            ;
        }
        let cells: u128 = rows * cols;
        let share: u128 = (self.cfg.dns_interval_ms as u128) / cells;
        let step: u128 = if share >= 50 {
            share
        } else {
            50
        };
        let at: u128 = (r as u128) * cols + d as u128;
        proof {
            assert(step <= u64::MAX) by (nonlinear_arith)
                requires
                    step == share || step == 50,
                    share == (self.cfg.dns_interval_ms as u128) / cells,
                    self.cfg.dns_interval_ms <= u64::MAX,
                    cells > 0,
            ;
        }
        if at > u64::MAX as u128 {
            proof {
                assert(at * step >= at) by (nonlinear_arith)
                    requires
                        step >= 1,
                        at >= 0,
                ;
            }
            return u64::MAX;
        }
        proof {
            assert(0 <= at * step <= u64::MAX * u64::MAX) by (nonlinear_arith)
                requires
                    0 <= at <= u64::MAX,
                    0 <= step <= u64::MAX,
            ;
        }
        let want: u128 = at * step;
        if want <= u64::MAX as u128 {
            want as u64
        } else {
            u64::MAX
        }
    }
}

/// The epoch of the gateway after `found` was detected: a new one for a new gateway.
pub fn gateway_epoch(epoch: u64, known: &str, found: &str) -> (r: u64)
    ensures
        r == (if known@ == found@ {
            epoch
        } else {
            epoch.wrapping_add(1)
        }),
{
    let k = chars_of(known);
    if spells(&k, found) {
        epoch
    } else {
        epoch.wrapping_add(1)
    }
}

// --------------------------------------------------------------------- laws

/// With the sound off nothing is played, whatever comes in.
pub proof fn law_mute_is_silent(e: Effects, a: AppV, msg: Msg, clock: Clock)
    requires
        a.muted,
        is_effect(e, a, msg, clock),
    ensures
        e.play is None,
{
}

/// Turning the sound off and on again leaves the switch as it was.
pub proof fn law_mute_twice(a: AppV, first: Clock, second: Clock)
    ensures
        a.after_key(Key::Char('m'), first).muted == !a.muted,
        a.after_key(Key::Char('m'), first).after_key(Key::Char('m'), second).muted == a.muted,
{
}

/// Reminders keep their distance.
pub proof fn law_reminders_keep_their_distance(a: AppV, clock: Clock, later: Instant)
    requires
        a.reminder_is_due(clock.now),
        a.reminded(clock).reminder_is_due(later),
    ensures
        elapsed_ns(clock.now, later) >= a.cfg.reminder_interval.ns,
{
}

/// A probe that was sent to another gateway than the present one changes nothing.
#[verifier::spinoff_prover]
#[verifier::rlimit(40)]
pub proof fn law_stale_gateway_probe_is_ignored(
    a: AppV,
    idx: usize,
    sent: u64,
    current: u64,
    s: PingSample,
    clock: Clock,
)
    requires
        sent != current,
    ensures
        a.after_msg(Msg::GatewayPing(idx, sent, current, s), clock) == a,
{
}

/// A way is traced to the first target that is up; where none is, to the first of all; and
/// without targets to a public address.
pub proof fn law_trace_goes_to_a_working_target(a: AppV, k: int)
    ensures
        0 <= k < a.primaries.len() && a.primaries[k].state == LinkState::Up && (forall|i: int|
            0 <= i < k ==> (#[trigger] a.primaries[i]).state != LinkState::Up) ==> a.trace_target()
            == a.primaries[k].host,
        a.primaries.len() > 0 && (forall|i: int|
            0 <= i < a.primaries.len() ==> (#[trigger] a.primaries[i]).state != LinkState::Up)
            ==> a.trace_target() == a.primaries[0].host,
        a.primaries.len() == 0 ==> a.trace_target() == "1.1.1.1"@,
{
    lemma_first_up(a.primaries);
}

proof fn lemma_first_up(ps: Seq<ProbeV>)
    ensures
        match first_up(ps) {
            Some(i) => 0 <= i < ps.len() && ps[i].state == LinkState::Up && forall|j: int|
                0 <= j < i ==> (#[trigger] ps[j]).state != LinkState::Up,
            None => forall|j: int|
                0 <= j < ps.len() ==> (#[trigger] ps[j]).state != LinkState::Up,
        },
    decreases ps.len(),
{
    if ps.len() > 0 {
        let d = ps.drop_last();
        let last = ps.len() - 1;
        lemma_first_up(d);
        assert(ps[last] == ps.last());
        let bound = match first_up(d) {
            Some(i) => i,
            None => last,
        };
        assert forall|j: int| 0 <= j < bound implies (#[trigger] ps[j]).state
            != LinkState::Up by {
            assert(d[j].state != LinkState::Up);
        }
    }
}

/// What the keys do: `q` and escape quit, `e` exports, `t` traces, and each of these does
/// only that; `m` turns the sound, `r` starts the session over, and `t` leaves a note. No
/// other key does anything.
pub proof fn law_keys(e: Effects, a: AppV, key: Key, clock: Clock)
    requires
        is_key_effect(e, a, key, clock),
        a.events.len() < 24,
    ensures
        ({
            let b = a.after_key(key, clock);
            &&& e.quit <==> key == Key::Esc || key == Key::Char('q')
            &&& e.export is Some <==> key == Key::Char('e')
            &&& e.by_hand <==> key == Key::Char('e')
            &&& e.trace is Some <==> key == Key::Char('t')
            &&& e.trace matches Some(host) ==> host@ == a.trace_target()
            &&& e.play is None && e.notify is None
            &&& key != Key::Char('m') && key != Key::Char('r') && key != Key::Char('t') ==> b == a
            &&& key == Key::Char('m') || key == Key::Char('t') ==> b == (AppV {
                muted: b.muted,
                events: b.events,
                ..a
            }) && b.events.drop_last() == a.events && b.events.last().level == Level::Info
                && b.events.last().ts == clock.unix_ms
            &&& b.muted == (if key == Key::Char('m') {
                !a.muted
            } else {
                a.muted
            })
            &&& key == Key::Char('r') ==> b.state == LinkState::Up && b.reset_epoch != a.reset_epoch
        }),
{
    let b = a.after_key(key, clock);
    assert(a.reset_epoch.wrapping_add(1) != a.reset_epoch);
    if key == Key::Char('m') || key == Key::Char('t') {
        assert(b.events.drop_last() =~= a.events);
    }
}

/// Only the message to quit quits. Only samples of the targets can sound, notify or export;
/// no message traces or exports by hand.
#[verifier::spinoff_prover]
#[verifier::rlimit(40)]
pub proof fn law_messages_ask_for_little(e: Effects, a: AppV, msg: Msg, clock: Clock)
    requires
        is_effect(e, a, msg, clock),
    ensures
        e.quit <==> msg is Quit,
        !e.by_hand && e.trace is None,
        e.play is Some || e.notify is Some || e.export is Some ==> msg is Ping || msg is Round,
        a.muted ==> e.play is None,
        msg is Quit ==> a.after_msg(msg, clock) == a,
{
}

/// A line of a trace and its end are logged as they come, and change nothing else.
#[verifier::spinoff_prover]
#[verifier::rlimit(40)]
pub proof fn law_traces_are_logged(a: AppV, line: String, clock: Clock)
    requires
        a.events.len() < 24,
    ensures
        ({
            let b = a.after_msg(Msg::TraceLine(line), clock);
            let c = a.after_msg(Msg::TraceDone, clock);
            &&& b == (AppV { events: b.events, ..a })
            &&& b.events == a.events.push(
                EventV { ts: clock.unix_ms, level: Level::Info, msg: line@ },
            )
            &&& c == (AppV { events: c.events, ..a })
            &&& c.events == a.events.push(
                EventV { ts: clock.unix_ms, level: Level::Info, msg: "traceroute finished"@ },
            )
        }),
{
    let b = a.after_msg(Msg::TraceLine(line), clock);
    let c = a.after_msg(Msg::TraceDone, clock);
    assert(b == a.logged(clock.unix_ms, Level::Info, line@));
    assert(c == a.logged(clock.unix_ms, Level::Info, "traceroute finished"@));
}

/// A probe of the gateway counts as one of an extra probe where it was sent to the present
/// gateway, and not at all otherwise.
#[verifier::spinoff_prover]
#[verifier::rlimit(40)]
pub proof fn law_gateway_probes_are_extra_probes(
    a: AppV,
    idx: usize,
    sent: u64,
    current: u64,
    s: PingSample,
    clock: Clock,
)
    ensures
        a.after_msg(Msg::GatewayPing(idx, sent, current, s), clock) == (if sent == current {
            a.after_msg(Msg::ExtraPing(idx, s), clock)
        } else {
            a
        }),
{
}

/// A single sample is decided at once: it is a round of one, without the cue of a single
/// target.
#[verifier::spinoff_prover]
#[verifier::rlimit(40)]
pub proof fn law_single_sample_is_decided(
    a: AppV,
    idx: usize,
    s: PingSample,
    w: ProbeWeights,
    clock: Clock,
)
    ensures
        ({
            let b = a.after_msg(Msg::Ping(idx, s, w), clock);
            let taken = a.ingested(idx as int, s.rtt_ns, clock.now, clock.unix_ms, w);
            &&& b.primaries == taken.primaries
            &&& b.state == taken.voted(clock.now).state || taken.primaries.len() == 0
            &&& b.probe_anomaly_cooldown_at == a.probe_anomaly_cooldown_at
            &&& b.lat_hist == taken.lat_hist.pushed(taken.last_value())
            &&& b.jit_hist == taken.jit_hist.pushed(taken.jitter())
            &&& forall|i: int|
                0 <= i < b.probe_anomaly_edge.len() ==> !(#[trigger] b.probe_anomaly_edge[i])
        }),
{
}

/// A reminder that is due is logged and starts its wait over; it is grave and sounds as an
/// outage where the connection is down, and as a shimmer where it is degraded. A muted one
/// does not sound, and one that is not due does nothing.
pub proof fn law_reminders(a: AppV, clock: Clock)
    requires
        a.events.len() < 24,
    ensures
        ({
            let b = a.reminded(clock);
            let due = a.reminder_is_due(clock.now);
            let cue = a.reminder_cue(clock.now);
            &&& !due ==> b == a && cue is None
            &&& due ==> {
                &&& b == (AppV { last_reminder: Some(clock.now), events: b.events, ..a })
                &&& b.events.drop_last() == a.events && b.events.len() == a.events.len() + 1
                &&& b.events.last().ts == clock.unix_ms
                &&& b.events.last().level == (if a.state == LinkState::Down {
                    Level::Bad
                } else {
                    Level::Warn
                })
            }
            &&& cue == Some(SoundEvent::Down) <==> due && !a.muted && a.state == LinkState::Down
            &&& cue == Some(SoundEvent::Shimmer) <==> due && !a.muted && a.state
                == LinkState::Degraded
            &&& cue is Some ==> due && !a.muted
        }),
{
    if a.reminder_is_due(clock.now) {
        assert(a.reminded(clock).events.drop_last() =~= a.events);
    }
}

/// The first probes of the matrix are spread out: they start one after the other, row by row,
/// always the same time apart, at least 50 milliseconds, and all within the interval where
/// that leaves them 50 each.
pub proof fn law_first_probes_are_spread(resolvers: nat, names: nat, r: nat, d: nat, interval: nat)
    requires
        r < resolvers,
        d < names,
    ensures
        ({
            let at = dns_stagger(resolvers, names, r, d, interval);
            let step = dns_stagger(resolvers, names, 0, 1, interval);
            &&& dns_stagger(resolvers, names, 0, 0, interval) == 0
            &&& step >= 50
            &&& dns_stagger(resolvers, names, r, d + 1, interval) == at + step
            &&& dns_stagger(resolvers, names, r + 1, 0, interval) == dns_stagger(
                resolvers,
                names,
                r,
                (names - 1) as nat,
                interval,
            ) + step
            &&& step > 50 ==> step * (resolvers * names) <= interval < (step + 1) * (resolvers
                * names)
            &&& interval >= 50 * (resolvers * names) ==> at < interval
        }),
{
    let cells = resolvers * names;
    assert(cells > 0) by (nonlinear_arith)
        requires
            cells == resolvers * names,
            resolvers > 0,
            names > 0,
    ;
    let share = interval / cells;
    let step = if share >= 50 {
        share
    } else {
        50
    };
    assert((0 * names + 1) * step == step && (0 * names + 0) * step == 0) by (nonlinear_arith);
    assert((r * names + (d + 1)) * step == (r * names + d) * step + step) by (nonlinear_arith);
    assert(((r + 1) * names + 0) * step == (r * names + (names - 1)) * step + step)
        by (nonlinear_arith);
    vstd::arithmetic::div_mod::lemma_fundamental_div_mod(interval as int, cells as int);
    vstd::arithmetic::div_mod::lemma_mod_bound(interval as int, cells as int);
    assert(cells * share == share * cells) by (nonlinear_arith);
    assert((share + 1) * cells == share * cells + cells) by (nonlinear_arith);
    if interval >= 50 * cells {
        assert(share >= 50) by (nonlinear_arith)
            requires
                interval >= 50 * cells,
                interval < (share + 1) * cells,
                cells > 0,
        ;
        assert(r * names + d < cells) by (nonlinear_arith)
            requires
                r + 1 <= resolvers,
                d < names,
                cells == resolvers * names,
        ;
        assert((r * names + d) * step < cells * step) by (nonlinear_arith)
            requires
                r * names + d < cells,
                step >= 50,
        ;
        assert(cells * step == share * cells);
    }
}

/// A detected gateway is logged where it is new or has changed, by one entry, and not where
/// it has not.
pub proof fn law_gateway_changes_are_logged(a: AppV, gw: Seq<char>, unix_ms: u64)
    requires
        a.events.len() < 24,
    ensures
        ({
            let b = a.with_found_gateway(gw, unix_ms);
            &&& b.extras == a.with_gateway(gw).extras && b.gw_role == a.with_gateway(gw).gw_role
            &&& a.gateway_report(gw) is Unchanged <==> b.events == a.events
            &&& !(a.gateway_report(gw) is Unchanged) ==> b.events.len() == a.events.len() + 1
                && b.events.last().level == Level::Info && b.events.last().ts == unix_ms
        }),
{
    let b = a.with_found_gateway(gw, unix_ms);
    if !(a.gateway_report(gw) is Unchanged) {
        assert(b.events.len() == a.events.len() + 1);
    }
}

/// What a decided round asks for reaches the outside: its notification and its line as they
/// are, and its cue unless the sound is off.
pub proof fn law_outcomes_reach_the_outside(e: Effects, o: Outcome, muted: bool)
    requires
        carries(e, o, muted),
    ensures
        !muted ==> e.play == o.sound,
        muted ==> e.play is None,
        e.notify is Some <==> o.notify is Some,
        e.export == o.export,
        !e.quit && !e.by_hand && e.trace is None,
{
}

/// An answer of a resolver goes to its cell of the matrix.
#[verifier::spinoff_prover]
#[verifier::rlimit(40)]
pub proof fn law_answers_reach_the_matrix(
    a: AppV,
    r: usize,
    d: usize,
    ns: Option<u64>,
    clock: Clock,
)
    requires
        r < a.dns.cells.len(),
        d < a.dns.cells[r as int].len(),
    ensures
        a.after_msg(Msg::Dns(r, d, ns), clock).dns.cells[r as int][d as int].last == ns,
{
    let b = a.with_answer(r as int, d as int, ns, clock.unix_ms);
    assert(a.after_msg(Msg::Dns(r, d, ns), clock) == b);
    assert(b.dns.cells[r as int][d as int].last == ns);
}

/// A reading of the signal is kept.
#[verifier::spinoff_prover]
#[verifier::rlimit(40)]
pub proof fn law_readings_reach_the_signal(a: AppV, rssi: Option<i16>, clock: Clock)
    ensures
        a.after_msg(Msg::WifiRssi(rssi), clock).wifi_rssi == rssi,
{
    assert(a.after_msg(Msg::WifiRssi(rssi), clock) == a.with_wifi(rssi, clock.unix_ms));
}

/// A sample of an extra probe goes to that probe.
#[verifier::spinoff_prover]
#[verifier::rlimit(40)]
pub proof fn law_samples_reach_the_extra_probe(
    a: AppV,
    i: usize,
    s: PingSample,
    clock: Clock,
)
    requires
        i < a.extras.len(),
    ensures
        a.after_msg(Msg::ExtraPing(i, s), clock).extras[i as int] == a.extras[i as int].sampled(
            s.rtt_ns,
            clock.now,
        ),
{
    let b = a.with_extra(i as int, s.rtt_ns, clock);
    assert(a.after_msg(Msg::ExtraPing(i, s), clock) == b);
}

/// A reminder names the state, and carries the note of its cue unless the sound is off.
pub proof fn law_reminder_names_the_state(a: AppV)
    ensures
        a.muted && a.state == LinkState::Down ==> a.reminder_text() == "still down"@ + ""@,
        a.muted && a.state == LinkState::Degraded ==> a.reminder_text() == "still degraded"@ + ""@,
        !a.muted ==> a.reminder_text() == (AppV { muted: true, ..a }).reminder_text() + "  ♪"@,
{
    reveal_strlit("");
    assert(!a.muted ==> a.reminder_text() =~= (AppV { muted: true, ..a }).reminder_text()
        + "  ♪"@);
}

/// The entry of a gateway names it, and the former one where there was one.
pub proof fn law_gateway_entries(was: Seq<char>, now: Seq<char>, gw: Seq<char>, idx: int)
    ensures
        gateway_entry(UpdateV::Updated { was, now }, gw) == Some(
            "gateway changed  "@ + was + " → "@ + now,
        ),
        gateway_entry(UpdateV::Added { idx }, gw) == Some("gateway detected  "@ + gw),
        gateway_entry(UpdateV::Unchanged, gw) is None,
{
}

} // verus!
