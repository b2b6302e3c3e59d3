//! What comes in besides the rounds: extra probes, the gateway, the resolvers,
//! the Wi-Fi signal and the passing of time.
use vstd::prelude::*;
use crate::app::{
    events_view, extras_view, App, AppV, Event, EventV, GatewayRole, Level,
};
use crate::dns::answer_state;
use crate::net::PingSample;
use crate::probe::{extra_new, ExtraProbe, ExtraV};
use crate::round::{cause_text, cause_word, PathCause};
use crate::sound::SoundEvent;
use crate::state::{DesiredState, LinkState};
use crate::text::{
    chars_of, dec_i16, find, first_at, ms, ms_text, occurs_at, position, signed_digits, string_of,
};
use crate::time::{elapsed_ns, Clock, Instant};
use crate::wifi::{grade_of, rssi_grade, rssi_verdict_grade, verdict_of};

verus! {

// -------------------------------------------------------------------- extras

/// What a sample of an extra probe is logged as, if at all: that it is up again,
/// its first loss, or that it is down.
pub open spec fn extra_entry(e: ExtraV, rtt: Option<u64>) -> Option<(Level, Seq<char>)> {
    match rtt {
        Some(v) => if e.state == LinkState::Down {
            Some((Level::Good, "["@ + e.label + "] up  "@ + ms_text(v as nat, 0) + " ms"@))
        } else {
            None
        },
        None => if e.consec_loss + 1 >= 2 && e.state != LinkState::Down {
            Some((Level::Bad, "["@ + e.label + "] down"@))
        } else if e.consec_loss == 0 {
            Some((Level::Warn, "["@ + e.label + "] loss"@))
        } else {
            None
        },
    }
}

/// An entry of the log with its cause replaced: what stands between "cause: " and
/// the note sign.
pub open spec fn amended(msg: Seq<char>, word: Seq<char>) -> Seq<char> {
    match position(msg, "cause: "@, 0) {
        Some(at) => {
            let tail = match position(msg, "  ♪"@, at) {
                Some(k) => msg.skip(k),
                None => Seq::empty(),
            };
            msg.take(at) + "cause: "@ + word + "  (cause updated)  "@ + tail
        },
        None => msg,
    }
}

impl AppV {
    /// The cause of the present trouble.
    pub open spec fn present_cause(self) -> PathCause {
        self.cause(
            if self.state == LinkState::Down {
                DesiredState::Down
            } else {
                DesiredState::Degraded
            },
        )
    }

    /// The monitor after a cause that was unknown has been looked at again. It is
    /// given up when the trouble is over, and amended when there is evidence.
    pub open spec fn reconsidered(self) -> AppV {
        match self.pending_cause_log_idx {
            None => self,
            Some(i) => if self.state == LinkState::Up {
                AppV { pending_cause_log_idx: None, ..self }
            } else if self.present_cause() == PathCause::Unknown {
                self
            } else {
                AppV {
                    pending_cause_log_idx: None,
                    events: if i < self.events.len() {
                        let e = self.events[i as int];
                        self.events.update(
                            i as int,
                            EventV {
                                msg: amended(e.msg, cause_text(self.present_cause())),
                                ..e
                            },
                        )
                    } else {
                        self.events
                    },
                    ..self
                }
            },
        }
    }

    /// The monitor after a sample of extra probe `idx`.
    pub open spec fn with_extra(self, idx: int, rtt: Option<u64>, clock: Clock) -> AppV {
        if idx >= self.extras.len() {
            self
        } else {
            let e = self.extras[idx];
            let seen = AppV {
                extras: self.extras.update(idx, e.sampled(rtt, clock.now)),
                ..self
            };
            (match extra_entry(e, rtt) {
                Some(entry) => seen.logged(clock.unix_ms, entry.0, entry.1),
                None => seen,
            }).reconsidered()
        }
    }
}

fn amended_msg(msg: &String, word: &str) -> (r: String)
    ensures
        r@ == amended(msg@, word@),
{
    let m = chars_of(msg.as_str());
    let cause = chars_of("cause: ");
    let sign = chars_of("  ♪");
    match find(&m, &cause, 0) {
        None => msg.clone(),
        Some(at) => {
            let head = sliced(&m, 0, at);
            let mut r = string_of(&head);
            r.append("cause: ");
            r.append(word);
            r.append("  (cause updated)  ");
            if let Some(k) = find(&m, &sign, at) {
                let tail = sliced(&m, k, m.len());
                r.append(string_of(&tail).as_str());
            }
            proof {
                assert(m@.subrange(0, at as int) =~= m@.take(at as int));
                assert(r@ =~= amended(msg@, word@));
            }
            r
        },
    }
}

fn sliced(v: &Vec<char>, from: usize, to: usize) -> (r: Vec<char>)
    requires
        from <= to <= v.len(),
    ensures
        r@ == v@.subrange(from as int, to as int),
{
    let mut r: Vec<char> = Vec::new();
    let mut i: usize = from;
    while i < to
        invariant
            from <= i <= to <= v.len(),
            r@ == v@.subrange(from as int, i as int),
        decreases to - i,
    {
        r.push(v[i]);
        i = i + 1;
        proof {
            assert(r@ =~= v@.subrange(from as int, i as int));
        }
    }
    r
}

impl App {
    /// Looks again at a cause that was unknown when it was logged.
    pub fn try_amend_pending_cause(&mut self, now: Instant)
        ensures
            final(self)@ == old(self)@.reconsidered(),
    {
        let idx: usize = match self.pending_cause_log_idx {
            Some(i) => i,
            None => {
                return;
            },
        };
        if self.state == LinkState::Up {
            self.pending_cause_log_idx = None;
            return;
        }
        let cause = self.path_cause(
            if self.state == LinkState::Down {
                DesiredState::Down
            } else {
                DesiredState::Degraded
            },
            now,
        );
        if cause == PathCause::Unknown {
            return;
        }
        if idx < self.events.len() {
            let msg = amended_msg(&self.events[idx].msg, cause_word(cause));
            let level = self.events[idx].level;
            let ts: u64 = self.events[idx].ts;
            let _ = self.events.remove(idx);
            self.events.insert(idx, Event { ts, level, msg });
            proof {
                assert(events_view(self.events@) =~= old(self)@.events.update(
                    idx as int,
                    EventV { ts, level, msg: msg@ },
                ));
            }
        }
        self.pending_cause_log_idx = None;
    }

    /// Enters a sample of an extra probe.
    pub fn ingest_extra(&mut self, idx: usize, sample: PingSample, clock: Clock)
        requires
            old(self).wf(),
            idx < old(self)@.extras.len() ==> old(self)@.extras[idx as int].has_room(),
        ensures
            final(self).wf(),
            final(self)@ == old(self)@.with_extra(idx as int, sample.rtt_ns, clock),
    {
        if idx >= self.extras.len() {
            return;
        }
        let ghost e = self@.extras[idx as int];
        let label = self.extras[idx].label.clone();
        let was = self.extras[idx].state;
        let losses: u32 = self.extras[idx].consec_loss;
        let rtt = sample.rtt_ns;
        proof {
            assert(e.wf());
        }
        self.extras[idx].sample(rtt, clock.now);
        proof {
            assert(extras_view(self.extras@) =~= old(self)@.extras.update(
                idx as int,
                e.sampled(rtt, clock.now),
            ));
        }
        let mut msg = String::from_str("[");
        msg.append(label.as_str());
        match rtt {
            Some(v) => {
                if was == LinkState::Down {
                    msg.append("] up  ");
                    msg.append(ms(v as u128, 0).as_str());
                    msg.append(" ms");
                    self.log(Level::Good, msg, clock.unix_ms);
                }
            },
            None => {
                if losses >= 1 && was != LinkState::Down {
                    msg.append("] down");
                    self.log(Level::Bad, msg, clock.unix_ms);
                } else if losses == 0 {
                    msg.append("] loss");
                    self.log(Level::Warn, msg, clock.unix_ms);
                }
            },
        }
        self.try_amend_pending_cause(clock.now);
        proof {
            assert forall|i: int| 0 <= i < self@.extras.len() implies (
            #[trigger] self@.extras[i]).wf() by {
                if i != idx {
                    assert(self@.extras[i] == old(self)@.extras[i]);
                }
            }
        }
    }

    /// Enters a sample of the gateway, unless the gateway has changed since the
    /// probe was sent.
    pub fn ingest_gateway_probe(
        &mut self,
        idx: usize,
        probe_epoch: u64,
        current_epoch: u64,
        sample: PingSample,
        clock: Clock,
    )
        requires
            old(self).wf(),
            idx < old(self)@.extras.len() ==> old(self)@.extras[idx as int].has_room(),
        ensures
            final(self).wf(),
            final(self)@ == (if probe_epoch != current_epoch {
                old(self)@
            } else {
                old(self)@.with_extra(idx as int, sample.rtt_ns, clock)
            }),
    {
        if probe_epoch != current_epoch {
            return;
        }
        self.ingest_extra(idx, sample, clock);
    }
}

// ------------------------------------------------------------------- gateway

/// What the detection of a gateway led to.
pub enum GatewayUpdate {
    Unchanged,
    Updated { old: String, new: String },
    Added { idx: usize },
}

/// What a [`GatewayUpdate`] holds.
#[verifier::ext_equal]
pub enum UpdateV {
    Unchanged,
    Updated { was: Seq<char>, now: Seq<char> },
    Added { idx: int },
}

impl View for GatewayUpdate {
    type V = UpdateV;

    open spec fn view(&self) -> UpdateV {
        match self {
            GatewayUpdate::Unchanged => UpdateV::Unchanged,
            GatewayUpdate::Updated { old: a, new: b } => UpdateV::Updated { was: a@, now: b@ },
            GatewayUpdate::Added { idx } => UpdateV::Added { idx: *idx as int },
        }
    }
}

/// The place of the first probe of `host` that is not the one at `skip`.
pub open spec fn user_probe(extras: Seq<ExtraV>, host: Seq<char>, skip: Option<usize>) -> Option<
    int,
>
    decreases extras.len(),
{
    if extras.len() == 0 {
        None
    } else {
        match user_probe(extras.drop_last(), host, skip) {
            Some(i) => Some(i),
            None => if extras.last().host == host && !(skip is Some && skip->0 == extras.len() - 1) {
                Some(extras.len() - 1)
            } else {
                None
            },
        }
    }
}

impl AppV {
    /// The probe of ours that watches the gateway, where there is one.
    pub open spec fn own_gateway(self) -> Option<int> {
        match self.auto_gw_idx {
            Some(i) => if i < self.extras.len() {
                Some(i as int)
            } else {
                None
            },
            None => None,
        }
    }

    /// The monitor after a gateway has been detected: a probe of the user is
    /// preferred, else a probe of ours follows it, else a new one is made.
    pub open spec fn with_gateway(self, gw: Seq<char>) -> AppV {
        match user_probe(self.extras, gw, self.auto_gw_idx) {
            Some(i) => AppV {
                gw_role: GatewayRole::UserExtra(i as usize),
                gateway_probe_idx: Some(i as usize),
                ..self
            },
            None => match self.own_gateway() {
                Some(i) => AppV {
                    extras: if self.extras[i].host == gw {
                        self.extras
                    } else {
                        self.extras.update(
                            i,
                            extra_new(self.extras[i].label, gw, self.extras[i].port),
                        )
                    },
                    gw_role: GatewayRole::AutoExtra(i as usize),
                    gateway_probe_idx: Some(i as usize),
                    ..self
                },
                None => AppV {
                    extras: self.extras.push(extra_new("gw"@, gw, 80)),
                    auto_gw_idx: Some(self.extras.len() as usize),
                    gw_role: GatewayRole::AutoExtra(self.extras.len() as usize),
                    gateway_probe_idx: Some(self.extras.len() as usize),
                    ..self
                },
            },
        }
    }

    /// What that is reported as.
    pub open spec fn gateway_report(self, gw: Seq<char>) -> UpdateV {
        match user_probe(self.extras, gw, self.auto_gw_idx) {
            Some(i) => UpdateV::Unchanged,
            None => match self.own_gateway() {
                Some(i) => if self.extras[i].host == gw {
                    UpdateV::Unchanged
                } else {
                    UpdateV::Updated { was: self.extras[i].host, now: gw }
                },
                None => UpdateV::Added { idx: self.extras.len() as int },
            },
        }
    }
}

fn find_user_probe(extras: &Vec<ExtraProbe>, host: &String, skip: Option<usize>) -> (r: Option<
    usize,
>)
    ensures
        user_probe(extras_view(extras@), host@, skip) == (match r {
            Some(i) => Some(i as int),
            None => None,
        }),
        r matches Some(i) ==> i < extras.len(),
{
    let mut found: Option<usize> = None;
    let mut i: usize = 0;
    let ghost es = extras_view(extras@);
    proof {
        assert(es.take(0) =~= Seq::empty());
    }
    while i < extras.len()
        invariant
            i <= extras.len(),
            es == extras_view(extras@),
            user_probe(es.take(i as int), host@, skip) == (match found {
                Some(k) => Some(k as int),
                None => None,
            }),
            found matches Some(k) ==> k < i,
        decreases extras.len() - i,
    {
        proof {
            assert(es.take(i + 1).drop_last() =~= es.take(i as int));
        }
        if found.is_none() {
            let skipped = match skip {
                Some(k) => k == i,
                None => false,
            };
            if !skipped && extras[i].host == *host {
                found = Some(i);
            }
        }
        i = i + 1;
    }
    proof {
        assert(es.take(i as int) =~= es);
    }
    found
}

impl App {
    /// Takes in a detected gateway.
    pub fn apply_gateway_update(&mut self, gw: &str) -> (r: GatewayUpdate)
        requires
            old(self).wf(),
        ensures
            final(self).wf(),
            final(self)@ == old(self)@.with_gateway(gw@),
            r@ == old(self)@.gateway_report(gw@),
    {
        let host = String::from_str(gw);
        if let Some(i) = find_user_probe(&self.extras, &host, self.auto_gw_idx) {
            self.gw_role = GatewayRole::UserExtra(i);
            self.gateway_probe_idx = Some(i);
            return GatewayUpdate::Unchanged;
        }
        if let Some(i) = self.auto_gw_idx {
            if i < self.extras.len() {
                self.gw_role = GatewayRole::AutoExtra(i);
                self.gateway_probe_idx = Some(i);
                if self.extras[i].host == host {
                    return GatewayUpdate::Unchanged;
                }
                let was = self.extras[i].host.clone();
                self.extras[i].host = host.clone();
                self.extras[i].reset();
                proof {
                    let e = old(self)@.extras[i as int];
                    assert(extras_view(self.extras@) =~= old(self)@.extras.update(
                        i as int,
                        extra_new(e.label, gw@, e.port),
                    ));
                    assert forall|k: int| 0 <= k < self@.extras.len() implies (
                    #[trigger] self@.extras[k]).wf() by {
                        if k != i {
                            assert(self@.extras[k] == old(self)@.extras[k]);
                        }
                    }
                }
                return GatewayUpdate::Updated { old: was, new: host };
            }
        }
        let idx: usize = self.extras.len();
        self.extras.push(ExtraProbe::new("gw", gw, 80));
        self.auto_gw_idx = Some(idx);
        self.gw_role = GatewayRole::AutoExtra(idx);
        self.gateway_probe_idx = Some(idx);
        proof {
            assert(extras_view(self.extras@) =~= old(self)@.extras.push(
                extra_new("gw"@, gw@, 80),
            ));
            assert forall|k: int| 0 <= k < self@.extras.len() implies (
            #[trigger] self@.extras[k]).wf() by {
                if k < idx {
                    assert(self@.extras[k] == old(self)@.extras[k]);
                }
            }
        }
        GatewayUpdate::Added { idx }
    }
}

// --------------------------------------------------------------------- Wi-Fi

/// The grade of a signal, where there is one.
pub open spec fn grade(rssi: Option<i16>) -> Option<u8> {
    match rssi {
        Some(r) => Some(grade_of(r as int)),
        None => None,
    }
}

/// What a change of the signal is logged as.
pub open spec fn wifi_entry(was: Option<u8>, rssi: Option<i16>) -> Option<(Level, Seq<char>)> {
    match (was, rssi) {
        (None, None) => None,
        (None, Some(r)) => {
            let g = grade_of(r as int);
            Some(
                (
                    if g <= 1 {
                        Level::Warn
                    } else {
                        Level::Info
                    },
                    "wifi up  "@ + signed_digits(r as int) + " dBm ("@ + verdict_of(g) + ")"@,
                ),
            )
        },
        (Some(old_grade), None) => Some((Level::Warn, "wifi down"@)),
        (Some(old_grade), Some(r)) => {
            let g = grade_of(r as int);
            if g == old_grade {
                None
            } else {
                Some(
                    (
                        if g > old_grade {
                            Level::Good
                        } else {
                            Level::Warn
                        },
                        "wifi "@ + verdict_of(old_grade) + " → "@ + verdict_of(g) + "  ("@
                            + signed_digits(r as int) + ")"@,
                    ),
                )
            }
        },
    }
}

impl AppV {
    /// The monitor after a reading of the signal: only a change of grade is logged.
    pub open spec fn with_wifi(self, rssi: Option<i16>, unix_ms: u64) -> AppV {
        let seen = AppV { wifi_rssi: rssi, wifi_grade: grade(rssi), ..self };
        match wifi_entry(self.wifi_grade, rssi) {
            Some(entry) => seen.logged(unix_ms, entry.0, entry.1),
            None => seen,
        }
    }
}

impl App {
    /// Takes in a reading of the signal.
    pub fn set_wifi_rssi(&mut self, rssi: Option<i16>, unix_ms: u64)
        ensures
            final(self)@ == old(self)@.with_wifi(rssi, unix_ms),
    {
        let was = self.wifi_grade;
        self.wifi_rssi = rssi;
        match rssi {
            None => {
                self.wifi_grade = None;
                if was.is_some() {
                    self.log(Level::Warn, String::from_str("wifi down"), unix_ms);
                }
            },
            Some(r) => {
                let g: u8 = rssi_grade(r);
                self.wifi_grade = Some(g);
                match was {
                    None => {
                        let mut msg = String::from_str("wifi up  ");
                        msg.append(dec_i16(r).as_str());
                        msg.append(" dBm (");
                        msg.append(rssi_verdict_grade(g));
                        msg.append(")");
                        let level = if g <= 1 {
                            Level::Warn
                        } else {
                            Level::Info
                        };
                        self.log(level, msg, unix_ms);
                    },
                    Some(old_grade) => {
                        if g != old_grade {
                            let mut msg = String::from_str("wifi ");
                            msg.append(rssi_verdict_grade(old_grade));
                            msg.append(" → ");
                            msg.append(rssi_verdict_grade(g));
                            msg.append("  (");
                            msg.append(dec_i16(r).as_str());
                            msg.append(")");
                            let level = if g > old_grade {
                                Level::Good
                            } else {
                                Level::Warn
                            };
                            self.log(level, msg, unix_ms);
                        }
                    },
                }
            },
        }
    }
}

// ----------------------------------------------------------------- reminders

impl AppV {
    /// A reminder is due: the link is in trouble and the last one is long ago.
    pub open spec fn reminder_is_due(self, now: Instant) -> bool {
        self.state != LinkState::Up && (self.last_reminder is None || elapsed_ns(
            self.last_reminder->0,
            now,
        ) >= self.cfg.reminder_interval.ns)
    }
}

impl App {
    /// Reminds of trouble that lasts: the cue, the level and the text.
    pub fn tick_reminder(&mut self, now: Instant) -> (r: Option<
        (SoundEvent, Level, &'static str),
    >)
        ensures
            final(self)@ == (if old(self)@.reminder_is_due(now) {
                AppV { last_reminder: Some(now), ..old(self)@ }
            } else {
                old(self)@
            }),
            match r {
                None => !old(self)@.reminder_is_due(now),
                Some(t) => {
                    &&& old(self)@.reminder_is_due(now)
                    &&& if old(self)@.state == LinkState::Down {
                        t.0 == SoundEvent::Down && t.1 == Level::Bad && t.2@ == "still down"@
                    } else {
                        t.0 == SoundEvent::Shimmer && t.1 == Level::Warn && t.2@
                            == "still degraded"@
                    }
                },
            },
    {
        let due = match self.last_reminder {
            None => true,
            Some(t) => now.nanos_since(t) as u128 >= self.cfg.reminder_interval.ns,
        };
        match self.state {
            LinkState::Down => {
                if due {
                    self.last_reminder = Some(now);
                    return Some((SoundEvent::Down, Level::Bad, "still down"));
                }
            },
            LinkState::Degraded => {
                if due {
                    self.last_reminder = Some(now);
                    return Some((SoundEvent::Shimmer, Level::Warn, "still degraded"));
                }
            },
            LinkState::Up => {},
        }
        None
    }
}

// ----------------------------------------------------------------------- DNS

/// What an answer is logged as.
pub open spec fn dns_entry(
    resolver: Seq<char>,
    name: Seq<char>,
    ns: Option<u64>,
    warn: nat,
    bad: nat,
) -> Option<(Level, Seq<char>)> {
    let who = "[DNS "@ + resolver + "→"@ + name;
    match ns {
        None => Some((Level::Bad, who + "] failed"@)),
        Some(v) => match answer_state(ns, warn, bad) {
            LinkState::Down => Some(
                (Level::Bad, who + "] slow: "@ + ms_text(v as nat, 0) + " ms"@),
            ),
            LinkState::Degraded => Some(
                (Level::Warn, who + "] high: "@ + ms_text(v as nat, 0) + " ms"@),
            ),
            LinkState::Up => None,
        },
    }
}

impl AppV {
    /// There is a cell for resolver `r` and name `d`.
    pub open spec fn has_cell(self, r: int, d: int) -> bool {
        0 <= r < self.dns.cells.len() && 0 <= d < self.dns.cells[r].len()
    }

    /// The monitor after an answer. The thresholds are those of before it.
    pub open spec fn with_answer(self, r: int, d: int, ns: Option<u64>, unix_ms: u64) -> AppV {
        if !self.has_cell(r, d) {
            self
        } else {
            let seen = AppV {
                dns: self.dns.with_cell(
                    r,
                    d,
                    self.dns.cells[r][d].answered(ns, self.dns_warn(), self.dns_bad()),
                ),
                ..self
            };
            match dns_entry(
                self.dns.resolvers[r].0,
                self.dns.names[d],
                ns,
                self.dns_warn(),
                self.dns_bad(),
            ) {
                Some(entry) => seen.logged(unix_ms, entry.0, entry.1),
                None => seen,
            }
        }
    }
}

impl App {
    /// Takes in an answer of a resolver. No cue follows from it.
    pub fn ingest_dns(&mut self, r_idx: usize, d_idx: usize, ns: Option<u64>, unix_ms: u64) -> (r:
        Option<SoundEvent>)
        requires
            old(self).wf(),
            old(self)@.has_cell(r_idx as int, d_idx as int) ==> old(
                self,
            )@.dns.cells[r_idx as int][d_idx as int].stat.count < u64::MAX,
        ensures
            final(self).wf(),
            final(self)@ == old(self)@.with_answer(r_idx as int, d_idx as int, ns, unix_ms),
            r is None,
    {
        if r_idx >= self.dns.cells.len() || d_idx >= self.dns.cells[r_idx].len() {
            return None;
        }
        proof {
            assert(self@.dns.cells[r_idx as int].len() == self@.dns.names.len());
        }
        let warn: u128 = self.dns_warn_ms().ns;
        let bad: u128 = self.dns_bad_ms().ns;
        let mut msg = String::from_str("[DNS ");
        msg.append(self.dns.resolvers[r_idx].0.as_str());
        msg.append("→");
        msg.append(self.dns.names[d_idx].as_str());
        self.dns.answer(r_idx, d_idx, ns, warn, bad);
        match ns {
            Some(v) => {
                if v as u128 > bad {
                    msg.append("] slow: ");
                    msg.append(ms(v as u128, 0).as_str());
                    msg.append(" ms");
                    self.log(Level::Bad, msg, unix_ms);
                } else if v as u128 > warn {
                    msg.append("] high: ");
                    msg.append(ms(v as u128, 0).as_str());
                    msg.append(" ms");
                    self.log(Level::Warn, msg, unix_ms);
                }
            },
            None => {
                msg.append("] failed");
                self.log(Level::Bad, msg, unix_ms);
            },
        }
        None
    }
}

// ---------------------------------------------------------------------- laws

/// A sample of an extra probe changes that probe alone: the connection, the targets and the
/// other probes stay as they are. One for a probe that does not exist changes nothing.
pub proof fn law_extra_samples_stay_with_their_probe(
    a: AppV,
    idx: int,
    rtt: Option<u64>,
    clock: Clock,
)
    requires
        0 <= idx,
    ensures
        ({
            let b = a.with_extra(idx, rtt, clock);
            &&& idx >= a.extras.len() ==> b == a
            &&& idx < a.extras.len() ==> {
                &&& b.extras.len() == a.extras.len()
                &&& b.extras[idx] == a.extras[idx].sampled(rtt, clock.now)
                &&& forall|i: int|
                    0 <= i < a.extras.len() && i != idx ==> #[trigger] b.extras[i] == a.extras[i]
            }
            &&& b.state == a.state && b.primaries == a.primaries && b.dns == a.dns
            &&& b.recovery == a.recovery && b.bad_since == a.bad_since
        }),
{
}

/// What is logged of an extra probe: that it is up again, as good news; that it goes down,
/// as bad news; a first loss, as a warning. Further losses of a probe that is down, and
/// answers of one that is not, are not logged.
pub proof fn law_extra_probe_log(e: ExtraV, rtt: Option<u64>, now: Instant)
    requires
        e.consec_loss < u32::MAX,
    ensures
        ({
            let f = e.sampled(rtt, now);
            let level = match extra_entry(e, rtt) {
                Some((l, _)) => Some(l),
                None => None,
            };
            &&& level == Some(Level::Good) <==> e.state == LinkState::Down && rtt is Some
            &&& level == Some(Level::Bad) <==> e.state != LinkState::Down && f.state
                == LinkState::Down
            &&& level == Some(Level::Warn) <==> rtt is None && f.consec_loss == 1
            &&& level != Some(Level::Info)
        }),
{
}

/// The sample of a probe leaves at most one entry behind the log, as long as no cause is
/// waiting to be amended.
pub proof fn law_extra_samples_log_once(a: AppV, idx: int, rtt: Option<u64>, clock: Clock)
    requires
        0 <= idx < a.extras.len(),
        a.events.len() < 24,
        a.pending_cause_log_idx is None,
    ensures
        ({
            let b = a.with_extra(idx, rtt, clock);
            match extra_entry(a.extras[idx], rtt) {
                None => b.events == a.events,
                Some(entry) => b.events == a.events.push(
                    EventV { ts: clock.unix_ms, level: entry.0, msg: entry.1 },
                ),
            }
        }),
{
}

/// An unknown cause is looked at again with every sample of an extra probe: a connection
/// that is up again gives it up; where there is still no evidence it goes on waiting;
/// with evidence that one entry is amended and the wait is over.
pub proof fn law_cause_is_amended_by_evidence(a: AppV, i: usize)
    requires
        a.pending_cause_log_idx == Some(i),
        i < a.events.len(),
    ensures
        ({
            let b = a.reconsidered();
            let cause = a.cause(
                if a.state == LinkState::Down {
                    DesiredState::Down
                } else {
                    DesiredState::Degraded
                },
            );
            &&& a.state == LinkState::Up ==> b.pending_cause_log_idx is None && b.events
                == a.events
            &&& a.state != LinkState::Up && cause == PathCause::Unknown ==> b == a
            &&& a.state != LinkState::Up && cause != PathCause::Unknown ==> {
                &&& b.pending_cause_log_idx is None
                &&& b.events.len() == a.events.len()
                &&& b.events[i as int].ts == a.events[i as int].ts
                &&& b.events[i as int].level == a.events[i as int].level
                &&& b.events[i as int].msg == amended(a.events[i as int].msg, cause_text(cause))
                &&& forall|k: int|
                    0 <= k < a.events.len() && k != i ==> #[trigger] b.events[k] == a.events[k]
            }
        }),
{
}

/// An amended entry: the new cause stands in the place of the old one, from the first
/// "cause: " to the first note sign behind it. A text without a cause is left alone.
pub proof fn law_amendment_replaces_the_cause(
    head: Seq<char>,
    was: Seq<char>,
    tail: Seq<char>,
    word: Seq<char>,
)
    requires
        first_at(head + "cause: "@ + was + "  ♪"@ + tail, "cause: "@, 0, head.len() as int),
        first_at(
            head + "cause: "@ + was + "  ♪"@ + tail,
            "  ♪"@,
            head.len() as int,
            (head + "cause: "@ + was).len() as int,
        ),
    ensures
        amended(head + "cause: "@ + was + "  ♪"@ + tail, word) == head + "cause: "@ + word
            + "  (cause updated)  "@ + "  ♪"@ + tail,
{
    let msg = head + "cause: "@ + was + "  ♪"@ + tail;
    let at = head.len() as int;
    let k = (head + "cause: "@ + was).len() as int;
    lemma_position_is_first(msg, "cause: "@, 0, at);
    lemma_position_is_first(msg, "  ♪"@, at, k);
    assert(msg.take(at) =~= head);
    assert(msg.skip(k) =~= "  ♪"@ + tail);
    assert(amended(msg, word) =~= head + "cause: "@ + word + "  (cause updated)  "@ + "  ♪"@
        + tail);
}

/// A text in which no cause stands is not amended.
pub proof fn law_no_cause_no_amendment(msg: Seq<char>, word: Seq<char>)
    requires
        forall|i: int| !#[trigger] occurs_at(msg, "cause: "@, i),
    ensures
        amended(msg, word) == msg,
{
}

proof fn lemma_position_is_first(s: Seq<char>, needle: Seq<char>, from: int, at: int)
    requires
        first_at(s, needle, from, at),
    ensures
        position(s, needle, from) == Some(at),
{
    let i = choose|i: int| first_at(s, needle, from, i);
    assert(first_at(s, needle, from, i));
    if i < at {
        assert(!occurs_at(s, needle, i));
    } else if at < i {
        assert(!occurs_at(s, needle, at));
    }
}

/// The probe of the user that watches a host is the first one for it, the probe of ours
/// left aside; where there is none, none is found.
pub proof fn law_user_probe_is_the_first(extras: Seq<ExtraV>, host: Seq<char>, skip: Option<usize>)
    ensures
        match user_probe(extras, host, skip) {
            Some(i) => {
                &&& 0 <= i < extras.len() && extras[i].host == host
                &&& skip matches Some(k) ==> k != i
                &&& forall|j: int|
                    0 <= j < i && (#[trigger] extras[j]).host == host ==> (skip matches Some(k)
                        && k == j)
            },
            None => forall|j: int|
                0 <= j < extras.len() && (#[trigger] extras[j]).host == host ==> (skip matches Some(
                    k,
                ) && k == j),
        },
    decreases extras.len(),
{
    if extras.len() > 0 {
        let d = extras.drop_last();
        let last = extras.len() - 1;
        law_user_probe_is_the_first(d, host, skip);
        assert(extras[last] == extras.last());
        assert forall|j: int| 0 <= j < d.len() implies #[trigger] extras[j] == d[j] by {}
        if user_probe(d, host, skip) is None {
            assert forall|j: int| 0 <= j < last && (#[trigger] extras[j]).host == host implies (
            skip matches Some(k) && k == j) by {
                assert(d[j].host == host);
            }
        } else {
            let i = user_probe(d, host, skip)->0;
            assert forall|j: int| 0 <= j < i && (#[trigger] extras[j]).host == host implies (
            skip matches Some(k) && k == j) by {
                assert(d[j].host == host);
            }
        }
    }
}

/// A gateway that no probe of the user watches is watched by a probe of ours. Where there
/// is one, it follows the gateway: a new host starts it over under its label and port,
/// and the change is reported; the same host leaves it as it is. Where there is none, one
/// is added behind the others. No other probe is touched.
pub proof fn law_own_probe_follows_the_gateway(a: AppV, gw: Seq<char>)
    requires
        a.extras.len() < usize::MAX,
        forall|j: int|
            0 <= j < a.extras.len() && (#[trigger] a.extras[j]).host == gw ==> (
            a.auto_gw_idx matches Some(k) && k == j),
    ensures
        ({
            let b = a.with_gateway(gw);
            let r = a.gateway_report(gw);
            let n = a.extras.len();
            match a.auto_gw_idx {
                Some(k) => k < n ==> {
                    &&& b.gw_role == GatewayRole::AutoExtra(k) && b.gateway_probe_idx == Some(k)
                    &&& b.auto_gw_idx == a.auto_gw_idx
                    &&& b.extras.len() == n && b.extras[k as int].host == gw
                    &&& forall|i: int|
                        0 <= i < n && i != k ==> #[trigger] b.extras[i] == a.extras[i]
                    &&& a.extras[k as int].host == gw ==> b.extras == a.extras && r
                        == UpdateV::Unchanged
                    &&& a.extras[k as int].host != gw ==> {
                        let e = b.extras[k as int];
                        &&& e.label == a.extras[k as int].label && e.port
                            == a.extras[k as int].port
                        &&& e.total == 0 && e.lost == 0 && e.consec_loss == 0 && e.last is None
                        &&& e.last_sample_at is None && e.state == LinkState::Up
                        &&& r == UpdateV::Updated { was: a.extras[k as int].host, now: gw }
                    }
                },
                None => {
                    &&& b.extras.len() == n + 1 && b.extras.drop_last() == a.extras
                    &&& b.extras[n as int].host == gw && b.extras[n as int].port == 80
                        && b.extras[n as int].label == "gw"@ && b.extras[n as int].total == 0
                    &&& b.auto_gw_idx == Some(n as usize) && b.gateway_probe_idx == Some(
                        n as usize,
                    ) && b.gw_role == GatewayRole::AutoExtra(n as usize)
                    &&& r == UpdateV::Added { idx: n as int }
                },
            }
        }),
{
    law_user_probe_is_the_first(a.extras, gw, a.auto_gw_idx);
    assert(a.with_gateway(gw).extras.drop_last() =~= a.extras || a.auto_gw_idx is Some);
}

/// A reading of the signal is kept as it is with its grade, and touches nothing but the log.
/// A signal that comes is news, a weak one a warning; one that goes is a warning; a better
/// grade is good news, a worse one a warning.
pub proof fn law_wifi_changes_are_told(a: AppV, rssi: Option<i16>, unix_ms: u64)
    requires
        a.events.len() < 24,
    ensures
        ({
            let b = a.with_wifi(rssi, unix_ms);
            let g = b.wifi_grade;
            let entry = b.events.last();
            &&& b.wifi_rssi == rssi
            &&& g is Some <==> rssi is Some
            &&& b.state == a.state && b.primaries == a.primaries && b.extras == a.extras
            &&& g == a.wifi_grade ==> b.events == a.events
            &&& g != a.wifi_grade ==> b.events.len() == a.events.len() + 1 && entry.ts == unix_ms
            &&& g != a.wifi_grade && g is Some && a.wifi_grade is Some ==> entry.level == (
            if a.wifi_grade->0 < g->0 {
                Level::Good
            } else {
                Level::Warn
            })
            &&& a.wifi_grade is None && g is Some ==> entry.level == (if g->0 < 2 {
                Level::Warn
            } else {
                Level::Info
            })
            &&& a.wifi_grade is Some && g is None ==> entry.level == Level::Warn
        }),
{
}

/// A reminder is due exactly while the connection is not up and none was given for as long
/// as the interval between two.
pub proof fn law_reminder_waits_for_the_interval(a: AppV, now: Instant)
    ensures
        a.reminder_is_due(now) <==> a.state != LinkState::Up && (a.last_reminder matches Some(t)
            ==> a.cfg.reminder_interval.ns == 0 || now.ns - t.ns >= a.cfg.reminder_interval.ns),
{
}

/// An answer changes its own cell alone, and is judged by the thresholds of before it. One
/// for a cell that does not exist changes nothing.
pub proof fn law_answers_stay_in_their_cell(
    a: AppV,
    r: int,
    d: int,
    ns: Option<u64>,
    unix_ms: u64,
)
    requires
        a.events.len() < 24,
    ensures
        ({
            let b = a.with_answer(r, d, ns, unix_ms);
            let there = 0 <= r < a.dns.cells.len() && 0 <= d < a.dns.cells[r].len();
            let c = b.dns.cells[r][d];
            let was = a.dns.cells[r][d];
            let slow = ns matches Some(v) ==> v > a.dns_warn();
            let dead = ns matches Some(v) ==> v > a.dns_bad();
            &&& b.state == a.state && b.primaries == a.primaries && b.extras == a.extras
            &&& !there ==> b == a
            &&& there ==> {
                &&& b.dns.cells.len() == a.dns.cells.len()
                &&& b.dns.names == a.dns.names && b.dns.resolvers == a.dns.resolvers
                &&& forall|i: int, j: int|
                    0 <= i < a.dns.cells.len() && 0 <= j < a.dns.cells[i].len() && (i != r || j
                        != d) ==> #[trigger] b.dns.cells[i][j] == a.dns.cells[i][j]
                &&& c.last == ns
                &&& c.ring == was.ring.pushed(ns)
                &&& ns is None ==> c.stat == was.stat
                &&& ns is Some ==> c.stat == was.stat.added(ns->0)
                &&& c.state == LinkState::Down <==> dead
                &&& c.state == LinkState::Up <==> !dead && !slow
                &&& !dead && !slow ==> b.events == a.events
                &&& dead || slow ==> b.events.len() == a.events.len() + 1 && b.events.last().ts
                    == unix_ms && b.events.last().level == (if dead {
                    Level::Bad
                } else {
                    Level::Warn
                })
            }
        }),
{
}

} // verus!
