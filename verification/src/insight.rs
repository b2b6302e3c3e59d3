//! Probable-cause diagnosis from live metrics.
//!
//! Each rule inspects the monitor and speaks up when its pattern matches. Rules
//! stand in order of priority (local causes first, then upstream, then DNS); the
//! first three that match are shown.
use vstd::prelude::*;
use crate::app::{elapsed_secs, lost_of, total_of, App, AppV, Level};
use crate::dns::{law_worst_is_the_slowest, row_view, worst_last, CellV, DnsCell};
use crate::export::{state_text, state_word};
use crate::pool::law_lost_at_most_total;
use crate::probe::{ExtraV, ProbeV};
use crate::round::states_of;
use crate::state::{count_state, law_unanimous_vote, tally, LinkState};
use crate::text::{
    dec, dec_i16, dec_padded, digits, fixed, fixed_text, ms, ms_text, signed_digits, zero_padded,
};
use crate::time::Instant;
use crate::wifi::{rssi_verdict_grade, verdict_of};

verus! {

/// A probable cause with its evidence and what to do about it.
#[derive(Clone)]
pub struct Insight {
    pub severity: Level,
    pub cause: String,
    pub evidence: String,
    pub action: String,
}

/// What an [`Insight`] holds.
#[verifier::ext_equal]
pub struct InsightV {
    pub severity: Level,
    pub cause: Seq<char>,
    pub evidence: Seq<char>,
    pub action: Seq<char>,
}

impl View for Insight {
    type V = InsightV;

    open spec fn view(&self) -> InsightV {
        InsightV {
            severity: self.severity,
            cause: self.cause@,
            evidence: self.evidence@,
            action: self.action@,
        }
    }
}

pub open spec fn insight_view(i: Option<Insight>) -> Option<InsightV> {
    match i {
        Some(x) => Some(x@),
        None => None,
    }
}

pub open spec fn insights_view(s: Seq<Insight>) -> Seq<InsightV> {
    Seq::new(s.len(), |i: int| s[i]@)
}

impl Insight {
    fn new(severity: Level, cause: &str, evidence: String, action: &str) -> (r: Self)
        ensures
            r@ == (InsightV { severity, cause: cause@, evidence: evidence@, action: action@ }),
    {
        Insight {
            severity,
            cause: String::from_str(cause),
            evidence,
            action: String::from_str(action),
        }
    }
}

// ------------------------------------------------------------------ patterns

/// The first extra probe that is down.
pub open spec fn first_down(extras: Seq<ExtraV>) -> Option<ExtraV>
    decreases extras.len(),
{
    if extras.len() == 0 {
        None
    } else {
        match first_down(extras.drop_last()) {
            Some(e) => Some(e),
            None => if extras.last().state == LinkState::Down {
                Some(extras.last())
            } else {
                None
            },
        }
    }
}

/// The targets that are not up.
pub open spec fn failing(ps: Seq<ProbeV>) -> Seq<ProbeV>
    decreases ps.len(),
{
    if ps.len() == 0 {
        Seq::empty()
    } else if ps.last().state != LinkState::Up {
        failing(ps.drop_last()).push(ps.last())
    } else {
        failing(ps.drop_last())
    }
}

/// No name was answered.
pub open spec fn row_fails(row: Seq<CellV>) -> bool {
    forall|j: int| 0 <= j < row.len() ==> (#[trigger] row[j]).last is None
}

/// The resolver in row `except` left aside, some name was answered by some
/// resolver from row `from` on.
pub open spec fn some_answer(rows: Seq<Seq<CellV>>, from: int, except: int) -> bool {
    exists|i: int| from <= i < rows.len() && i != except && !row_fails(#[trigger] rows[i])
}

/// The name in column `d` fails on every resolver.
pub open spec fn column_fails(rows: Seq<Seq<CellV>>, d: int) -> bool {
    forall|i: int|
        0 <= i < rows.len() ==> d < (#[trigger] rows[i]).len() && rows[i][d].last is None
}

/// Some resolver answers the name in column `d`.
pub open spec fn column_answers(rows: Seq<Seq<CellV>>, d: int) -> bool {
    exists|i: int|
        0 <= i < rows.len() && d < (#[trigger] rows[i]).len() && rows[i][d].last is Some
}

/// Another name than that in column `d` is answered.
pub open spec fn other_column_answers(rows: Seq<Seq<CellV>>, d: int, cols: nat) -> bool {
    exists|x: int| 0 <= x < cols && x != d && #[trigger] column_answers(rows, x)
}

/// Column `d` alone fails.
pub open spec fn name_is_dead(rows: Seq<Seq<CellV>>, d: int, cols: nat) -> bool {
    column_fails(rows, d) && other_column_answers(rows, d, cols)
}

/// The first of the first `n` columns that alone fails.
pub open spec fn first_dead_name(rows: Seq<Seq<CellV>>, cols: nat, n: nat) -> Option<int>
    decreases n,
{
    if n == 0 {
        None
    } else {
        match first_dead_name(rows, cols, (n - 1) as nat) {
            Some(d) => Some(d),
            None => if name_is_dead(rows, n - 1, cols) {
                Some(n - 1)
            } else {
                None
            },
        }
    }
}

/// The resolver in row `i`, not the system's, fails while another answers.
pub open spec fn resolver_is_dead(rows: Seq<Seq<CellV>>, i: int) -> bool {
    i > 0 && rows[i].len() > 0 && row_fails(rows[i]) && some_answer(rows, 0, i)
}

/// The first of the first `n` resolvers that fails while another answers.
pub open spec fn first_dead_resolver(rows: Seq<Seq<CellV>>, n: nat) -> Option<int>
    decreases n,
{
    if n == 0 {
        None
    } else {
        match first_dead_resolver(rows, (n - 1) as nat) {
            Some(i) => Some(i),
            None => if resolver_is_dead(rows, n - 1) {
                Some(n - 1)
            } else {
                None
            },
        }
    }
}

/// Hours, minutes and seconds, two digits each at least.
pub open spec fn hms_text(secs: nat) -> Seq<char> {
    zero_padded(secs / 3600, 2) + ":"@ + zero_padded(secs % 3600 / 60, 2) + ":"@ + zero_padded(
        secs % 60,
        2,
    )
}

pub fn hms(secs: u64) -> (s: String)
    ensures
        s@ == hms_text(secs as nat),
{
    let mut s = dec_padded((secs / 3600) as u128, 2);
    s.append(":");
    s.append(dec_padded((secs % 3600 / 60) as u128, 2).as_str());
    s.append(":");
    s.append(dec_padded((secs % 60) as u128, 2).as_str());
    s
}

impl AppV {
    /// There are targets, and all of them are down.
    pub open spec fn all_down(self) -> bool {
        self.primaries.len() > 0 && forall|i: int|
            0 <= i < self.primaries.len() ==> (#[trigger] self.primaries[i]).state
                == LinkState::Down
    }

    pub open spec fn any_up(self) -> bool {
        exists|i: int|
            0 <= i < self.primaries.len() && (#[trigger] self.primaries[i]).state == LinkState::Up
    }

    /// "down/all targets lost"
    pub open spec fn lost_targets_text(self) -> Seq<char> {
        digits(tally(states_of(self.primaries), LinkState::Down)) + "/"@ + digits(
            self.primaries.len(),
        ) + " targets lost"@
    }

    pub open spec fn wifi_is_weak(self) -> bool {
        self.wifi_grade is Some && self.wifi_grade->0 <= 1
    }

    /// The pooled loss reaches the threshold of a degraded link.
    pub open spec fn loss_is_high(self) -> bool {
        if total_of(self.primaries) == 0 {
            self.cfg.degraded_loss_ppm == 0
        } else {
            lost_of(self.primaries) * 1_000_000 >= self.cfg.degraded_loss_ppm * total_of(
                self.primaries,
            )
        }
    }

    pub open spec fn loss_text(self, places: nat) -> Seq<char> {
        fixed_text(self.loss().num as nat, self.loss().den as nat, places)
    }
}

// --------------------------------------------------------------------- rules

impl AppV {
    /// All targets down and a probe of the local network too: the failure is on
    /// the local side.
    pub open spec fn says_router_down(self) -> Option<InsightV> {
        match first_down(self.extras) {
            Some(gw) => if self.all_down() {
                Some(
                    InsightV {
                        severity: Level::Bad,
                        cause: "local router/gateway down"@,
                        evidence: self.lost_targets_text() + " · "@ + gw.label + " also down"@,
                        action: "reboot router / check cabling — the LAN itself is failing"@,
                    },
                )
            } else {
                None
            },
            None => None,
        }
    }

    /// The link is in trouble while the signal is weak.
    pub open spec fn says_wifi_weak(self) -> Option<InsightV> {
        if self.wifi_is_weak() && self.state != LinkState::Up {
            Some(
                InsightV {
                    severity: if self.state == LinkState::Down {
                        Level::Bad
                    } else {
                        Level::Warn
                    },
                    cause: "weak Wi-Fi signal"@,
                    evidence: signed_digits(
                        match self.wifi_rssi {
                            Some(r) => r as int,
                            None => 0,
                        },
                    ) + " dBm ("@ + verdict_of(self.wifi_grade->0) + ") while link "@ + state_text(
                        self.state,
                    ),
                    action: "move closer to the AP / reduce interference"@,
                },
            )
        } else {
            None
        }
    }

    /// All targets down while the local side looks fine: the outage is upstream.
    pub open spec fn says_isp_outage(self) -> Option<InsightV> {
        if self.all_down() && !self.wifi_is_weak() && first_down(self.extras) is None {
            Some(
                InsightV {
                    severity: Level::Bad,
                    cause: "upstream outage (ISP / cell tower)"@,
                    evidence: self.lost_targets_text() + (match (self.wifi_rssi, self.wifi_grade) {
                        (Some(r), Some(g)) => " · wifi "@ + verdict_of(g) + " ("@ + signed_digits(
                            r as int,
                        ) + " dBm)"@,
                        _ => Seq::empty(),
                    }),
                    action: "wait it out or call your ISP — your local side looks fine"@,
                },
            )
        } else {
            None
        }
    }

    /// Degraded by latency and not by loss: congestion upstream.
    pub open spec fn says_congestion(self) -> Option<InsightV> {
        match self.last_value() {
            Some(lat) => if self.state == LinkState::Degraded && lat > self.lat_warn()
                && !self.loss_is_high() {
                Some(
                    InsightV {
                        severity: Level::Warn,
                        cause: "upstream congestion / tower saturation"@,
                        evidence: "latency "@ + ms_text(lat as nat, 0) + "ms > warn "@ + ms_text(
                            self.lat_warn(),
                            0,
                        ) + "ms · loss "@ + self.loss_text(0) + "%"@,
                        action: "heavy load upstream — usually temporary"@,
                    },
                )
            } else {
                None
            },
            None => None,
        }
    }

    /// The system's resolver fails on every name while others answer.
    pub open spec fn says_sys_dns_dead(self) -> Option<InsightV> {
        let rows = self.dns.cells;
        if rows.len() > 0 && rows[0].len() > 0 && row_fails(rows[0]) && some_answer(rows, 1, 0) {
            Some(
                InsightV {
                    severity: Level::Bad,
                    cause: "system DNS resolver down"@,
                    evidence: "sys failing · alternates OK"@,
                    action: "switch DNS to 1.1.1.1 / 8.8.8.8 — router forwarder likely dead"@,
                },
            )
        } else {
            None
        }
    }

    /// Every resolver fails while pings still work.
    pub open spec fn says_dns_blocked(self) -> Option<InsightV> {
        if self.dns.cells.len() > 0 && !some_answer(self.dns.cells, 0, -1) && self.any_up() {
            Some(
                InsightV {
                    severity: Level::Bad,
                    cause: "all DNS failing but pings OK"@,
                    evidence: "full matrix down · targets reachable"@,
                    action: "UDP 53 likely filtered upstream"@,
                },
            )
        } else {
            None
        }
    }

    /// Much is lost while the link is not down.
    pub open spec fn says_packet_loss(self) -> Option<InsightV> {
        if self.state != LinkState::Down && self.loss_is_high() {
            Some(
                InsightV {
                    severity: Level::Warn,
                    cause: "packet loss "@ + self.loss_text(0) + "%"@,
                    evidence: digits(lost_of(self.primaries)) + "/"@ + digits(
                        total_of(self.primaries),
                    ) + " probes lost (pooled)"@,
                    action: "check physical medium / Wi-Fi interference"@,
                },
            )
        } else {
            None
        }
    }

    /// The jitter exceeds its threshold while the link is not down.
    pub open spec fn says_jitter_high(self) -> Option<InsightV> {
        match self.jitter() {
            Some(jit) => if self.state != LinkState::Down && 2 * jit > self.jit_warn_twice() {
                Some(
                    InsightV {
                        severity: Level::Warn,
                        cause: "unstable link (high jitter)"@,
                        evidence: "jitter "@ + ms_text(jit as nat, 0) + "ms > warn "@
                            + fixed_text(self.jit_warn_twice(), 2_000_000, 0) + "ms"@,
                        action: "voice/video will stutter — check Wi-Fi or upstream load"@,
                    },
                )
            } else {
                None
            },
            None => None,
        }
    }

    /// The latency exceeds its threshold while the link is still up.
    pub open spec fn says_latency_creep(self) -> Option<InsightV> {
        match self.last_value() {
            Some(lat) => if self.state == LinkState::Up && lat > self.lat_warn() {
                Some(
                    InsightV {
                        severity: Level::Warn,
                        cause: "latency elevated"@,
                        evidence: "median "@ + ms_text(lat as nat, 0) + "ms > warn "@ + ms_text(
                            self.lat_warn(),
                            0,
                        ) + "ms"@,
                        action: "possible queue saturation — check for heavy uploads"@,
                    },
                )
            } else {
                None
            },
            None => None,
        }
    }

    /// One name fails on every resolver while others are answered.
    pub open spec fn says_domain_down(self) -> Option<InsightV> {
        match first_dead_name(self.dns.cells, self.dns.names.len(), self.dns.names.len()) {
            Some(d) => if self.dns.cells.len() > 0 {
                Some(
                    InsightV {
                        severity: Level::Info,
                        cause: "site unreachable: "@ + self.dns.names[d],
                        evidence: "fails on every resolver"@,
                        action: "that site is down — not your connection"@,
                    },
                )
            } else {
                None
            },
            None => None,
        }
    }

    /// One resolver, not the system's, fails while others answer.
    pub open spec fn says_resolver_down(self) -> Option<InsightV> {
        match first_dead_resolver(self.dns.cells, self.dns.cells.len()) {
            Some(i) => Some(
                InsightV {
                    severity: Level::Warn,
                    cause: "resolver "@ + self.dns.resolvers[i].0 + " unreachable"@,
                    evidence: "whole row failing · alternates OK"@,
                    action: "may be blocked upstream — alternates cover you"@,
                },
            ),
            None => None,
        }
    }

    /// The system's resolver answers slowly.
    pub open spec fn says_dns_slow(self) -> Option<InsightV> {
        match self.resolver_worst() {
            Some(worst) => if worst > self.dns_warn() {
                Some(
                    InsightV {
                        severity: Level::Warn,
                        cause: "slow DNS"@,
                        evidence: "system resolver "@ + ms_text(worst as nat, 0) + "ms > warn "@
                            + ms_text(self.dns_warn(), 0) + "ms"@,
                        action: "browsing feels heavy though ping is fine"@,
                    },
                )
            } else {
                None
            },
            None => None,
        }
    }

    /// Exactly one target fails while the link is up.
    pub open spec fn says_single_target_bad(self) -> Option<InsightV> {
        let bad = failing(self.primaries);
        if self.state == LinkState::Up && bad.len() == 1 {
            Some(
                InsightV {
                    severity: Level::Info,
                    cause: "target "@ + bad[0].label + " "@ + state_text(bad[0].state),
                    evidence: "other targets healthy"@,
                    action: "problem is on that target's side, not yours"@,
                },
            )
        } else {
            None
        }
    }

    /// Nothing is wrong.
    pub open spec fn says_healthy(self, now: Instant) -> InsightV {
        InsightV {
            severity: Level::Good,
            cause: "link healthy"@,
            evidence: "uptime "@ + hms_text(elapsed_secs(self.up_since, now)) + " · score "@
                + fixed_text(self.quality().num as nat, self.quality().den as nat, 0)
                + "/100 · loss "@
                + self.loss_text(1) + "%"@,
            action: "all metrics nominal"@,
        }
    }

    /// All rules, by priority.
    pub open spec fn rules(self) -> Seq<Option<InsightV>> {
        seq![
            self.says_router_down(),
            self.says_wifi_weak(),
            self.says_isp_outage(),
            self.says_congestion(),
            self.says_sys_dns_dead(),
            self.says_dns_blocked(),
            self.says_packet_loss(),
            self.says_jitter_high(),
            self.says_latency_creep(),
            self.says_domain_down(),
            self.says_resolver_down(),
            self.says_dns_slow(),
            self.says_single_target_bad(),
        ]
    }

    /// The diagnosis: what the first three matching rules say, or that all is well.
    pub open spec fn diagnosis(self, now: Instant) -> Seq<InsightV> {
        let said = first_said(self.rules(), 3);
        if said.len() == 0 {
            seq![self.says_healthy(now)]
        } else {
            said
        }
    }
}

/// What the first rules that match say, `cap` of them at most.
pub open spec fn first_said(rules: Seq<Option<InsightV>>, cap: nat) -> Seq<InsightV>
    decreases rules.len(),
{
    if rules.len() == 0 {
        Seq::empty()
    } else {
        let before = first_said(rules.drop_last(), cap);
        match rules.last() {
            Some(i) => if before.len() < cap {
                before.push(i)
            } else {
                before
            },
            None => before,
        }
    }
}

// ----------------------------------------------------------------- execution

/// Whether no name of a row was answered.
pub fn row_has_no_answer(row: &Vec<DnsCell>) -> (r: bool)
    ensures
        r == row_fails(row_view(*row)),
{
    let mut i: usize = 0;
    while i < row.len()
        invariant
            i <= row.len(),
            forall|j: int| 0 <= j < i ==> (#[trigger] row_view(*row)[j]).last is None,
        decreases row.len() - i,
    {
        if row[i].last.is_some() {
            proof {
                assert(row_view(*row)[i as int].last is Some);
            }
            return false;
        }
        i = i + 1;
    }
    true
}

impl App {
    fn all_primaries_down(&self) -> (r: bool)
        ensures
            r == self@.all_down(),
    {
        let mut i: usize = 0;
        while i < self.primaries.len()
            invariant
                i <= self.primaries.len(),
                forall|k: int|
                    0 <= k < i ==> (#[trigger] self@.primaries[k]).state == LinkState::Down,
            decreases self.primaries.len() - i,
        {
            if self.primaries[i].state != LinkState::Down {
                proof {
                    assert(self@.primaries[i as int].state != LinkState::Down);
                }
                return false;
            }
            i = i + 1;
        }
        self.primaries.len() > 0
    }

    fn any_primary_up(&self) -> (r: bool)
        ensures
            r == self@.any_up(),
    {
        let mut i: usize = 0;
        while i < self.primaries.len()
            invariant
                i <= self.primaries.len(),
                forall|k: int|
                    0 <= k < i ==> (#[trigger] self@.primaries[k]).state != LinkState::Up,
            decreases self.primaries.len() - i,
        {
            if self.primaries[i].state == LinkState::Up {
                proof {
                    assert(self@.primaries[i as int].state == LinkState::Up);
                }
                return true;
            }
            i = i + 1;
        }
        false
    }

    fn lost_targets(&self) -> (s: String)
        ensures
            s@ == self@.lost_targets_text(),
    {
        let mut s = dec(self.down_count() as u128);
        s.append("/");
        s.append(dec(self.primaries.len() as u128).as_str());
        s.append(" targets lost");
        s
    }

    fn first_extra_down(&self) -> (r: Option<usize>)
        ensures
            match r {
                Some(i) => i < self.extras.len() && first_down(self@.extras) == Some(
                    self@.extras[i as int],
                ),
                None => first_down(self@.extras) is None,
            },
    {
        let mut found: Option<usize> = None;
        let mut i: usize = 0;
        let ghost es = self@.extras;
        while i < self.extras.len()
            invariant
                i <= self.extras.len(),
                es == self@.extras,
                match found {
                    Some(k) => k < i && first_down(es.take(i as int)) == Some(es[k as int]),
                    None => first_down(es.take(i as int)) is None,
                },
            decreases self.extras.len() - i,
        {
            proof {
                assert(es.take(i + 1).drop_last() =~= es.take(i as int));
            }
            if found.is_none() && self.extras[i].state == LinkState::Down {
                found = Some(i);
            }
            i = i + 1;
        }
        proof {
            assert(es.take(i as int) =~= es);
        }
        found
    }

    fn answered(&self, from: usize, except: Option<usize>) -> (r: bool)
        ensures
            r == some_answer(
                self@.dns.cells,
                from as int,
                match except {
                    Some(k) => k as int,
                    None => -1,
                },
            ),
    {
        let mut i: usize = from;
        let ghost rows = self@.dns.cells;
        let ghost ex = match except {
            Some(k) => k as int,
            None => -1,
        };
        while i < self.dns.cells.len()
            invariant
                from <= i,
                rows == self@.dns.cells,
                ex == (match except {
                    Some(k) => k as int,
                    None => -1,
                }),
                forall|k: int|
                    from <= k < i && k < rows.len() && k != ex ==> row_fails(#[trigger] rows[k]),
            decreases self.dns.cells.len() - i,
        {
            let skip = match except {
                Some(k) => k == i,
                None => false,
            };
            if !skip && !row_has_no_answer(&self.dns.cells[i]) {
                proof {
                    assert(!row_fails(rows[i as int]));
                }
                return true;
            }
            i = i + 1;
        }
        false
    }

    fn column_has_failed(&self, d: usize) -> (r: bool)
        ensures
            r == column_fails(self@.dns.cells, d as int),
    {
        let mut i: usize = 0;
        let ghost rows = self@.dns.cells;
        while i < self.dns.cells.len()
            invariant
                i <= self.dns.cells.len(),
                rows == self@.dns.cells,
                forall|k: int|
                    0 <= k < i ==> d < (#[trigger] rows[k]).len() && rows[k][d as int].last is None,
            decreases self.dns.cells.len() - i,
        {
            proof {
                assert(rows[i as int].len() == self.dns.cells@[i as int]@.len());
            }
            if d >= self.dns.cells[i].len() || self.dns.cells[i][d].last.is_some() {
                proof {
                    assert(!(d < rows[i as int].len() && rows[i as int][d as int].last is None));
                }
                return false;
            }
            i = i + 1;
        }
        true
    }

    fn column_has_answer(&self, d: usize) -> (r: bool)
        ensures
            r == column_answers(self@.dns.cells, d as int),
    {
        let mut i: usize = 0;
        let ghost rows = self@.dns.cells;
        while i < self.dns.cells.len()
            invariant
                i <= self.dns.cells.len(),
                rows == self@.dns.cells,
                forall|k: int|
                    0 <= k < i ==> !(d < (#[trigger] rows[k]).len()
                        && rows[k][d as int].last is Some),
            decreases self.dns.cells.len() - i,
        {
            proof {
                assert(rows[i as int].len() == self.dns.cells@[i as int]@.len());
            }
            if d < self.dns.cells[i].len() && self.dns.cells[i][d].last.is_some() {
                proof {
                    assert(d < rows[i as int].len() && rows[i as int][d as int].last is Some);
                }
                return true;
            }
            i = i + 1;
        }
        false
    }

    fn other_name_answered(&self, d: usize) -> (r: bool)
        ensures
            r == other_column_answers(self@.dns.cells, d as int, self@.dns.names.len()),
    {
        let mut x: usize = 0;
        while x < self.dns.names.len()
            invariant
                x <= self.dns.names.len(),
                forall|k: int|
                    0 <= k < x && k != d ==> !(#[trigger] column_answers(self@.dns.cells, k)),
            decreases self.dns.names.len() - x,
        {
            if x != d && self.column_has_answer(x) {
                proof {
                    assert(column_answers(self@.dns.cells, x as int));
                }
                return true;
            }
            x = x + 1;
        }
        false
    }

    /// How many targets are down.
    pub fn down_count(&self) -> (n: usize)
        ensures
            n == tally(states_of(self@.primaries), LinkState::Down),
    {
        let states = self.target_states();
        count_state(states.as_slice(), LinkState::Down)
    }

    fn high_loss(&self) -> (r: bool)
        requires
            self.wf(),
        ensures
            r == self@.loss_is_high(),
    {
        let all: u64 = self.pooled_total();
        let lost: u64 = self.pooled_lost();
        let ppm: u64 = self.cfg.degraded_loss_ppm;
        if all == 0 {
            ppm == 0
        } else {
            proof {
                assert(ppm * all <= u64::MAX * u64::MAX) by (nonlinear_arith)
                    requires
                        ppm <= u64::MAX,
                        all <= u64::MAX,
                ;
            }
            (lost as u128) * 1_000_000 >= (ppm as u128) * (all as u128)
        }
    }

    fn loss_string(&self, places: usize) -> (s: String)
        requires
            self.wf(),
            places <= 4,
        ensures
            s@ == self@.loss_text(places as nat),
    {
        let r = self.loss_pct();
        proof {
            law_lost_at_most_total(self@.primaries);
        }
        fixed(r.num, r.den, places)
    }
}

fn router_down(app: &App) -> (r: Option<Insight>)
    ensures
        insight_view(r) == app@.says_router_down(),
{
    if !app.all_primaries_down() {
        return None;
    }
    match app.first_extra_down() {
        Some(i) => {
            let mut ev = app.lost_targets();
            ev.append(" · ");
            ev.append(app.extras[i].label.as_str());
            ev.append(" also down");
            Some(
                Insight::new(
                    Level::Bad,
                    "local router/gateway down",
                    ev,
                    "reboot router / check cabling — the LAN itself is failing",
                ),
            )
        },
        None => None,
    }
}

fn wifi_weak_rule(app: &App) -> (r: Option<Insight>)
    ensures
        insight_view(r) == app@.says_wifi_weak(),
{
    match app.wifi_grade {
        Some(g) => {
            if g > 1 || app.state == LinkState::Up {
                return None;
            }
            let rssi: i16 = match app.wifi_rssi {
                Some(x) => x,
                None => 0,
            };
            let mut ev = dec_i16(rssi);
            ev.append(" dBm (");
            ev.append(rssi_verdict_grade(g));
            ev.append(") while link ");
            ev.append(state_word(app.state));
            Some(
                Insight::new(
                    if app.state == LinkState::Down {
                        Level::Bad
                    } else {
                        Level::Warn
                    },
                    "weak Wi-Fi signal",
                    ev,
                    "move closer to the AP / reduce interference",
                ),
            )
        },
        None => None,
    }
}

fn isp_outage(app: &App) -> (r: Option<Insight>)
    ensures
        insight_view(r) == app@.says_isp_outage(),
{
    let weak = match app.wifi_grade {
        Some(g) => g <= 1,
        None => false,
    };
    if !app.all_primaries_down() || weak || app.first_extra_down().is_some() {
        return None;
    }
    let mut ev = app.lost_targets();
    if let (Some(x), Some(g)) = (app.wifi_rssi, app.wifi_grade) {
        ev.append(" · wifi ");
        ev.append(rssi_verdict_grade(g));
        ev.append(" (");
        ev.append(dec_i16(x).as_str());
        ev.append(" dBm)");
    }
    proof {
        assert(ev@ =~= app@.says_isp_outage()->0.evidence);
    }
    Some(
        Insight::new(
            Level::Bad,
            "upstream outage (ISP / cell tower)",
            ev,
            "wait it out or call your ISP — your local side looks fine",
        ),
    )
}

fn upstream_congestion(app: &App) -> (r: Option<Insight>)
    requires
        app.wf(),
    ensures
        insight_view(r) == app@.says_congestion(),
{
    if app.state != LinkState::Degraded {
        return None;
    }
    match app.last_value_view() {
        Some(lat) => {
            let warn: u128 = app.lat_warn_ms().ns;
            if lat as u128 <= warn || app.high_loss() {
                return None;
            }
            let mut ev = String::from_str("latency ");
            ev.append(ms(lat as u128, 0).as_str());
            ev.append("ms > warn ");
            ev.append(ms(warn, 0).as_str());
            ev.append("ms · loss ");
            ev.append(app.loss_string(0).as_str());
            ev.append("%");
            Some(
                Insight::new(
                    Level::Warn,
                    "upstream congestion / tower saturation",
                    ev,
                    "heavy load upstream — usually temporary",
                ),
            )
        },
        None => None,
    }
}

fn sys_dns_dead(app: &App) -> (r: Option<Insight>)
    ensures
        insight_view(r) == app@.says_sys_dns_dead(),
{
    if app.dns.cells.len() == 0 {
        return None;
    }
    proof {
        assert(app@.dns.cells[0].len() == app.dns.cells@[0]@.len());
    }
    if app.dns.cells[0].len() == 0 || !row_has_no_answer(&app.dns.cells[0]) {
        return None;
    }
    if !app.answered(1, Some(0)) {
        return None;
    }
    Some(
        Insight::new(
            Level::Bad,
            "system DNS resolver down",
            String::from_str("sys failing · alternates OK"),
            "switch DNS to 1.1.1.1 / 8.8.8.8 — router forwarder likely dead",
        ),
    )
}

fn dns_blocked(app: &App) -> (r: Option<Insight>)
    ensures
        insight_view(r) == app@.says_dns_blocked(),
{
    if app.dns.cells.len() == 0 || app.answered(0, None) || !app.any_primary_up() {
        return None;
    }
    Some(
        Insight::new(
            Level::Bad,
            "all DNS failing but pings OK",
            String::from_str("full matrix down · targets reachable"),
            "UDP 53 likely filtered upstream",
        ),
    )
}

fn packet_loss(app: &App) -> (r: Option<Insight>)
    requires
        app.wf(),
    ensures
        insight_view(r) == app@.says_packet_loss(),
{
    if app.state == LinkState::Down || !app.high_loss() {
        return None;
    }
    let mut cause = String::from_str("packet loss ");
    cause.append(app.loss_string(0).as_str());
    cause.append("%");
    let mut ev = dec(app.pooled_lost() as u128);
    ev.append("/");
    ev.append(dec(app.pooled_total() as u128).as_str());
    ev.append(" probes lost (pooled)");
    Some(
        Insight::new(
            Level::Warn,
            cause.as_str(),
            ev,
            "check physical medium / Wi-Fi interference",
        ),
    )
}

fn jitter_high(app: &App) -> (r: Option<Insight>)
    ensures
        insight_view(r) == app@.says_jitter_high(),
{
    if app.state == LinkState::Down {
        return None;
    }
    match app.jitter_view() {
        Some(jit) => {
            let twice: u128 = app.jit_warn_ms().num;
            if 2 * (jit as u128) <= twice {
                return None;
            }
            let mut ev = String::from_str("jitter ");
            ev.append(ms(jit as u128, 0).as_str());
            ev.append("ms > warn ");
            ev.append(fixed(twice, 2_000_000, 0).as_str());
            ev.append("ms");
            Some(
                Insight::new(
                    Level::Warn,
                    "unstable link (high jitter)",
                    ev,
                    "voice/video will stutter — check Wi-Fi or upstream load",
                ),
            )
        },
        None => None,
    }
}

fn latency_creep(app: &App) -> (r: Option<Insight>)
    ensures
        insight_view(r) == app@.says_latency_creep(),
{
    if app.state != LinkState::Up {
        return None;
    }
    match app.last_value_view() {
        Some(lat) => {
            let warn: u128 = app.lat_warn_ms().ns;
            if lat as u128 <= warn {
                return None;
            }
            let mut ev = String::from_str("median ");
            ev.append(ms(lat as u128, 0).as_str());
            ev.append("ms > warn ");
            ev.append(ms(warn, 0).as_str());
            ev.append("ms");
            Some(
                Insight::new(
                    Level::Warn,
                    "latency elevated",
                    ev,
                    "possible queue saturation — check for heavy uploads",
                ),
            )
        },
        None => None,
    }
}

fn domain_down(app: &App) -> (r: Option<Insight>)
    ensures
        insight_view(r) == app@.says_domain_down(),
{
    if app.dns.cells.len() == 0 {
        return None;
    }
    let ghost rows = app@.dns.cells;
    let ghost cols = app@.dns.names.len();
    let mut d: usize = 0;
    while d < app.dns.names.len()
        invariant
            d <= app.dns.names.len(),
            app.dns.cells.len() > 0,
            rows == app@.dns.cells,
            cols == app@.dns.names.len(),
            first_dead_name(rows, cols, d as nat) is None,
        decreases app.dns.names.len() - d,
    {
        if app.column_has_failed(d) && app.other_name_answered(d) {
            let mut cause = String::from_str("site unreachable: ");
            cause.append(app.dns.names[d].as_str());
            proof {
                assert(first_dead_name(rows, cols, (d + 1) as nat) == Some(d as int));
                lemma_first_dead_name(rows, cols, (d + 1) as nat, cols);
            }
            return Some(
                Insight::new(
                    Level::Info,
                    cause.as_str(),
                    String::from_str("fails on every resolver"),
                    "that site is down — not your connection",
                ),
            );
        }
        d = d + 1;
    }
    None
}

proof fn lemma_first_dead_name(rows: Seq<Seq<CellV>>, cols: nat, n: nat, m: nat)
    requires
        n <= m,
        first_dead_name(rows, cols, n) is Some,
    ensures
        first_dead_name(rows, cols, m) == first_dead_name(rows, cols, n),
    decreases m,
{
    if n < m {
        lemma_first_dead_name(rows, cols, n, (m - 1) as nat);
    }
}

proof fn lemma_first_dead_resolver(rows: Seq<Seq<CellV>>, n: nat, m: nat)
    requires
        n <= m,
        first_dead_resolver(rows, n) is Some,
    ensures
        first_dead_resolver(rows, m) == first_dead_resolver(rows, n),
    decreases m,
{
    if n < m {
        lemma_first_dead_resolver(rows, n, (m - 1) as nat);
    }
}

fn resolver_down(app: &App) -> (r: Option<Insight>)
    requires
        app.wf(),
    ensures
        insight_view(r) == app@.says_resolver_down(),
{
    let ghost rows = app@.dns.cells;
    let mut i: usize = 0;
    while i < app.dns.cells.len()
        invariant
            i <= app.dns.cells.len(),
            app.wf(),
            rows == app@.dns.cells,
            first_dead_resolver(rows, i as nat) is None,
        decreases app.dns.cells.len() - i,
    {
        proof {
            assert(rows[i as int].len() == app.dns.cells@[i as int]@.len());
        }
        if i > 0 && app.dns.cells[i].len() > 0 && row_has_no_answer(&app.dns.cells[i])
            && app.answered(0, Some(i)) {
            let mut cause = String::from_str("resolver ");
            cause.append(app.dns.resolvers[i].0.as_str());
            cause.append(" unreachable");
            proof {
                assert(first_dead_resolver(rows, (i + 1) as nat) == Some(i as int));
                lemma_first_dead_resolver(rows, (i + 1) as nat, rows.len());
            }
            return Some(
                Insight::new(
                    Level::Warn,
                    cause.as_str(),
                    String::from_str("whole row failing · alternates OK"),
                    "may be blocked upstream — alternates cover you",
                ),
            );
        }
        i = i + 1;
    }
    None
}

fn dns_slow(app: &App) -> (r: Option<Insight>)
    ensures
        insight_view(r) == app@.says_dns_slow(),
{
    match app.system_resolver_worst() {
        Some(worst) => {
            let warn: u128 = app.dns_warn_ms().ns;
            if worst as u128 <= warn {
                return None;
            }
            let mut ev = String::from_str("system resolver ");
            ev.append(ms(worst as u128, 0).as_str());
            ev.append("ms > warn ");
            ev.append(ms(warn, 0).as_str());
            ev.append("ms");
            Some(
                Insight::new(
                    Level::Warn,
                    "slow DNS",
                    ev,
                    "browsing feels heavy though ping is fine",
                ),
            )
        },
        None => None,
    }
}

fn single_target_bad(app: &App) -> (r: Option<Insight>)
    ensures
        insight_view(r) == app@.says_single_target_bad(),
{
    if app.state != LinkState::Up {
        return None;
    }
    let ghost ps = app@.primaries;
    let mut bad: Vec<usize> = Vec::new();
    let mut i: usize = 0;
    while i < app.primaries.len()
        invariant
            i <= app.primaries.len(),
            ps == app@.primaries,
            bad@.len() == failing(ps.take(i as int)).len(),
            forall|k: int|
                0 <= k < bad@.len() ==> (#[trigger] bad@[k]) < app.primaries.len() && ps[bad@[k] as int]
                    == failing(ps.take(i as int))[k],
        decreases app.primaries.len() - i,
    {
        proof {
            assert(ps.take(i + 1).drop_last() =~= ps.take(i as int));
        }
        if app.primaries[i].state != LinkState::Up {
            bad.push(i);
        }
        i = i + 1;
    }
    proof {
        assert(ps.take(i as int) =~= ps);
    }
    if bad.len() != 1 {
        return None;
    }
    let at: usize = bad[0];
    let mut cause = String::from_str("target ");
    cause.append(app.primaries[at].label.as_str());
    cause.append(" ");
    cause.append(state_word(app.primaries[at].state));
    Some(
        Insight::new(
            Level::Info,
            cause.as_str(),
            String::from_str("other targets healthy"),
            "problem is on that target's side, not yours",
        ),
    )
}

fn healthy(app: &App, now: Instant) -> (r: Insight)
    requires
        app.wf(),
    ensures
        r@ == app@.says_healthy(now),
{
    let mut ev = String::from_str("uptime ");
    ev.append(hms(app.cur_uptime_secs(now)).as_str());
    ev.append(" · score ");
    let score = app.score();
    ev.append(fixed(score.num, score.den, 0).as_str());
    ev.append("/100 · loss ");
    ev.append(app.loss_string(1).as_str());
    ev.append("%");
    Insight::new(Level::Good, "link healthy", ev, "all metrics nominal")
}

/// Keeps what a rule said, up to `cap` of them.
fn keep(out: &mut Vec<Insight>, said: Option<Insight>, cap: usize)
    ensures
        insights_view(final(out)@) == (match insight_view(said) {
            Some(i) => if old(out)@.len() < cap {
                insights_view(old(out)@).push(i)
            } else {
                insights_view(old(out)@)
            },
            None => insights_view(old(out)@),
        }),
{
    if let Some(i) = said {
        if out.len() < cap {
            out.push(i);
            proof {
                assert(insights_view(out@) =~= insights_view(old(out)@).push(i@));
            }
        }
    }
}

/// Diagnoses the monitor as it stands: one to three insights, by priority.
pub fn diagnose(app: &App, now: Instant) -> (out: Vec<Insight>)
    requires
        app.wf(),
    ensures
        insights_view(out@) == app@.diagnosis(now),
        1 <= out@.len() <= 3,
{
    let mut out: Vec<Insight> = Vec::new();
    let ghost rules = app@.rules();
    let ghost v0 = insights_view(out@);
    keep(&mut out, router_down(app), 3);
    let ghost v1 = insights_view(out@);
    keep(&mut out, wifi_weak_rule(app), 3);
    let ghost v2 = insights_view(out@);
    keep(&mut out, isp_outage(app), 3);
    let ghost v3 = insights_view(out@);
    keep(&mut out, upstream_congestion(app), 3);
    let ghost v4 = insights_view(out@);
    keep(&mut out, sys_dns_dead(app), 3);
    let ghost v5 = insights_view(out@);
    keep(&mut out, dns_blocked(app), 3);
    let ghost v6 = insights_view(out@);
    keep(&mut out, packet_loss(app), 3);
    let ghost v7 = insights_view(out@);
    keep(&mut out, jitter_high(app), 3);
    let ghost v8 = insights_view(out@);
    keep(&mut out, latency_creep(app), 3);
    let ghost v9 = insights_view(out@);
    keep(&mut out, domain_down(app), 3);
    let ghost v10 = insights_view(out@);
    keep(&mut out, resolver_down(app), 3);
    let ghost v11 = insights_view(out@);
    keep(&mut out, dns_slow(app), 3);
    let ghost v12 = insights_view(out@);
    keep(&mut out, single_target_bad(app), 3);
    let ghost v13 = insights_view(out@);
    proof {
        assert(v0 =~= first_said(rules.take(0), 3));
        lemma_said(rules, 1, v0, v1);
        lemma_said(rules, 2, v1, v2);
        lemma_said(rules, 3, v2, v3);
        lemma_said(rules, 4, v3, v4);
        lemma_said(rules, 5, v4, v5);
        lemma_said(rules, 6, v5, v6);
        lemma_said(rules, 7, v6, v7);
        lemma_said(rules, 8, v7, v8);
        lemma_said(rules, 9, v8, v9);
        lemma_said(rules, 10, v9, v10);
        lemma_said(rules, 11, v10, v11);
        lemma_said(rules, 12, v11, v12);
        lemma_said(rules, 13, v12, v13);
        assert(rules.take(13) =~= rules);
        law_at_most(rules, 3);
    }
    if out.len() == 0 {
        out.push(healthy(app, now));
        proof {
            assert(insights_view(out@) =~= seq![app@.says_healthy(now)]);
        }
    }
    out
}

proof fn lemma_said(
    rules: Seq<Option<InsightV>>,
    n: int,
    before: Seq<InsightV>,
    after: Seq<InsightV>,
)
    requires
        0 < n <= rules.len(),
        before == first_said(rules.take(n - 1), 3),
        after == (match rules[n - 1] {
            Some(i) => if before.len() < 3 {
                before.push(i)
            } else {
                before
            },
            None => before,
        }),
    ensures
        after == first_said(rules.take(n), 3),
{
    assert(rules.take(n).drop_last() =~= rules.take(n - 1));
}

/// No more is said than asked for, and nothing only when no rule matches.
pub proof fn law_at_most(rules: Seq<Option<InsightV>>, cap: nat)
    requires
        cap > 0,
    ensures
        first_said(rules, cap).len() <= cap,
        first_said(rules, cap).len() == 0 <==> forall|i: int|
            0 <= i < rules.len() ==> (#[trigger] rules[i]) is None,
    decreases rules.len(),
{
    if rules.len() > 0 {
        law_at_most(rules.drop_last(), cap);
        assert(rules.last() == rules[rules.len() - 1]);
        assert forall|i: int| 0 <= i < rules.len() - 1 implies rules.drop_last()[i]
            == #[trigger] rules[i] by {}
    }
}

/// A dead gateway and an outage upstream are never diagnosed together.
pub proof fn law_router_or_upstream(a: AppV)
    ensures
        !(a.says_router_down() is Some && a.says_isp_outage() is Some),
        !(a.says_wifi_weak() is Some && a.says_isp_outage() is Some),
        !(a.says_sys_dns_dead() is Some && a.says_dns_blocked() is Some),
{
    let rows = a.dns.cells;
    if a.says_sys_dns_dead() is Some {
        let i = choose|i: int| 1 <= i < rows.len() && i != 0 && !row_fails(#[trigger] rows[i]);
        assert(!row_fails(rows[i]));
    }
}

/// The diagnosis says that DNS fails while pings are OK exactly where there is a matrix in
/// which no resolver has an answer to any name, and at least one target is up.
pub proof fn law_dns_is_blocked_only_while_pings_work(a: AppV)
    ensures
        a.says_dns_blocked() is Some <==> {
            &&& a.dns.cells.len() > 0
            &&& forall|i: int, j: int|
                0 <= i < a.dns.cells.len() && 0 <= j < a.dns.cells[i].len() ==> (
                #[trigger] a.dns.cells[i][j]).last is None
            &&& exists|k: int|
                0 <= k < a.primaries.len() && (#[trigger] a.primaries[k]).state == LinkState::Up
        },
{
    let rows = a.dns.cells;
    if !some_answer(rows, 0, -1) {
        assert forall|i: int, j: int| 0 <= i < rows.len() && 0 <= j < rows[i].len() implies (
        #[trigger] rows[i][j]).last is None by {
            assert(row_fails(rows[i]));
        }
    } else {
        let i = choose|i: int| 0 <= i < rows.len() && i != -1 && !row_fails(#[trigger] rows[i]);
        let j = choose|j: int| 0 <= j < rows[i].len() && (#[trigger] rows[i][j]).last is Some;
        assert(rows[i][j].last is Some);
    }
}

/// A gateway is blamed exactly where there are targets, all of them are down, and an extra
/// probe is down too; the outage is put upstream exactly where all targets are down, no
/// extra probe is, and the signal is not weak.
pub proof fn law_outage_is_local_or_upstream(a: AppV)
    ensures
        ({
            let all_down = a.primaries.len() > 0 && forall|i: int|
                0 <= i < a.primaries.len() ==> (#[trigger] a.primaries[i]).state
                    == LinkState::Down;
            let local = exists|i: int|
                0 <= i < a.extras.len() && (#[trigger] a.extras[i]).state == LinkState::Down;
            let weak = a.wifi_grade matches Some(g) && g < 2;
            &&& a.says_router_down() is Some <==> all_down && local
            &&& a.says_isp_outage() is Some <==> all_down && !local && !weak
        }),
{
    lemma_first_down(a.extras);
}

proof fn lemma_first_down(extras: Seq<ExtraV>)
    ensures
        first_down(extras) is None ==> forall|i: int|
            0 <= i < extras.len() ==> (#[trigger] extras[i]).state != LinkState::Down,
        first_down(extras) matches Some(e) ==> exists|i: int|
            0 <= i < extras.len() && (#[trigger] extras[i]) == e && e.state == LinkState::Down
                && forall|j: int| 0 <= j < i ==> (#[trigger] extras[j]).state != LinkState::Down,
    decreases extras.len(),
{
    if extras.len() > 0 {
        let d = extras.drop_last();
        lemma_first_down(d);
        assert forall|i: int| 0 <= i < d.len() implies #[trigger] extras[i] == d[i] by {}
        match first_down(d) {
            Some(e) => {
                let i = choose|i: int|
                    0 <= i < d.len() && (#[trigger] d[i]) == e && e.state == LinkState::Down
                        && forall|j: int|
                        0 <= j < i ==> (#[trigger] d[j]).state != LinkState::Down;
                assert(extras[i] == e);
                assert forall|j: int| 0 <= j < i implies (#[trigger] extras[j]).state
                    != LinkState::Down by {
                    assert(d[j].state != LinkState::Down);
                }
            },
            None => {
                let last = extras.len() - 1;
                assert forall|j: int| 0 <= j < last implies (#[trigger] extras[j]).state
                    != LinkState::Down by {
                    assert(d[j].state != LinkState::Down);
                }
                assert(extras[last] == extras.last());
            },
        }
    }
}

/// The probe that a dead gateway is blamed on is the first one that is down.
pub proof fn law_first_probe_that_is_down(extras: Seq<ExtraV>, k: int)
    requires
        0 <= k < extras.len(),
        extras[k].state == LinkState::Down,
        forall|i: int| 0 <= i < k ==> (#[trigger] extras[i]).state != LinkState::Down,
    ensures
        first_down(extras) == Some(extras[k]),
{
    lemma_first_down(extras);
}

/// A weak signal is blamed exactly where its grade is 0 or 1 and the connection is not up;
/// the blame is grave where the connection is down.
pub proof fn law_weak_signal_is_blamed_in_trouble(a: AppV)
    ensures
        a.says_wifi_weak() is Some <==> (a.wifi_grade matches Some(g) && g < 2) && a.state
            != LinkState::Up,
        a.says_wifi_weak() matches Some(i) ==> i.severity == (if a.state == LinkState::Down {
            Level::Bad
        } else {
            Level::Warn
        }),
{
}

/// Of the pooled probes so many are lost that the link counts as degraded.
pub open spec fn many_are_lost(a: AppV) -> bool {
    lost_of(a.primaries) * 1_000_000 >= a.cfg.degraded_loss_ppm * total_of(a.primaries)
}

/// Latency above its threshold is congestion while the connection is degraded and not much
/// is lost, and a creeping latency while it is up; loss is told of unless the connection
/// is down, and so is a jitter above its threshold.
pub proof fn law_latency_loss_and_jitter(a: AppV)
    requires
        total_of(a.primaries) > 0,
    ensures
        ({
            let slow = a.last_value() matches Some(v) && v > a.lat_warn();
            &&& a.says_congestion() is Some <==> slow && a.state == LinkState::Degraded
                && !many_are_lost(a)
            &&& a.says_latency_creep() is Some <==> slow && a.state == LinkState::Up
            &&& a.says_packet_loss() is Some <==> many_are_lost(a) && a.state != LinkState::Down
            &&& a.says_jitter_high() is Some <==> (a.jitter() matches Some(j) && 2 * j
                > a.jit_warn_twice()) && a.state != LinkState::Down
        }),
{
}

/// Before the first probe nothing is lost, so loss is told of only where the limit is
/// zero.
pub proof fn law_no_probes_no_loss(a: AppV)
    requires
        total_of(a.primaries) == 0,
        a.cfg.degraded_loss_ppm > 0,
    ensures
        a.says_packet_loss() is None,
{
}

/// The resolver in row `i` answers some name.
pub open spec fn answers(a: AppV, i: int) -> bool {
    exists|j: int| 0 <= j < a.dns.cells[i].len() && (#[trigger] a.dns.cells[i][j]).last is Some
}

/// The system's resolver, which stands first, is told of where it was asked, has no answer
/// and another resolver has one.
pub proof fn law_system_resolver_is_down(a: AppV)
    ensures
        a.says_sys_dns_dead() is Some <==> a.dns.cells.len() > 0 && a.dns.cells[0].len() > 0
            && !answers(a, 0) && exists|i: int| 0 < i < a.dns.cells.len() && #[trigger] answers(
            a,
            i,
        ),
{
    lemma_answers(a);
    let rows = a.dns.cells;
    if some_answer(rows, 1, 0) {
        let i = choose|i: int| 1 <= i < rows.len() && i != 0 && !row_fails(#[trigger] rows[i]);
        assert(answers(a, i));
    }
    if exists|i: int| 0 < i < rows.len() && #[trigger] answers(a, i) {
        let i = choose|i: int| 0 < i < rows.len() && #[trigger] answers(a, i);
        assert(!row_fails(rows[i]));
    }
}

proof fn lemma_answers(a: AppV)
    ensures
        forall|i: int|
            0 <= i < a.dns.cells.len() ==> #[trigger] answers(a, i) == !row_fails(a.dns.cells[i]),
{
    assert forall|i: int| 0 <= i < a.dns.cells.len() implies #[trigger] answers(a, i)
        == !row_fails(a.dns.cells[i]) by {
        let row = a.dns.cells[i];
        if !row_fails(row) {
            let j = choose|j: int| 0 <= j < row.len() && (#[trigger] row[j]).last is Some;
            assert(a.dns.cells[i][j].last is Some);
        }
    }
}

/// The resolver in row `i` has been asked and has no answer, while another resolver has one.
pub open spec fn alone_is_silent(a: AppV, i: int) -> bool {
    &&& 0 < i < a.dns.cells.len()
    &&& a.dns.cells[i].len() > 0
    &&& !answers(a, i)
    &&& exists|k: int| 0 <= k < a.dns.cells.len() && k != i && #[trigger] answers(a, k)
}

proof fn lemma_first_silent(a: AppV, n: nat)
    requires
        n <= a.dns.cells.len(),
    ensures
        match first_dead_resolver(a.dns.cells, n) {
            Some(i) => 0 <= i < n && alone_is_silent(a, i) && forall|k: int|
                0 <= k < i ==> !#[trigger] alone_is_silent(a, k),
            None => forall|k: int| 0 <= k < n ==> !#[trigger] alone_is_silent(a, k),
        },
    decreases n,
{
    if n > 0 {
        lemma_first_silent(a, (n - 1) as nat);
        lemma_answers(a);
        let rows = a.dns.cells;
        let i = n - 1;
        if resolver_is_dead(rows, i) {
            let k = choose|k: int| 0 <= k < rows.len() && k != i && !row_fails(#[trigger] rows[k]);
            assert(answers(a, k));
            assert(alone_is_silent(a, i));
        }
        if alone_is_silent(a, i) {
            let k = choose|k: int| 0 <= k < rows.len() && k != i && #[trigger] answers(a, k);
            assert(!row_fails(rows[k]));
            assert(resolver_is_dead(rows, i));
        }
    }
}

/// Of the other resolvers the first one is told of that was asked and has no answer while
/// another one has; where there is none, nothing is told.
pub proof fn law_first_silent_resolver_is_told_of(a: AppV)
    ensures
        a.says_resolver_down() is None <==> forall|k: int| !#[trigger] alone_is_silent(a, k),
        a.says_resolver_down() matches Some(s) ==> exists|i: int|
            #[trigger] alone_is_silent(a, i) && (forall|k: int|
                0 <= k < i ==> !#[trigger] alone_is_silent(a, k)) && s.cause == "resolver "@
                + a.dns.resolvers[i].0 + " unreachable"@,
{
    lemma_first_silent(a, a.dns.cells.len());
}

/// The name in column `d` has no answer from any resolver, though every one was asked.
pub open spec fn nobody_knows(a: AppV, d: int) -> bool {
    forall|i: int|
        0 <= i < a.dns.cells.len() ==> d < (#[trigger] a.dns.cells[i]).len()
            && a.dns.cells[i][d].last is None
}

/// Some resolver has an answer for the name in column `d`.
pub open spec fn somebody_knows(a: AppV, d: int) -> bool {
    exists|i: int|
        0 <= i < a.dns.cells.len() && d < (#[trigger] a.dns.cells[i]).len()
            && a.dns.cells[i][d].last is Some
}

/// The name in column `d` alone is unknown: no resolver answers it, and another name is
/// answered.
pub open spec fn alone_is_unknown(a: AppV, d: int) -> bool {
    &&& 0 <= d < a.dns.names.len()
    &&& nobody_knows(a, d)
    &&& exists|x: int| 0 <= x < a.dns.names.len() && x != d && #[trigger] somebody_knows(a, x)
}

proof fn lemma_first_unknown(a: AppV, n: nat)
    requires
        n <= a.dns.names.len(),
    ensures
        match first_dead_name(a.dns.cells, a.dns.names.len(), n) {
            Some(d) => 0 <= d < n && alone_is_unknown(a, d) && forall|k: int|
                0 <= k < d ==> !#[trigger] alone_is_unknown(a, k),
            None => forall|k: int| 0 <= k < n ==> !#[trigger] alone_is_unknown(a, k),
        },
    decreases n,
{
    if n > 0 {
        lemma_first_unknown(a, (n - 1) as nat);
        let rows = a.dns.cells;
        let cols = a.dns.names.len();
        let d = n - 1;
        assert forall|x: int| #[trigger] somebody_knows(a, x) == column_answers(rows, x) by {}
        assert(nobody_knows(a, d) == column_fails(rows, d));
        if name_is_dead(rows, d, cols) {
            let x = choose|x: int| 0 <= x < cols && x != d && #[trigger] column_answers(rows, x);
            assert(somebody_knows(a, x));
            assert(alone_is_unknown(a, d));
        }
        if alone_is_unknown(a, d) {
            let x = choose|x: int| 0 <= x < cols && x != d && #[trigger] somebody_knows(a, x);
            assert(column_answers(rows, x));
            assert(name_is_dead(rows, d, cols));
        }
    }
}

/// A site is told of where its name is the first that no resolver answers while another
/// name is answered.
pub proof fn law_first_unknown_name_is_told_of(a: AppV)
    ensures
        a.says_domain_down() is None <==> forall|k: int| !#[trigger] alone_is_unknown(a, k),
        a.says_domain_down() matches Some(s) ==> exists|d: int|
            #[trigger] alone_is_unknown(a, d) && (forall|k: int|
                0 <= k < d ==> !#[trigger] alone_is_unknown(a, k)) && s.cause
                == "site unreachable: "@ + a.dns.names[d],
{
    lemma_first_unknown(a, a.dns.names.len());
    if exists|k: int| alone_is_unknown(a, k) {
        let k = choose|k: int| alone_is_unknown(a, k);
        let x = choose|x: int| 0 <= x < a.dns.names.len() && x != k && #[trigger] somebody_knows(a, x);
        assert(a.dns.cells.len() > 0);
    }
}

/// Slow DNS is told of where the slowest latest answer of the system's resolver exceeds the
/// threshold.
pub proof fn law_slow_dns_is_that_of_the_system(a: AppV)
    requires
        a.dns.cells.len() > 0,
    ensures
        a.says_dns_slow() is Some <==> exists|j: int|
            0 <= j < a.dns.cells[0].len() && (#[trigger] a.dns.cells[0][j]).last is Some
                && a.dns.cells[0][j].last->0 > a.dns_warn(),
{
    law_worst_is_the_slowest(a.dns.cells[0]);
    let row = a.dns.cells[0];
    if a.says_dns_slow() is Some {
        let j = choose|j: int|
            0 <= j < row.len() && (#[trigger] row[j]).last == worst_last(row);
        assert(a.dns.cells[0][j].last is Some);
    }
}

proof fn lemma_failing(ps: Seq<ProbeV>)
    ensures
        failing(ps).len() == 0 ==> forall|i: int|
            0 <= i < ps.len() ==> (#[trigger] ps[i]).state == LinkState::Up,
        failing(ps).len() == 1 ==> exists|k: int| #[trigger]
            alone_fails(ps, k) && failing(ps)[0] == ps[k],
        (forall|i: int| 0 <= i < ps.len() ==> (#[trigger] ps[i]).state == LinkState::Up)
            ==> failing(ps).len() == 0,
    decreases ps.len(),
{
    if ps.len() > 0 {
        let d = ps.drop_last();
        let last = ps.len() - 1;
        lemma_failing(d);
        assert(ps[last] == ps.last());
        assert forall|i: int| 0 <= i < d.len() implies #[trigger] ps[i] == d[i] by {}
        if ps.last().state != LinkState::Up {
            if failing(ps).len() == 1 {
                assert forall|i: int| 0 <= i < last implies (#[trigger] ps[i]).state
                    == LinkState::Up by {
                    assert(d[i].state == LinkState::Up);
                }
                assert(alone_fails(ps, last));
            }
        } else {
            if failing(ps).len() == 0 {
                assert forall|i: int| 0 <= i < ps.len() implies (#[trigger] ps[i]).state
                    == LinkState::Up by {
                    if i < last {
                        assert(d[i].state == LinkState::Up);
                    }
                }
            }
            if failing(ps).len() == 1 {
                let k = choose|k: int| #[trigger] alone_fails(d, k) && failing(d)[0] == d[k];
                assert forall|i: int| 0 <= i < ps.len() && i != k implies (#[trigger] ps[i]).state
                    == LinkState::Up by {
                    if i < last {
                        assert(d[i].state == LinkState::Up);
                    }
                }
                assert(alone_fails(ps, k));
            }
            if forall|i: int| 0 <= i < ps.len() ==> (#[trigger] ps[i]).state == LinkState::Up {
                assert forall|i: int| 0 <= i < d.len() implies (#[trigger] d[i]).state
                    == LinkState::Up by {
                    assert(ps[i].state == LinkState::Up);
                }
            }
        }
    }
}

proof fn lemma_one_fails(ps: Seq<ProbeV>, k: int)
    requires
        alone_fails(ps, k),
    ensures
        failing(ps) == seq![ps[k]],
    decreases ps.len(),
{
    let d = ps.drop_last();
    let last = ps.len() - 1;
    assert forall|i: int| 0 <= i < d.len() implies #[trigger] ps[i] == d[i] by {}
    if k == last {
        lemma_failing(d);
        assert forall|i: int| 0 <= i < d.len() implies (#[trigger] d[i]).state
            == LinkState::Up by {
            assert(ps[i].state == LinkState::Up);
        }
        assert(failing(d) =~= Seq::empty());
        assert(failing(ps) =~= seq![ps[k]]);
    } else {
        assert(ps[last].state == LinkState::Up);
        assert forall|i: int| 0 <= i < d.len() && i != k implies (#[trigger] d[i]).state
            == LinkState::Up by {
            assert(ps[i].state == LinkState::Up);
        }
        assert(alone_fails(d, k));
        lemma_one_fails(d, k);
    }
}

/// Target `k` is the only one that is not up.
pub open spec fn alone_fails(ps: Seq<ProbeV>, k: int) -> bool {
    &&& 0 <= k < ps.len() && ps[k].state != LinkState::Up
    &&& forall|i: int| 0 <= i < ps.len() && i != k ==> (#[trigger] ps[i]).state == LinkState::Up
}

/// A single target is told of exactly where the connection is up and that target is the
/// only one that is not; it is named.
pub proof fn law_single_failing_target_is_named(a: AppV)
    ensures
        a.says_single_target_bad() is Some <==> a.state == LinkState::Up && exists|k: int|
            #[trigger] alone_fails(a.primaries, k),
        a.says_single_target_bad() matches Some(s) ==> exists|k: int| #[trigger]
            alone_fails(a.primaries, k) && s.cause == "target "@ + a.primaries[k].label + " "@
                + state_text(a.primaries[k].state),
{
    lemma_failing(a.primaries);
    if exists|k: int| #[trigger] alone_fails(a.primaries, k) {
        let k = choose|k: int| #[trigger] alone_fails(a.primaries, k);
        lemma_one_fails(a.primaries, k);
    }
}

/// How many of the first `n` rules speak up.
pub open spec fn speaking(rules: Seq<Option<InsightV>>, n: int) -> nat
    decreases n,
{
    if n <= 0 {
        0
    } else {
        speaking(rules, n - 1) + (if rules[n - 1] is Some {
            1nat
        } else {
            0
        })
    }
}

/// The first rules that speak up are heard, in their order: what rule `k` says stands in
/// the result, behind what the rules before it say, exactly where fewer than `cap` of
/// those speak up.
pub proof fn law_first_rules_are_heard(rules: Seq<Option<InsightV>>, cap: nat, k: int)
    requires
        0 <= k < rules.len(),
        rules[k] is Some,
    ensures
        first_said(rules, cap).len() <= speaking(rules, rules.len() as int),
        first_said(rules, cap).len() <= cap,
        speaking(rules, k) < cap ==> speaking(rules, k) < first_said(rules, cap).len()
            && first_said(rules, cap)[speaking(rules, k) as int] == rules[k]->0,
{
    lemma_first_said(rules, cap);
}

proof fn lemma_first_said(rules: Seq<Option<InsightV>>, cap: nat)
    ensures
        first_said(rules, cap).len() == (if speaking(rules, rules.len() as int) < cap {
            speaking(rules, rules.len() as int)
        } else {
            cap
        }),
        forall|k: int|
            0 <= k < rules.len() && (#[trigger] rules[k]) is Some && speaking(rules, k) < cap
                ==> speaking(rules, k) < first_said(rules, cap).len() && first_said(
                rules,
                cap,
            )[speaking(rules, k) as int] == rules[k]->0,
    decreases rules.len(),
{
    if rules.len() > 0 {
        let d = rules.drop_last();
        let last = rules.len() - 1;
        lemma_first_said(d, cap);
        lemma_speaking_prefix(rules, last);
        assert forall|k: int|
            0 <= k < rules.len() && (#[trigger] rules[k]) is Some && speaking(rules, k)
                < cap implies speaking(rules, k) < first_said(rules, cap).len() && first_said(
            rules,
            cap,
        )[speaking(rules, k) as int] == rules[k]->0 by {
            if k < last {
                assert(d[k] is Some);
                lemma_speaking_prefix(rules, k);
            }
        }
    }
}

proof fn lemma_speaking_prefix(rules: Seq<Option<InsightV>>, n: int)
    requires
        n < rules.len(),
    ensures
        speaking(rules.drop_last(), n) == speaking(rules, n),
    decreases n,
{
    if n > 0 {
        lemma_speaking_prefix(rules, n - 1);
    }
}

/// The diagnosis has one to three entries. It says that all is well only where no rule
/// speaks up, and it gives a rule its say, in the order of priority, where fewer than
/// three before it speak up: first the local causes (gateway, signal), then those
/// upstream (outage, congestion), then DNS (system, blocked), then loss, jitter and
/// latency, then single sites, resolvers, slow answers and targets.
pub proof fn law_diagnosis_by_priority(a: AppV, now: Instant)
    ensures
        ({
            let d = a.diagnosis(now);
            &&& 1 <= d.len() <= 3
            &&& a.says_router_down() is Some ==> d[0] == a.says_router_down()->0
            &&& a.says_wifi_weak() is Some && a.says_router_down() is None ==> d[0]
                == a.says_wifi_weak()->0
            &&& a.says_wifi_weak() is Some && a.says_router_down() is Some ==> d[1]
                == a.says_wifi_weak()->0
            &&& a.says_isp_outage() is Some ==> d[0] == a.says_isp_outage()->0
            &&& forall|k: int|
                0 <= k < 13 && (#[trigger] a.rules()[k]) is Some && speaking(a.rules(), k) < 3
                    ==> d[speaking(a.rules(), k) as int] == a.rules()[k]->0
            &&& a.rules().len() == 13
            &&& a.rules()[3] == a.says_congestion() && a.rules()[4] == a.says_sys_dns_dead()
                && a.rules()[5] == a.says_dns_blocked() && a.rules()[6] == a.says_packet_loss()
                && a.rules()[7] == a.says_jitter_high() && a.rules()[8] == a.says_latency_creep()
            &&& a.rules()[9] == a.says_domain_down() && a.rules()[10] == a.says_resolver_down()
                && a.rules()[11] == a.says_dns_slow() && a.rules()[12]
                == a.says_single_target_bad()
            &&& speaking(a.rules(), 13) > 0 ==> d.len() == (if speaking(a.rules(), 13) < 3 {
                speaking(a.rules(), 13)
            } else {
                3
            })
            &&& speaking(a.rules(), 13) == 0 ==> d.len() == 1 && d[0].severity == Level::Good
        }),
{
    let rules = a.rules();
    lemma_first_said(rules, 3);
    reveal_with_fuel(speaking, 4);
    law_router_or_upstream(a);
    assert(rules[0] == a.says_router_down());
    assert(rules[1] == a.says_wifi_weak());
    assert(rules[2] == a.says_isp_outage());
}

proof fn lemma_said_by_a_rule(rules: Seq<Option<InsightV>>, cap: nat, n: int)
    requires
        0 <= n < first_said(rules, cap).len(),
    ensures
        exists|k: int|
            0 <= k < rules.len() && #[trigger] rules[k] == Some(first_said(rules, cap)[n]),
    decreases rules.len(),
{
    let d = rules.drop_last();
    let last = rules.len() - 1;
    if n < first_said(d, cap).len() {
        lemma_said_by_a_rule(d, cap, n);
        let k = choose|k: int|
            0 <= k < d.len() && #[trigger] d[k] == Some(first_said(d, cap)[n]);
        assert(rules[k] == d[k]);
    } else {
        assert(rules[last] == rules.last());
    }
}

/// Wherever the diagnosis is shown that all DNS fails but pings are OK, at least one target
/// is up and no resolver has an answer to any name.
pub proof fn law_pings_are_called_ok_only_where_they_are(a: AppV, now: Instant, n: int)
    requires
        0 <= n < a.diagnosis(now).len(),
        a.diagnosis(now)[n].cause == "all DNS failing but pings OK"@,
    ensures
        exists|k: int|
            0 <= k < a.primaries.len() && (#[trigger] a.primaries[k]).state == LinkState::Up,
        forall|i: int, j: int|
            0 <= i < a.dns.cells.len() && 0 <= j < a.dns.cells[i].len() ==> (
            #[trigger] a.dns.cells[i][j]).last is None,
{
    reveal_strlit("all DNS failing but pings OK");
    reveal_strlit("local router/gateway down");
    reveal_strlit("weak Wi-Fi signal");
    reveal_strlit("upstream outage (ISP / cell tower)");
    reveal_strlit("upstream congestion / tower saturation");
    reveal_strlit("system DNS resolver down");
    reveal_strlit("packet loss ");
    reveal_strlit("unstable link (high jitter)");
    reveal_strlit("latency elevated");
    reveal_strlit("site unreachable: ");
    reveal_strlit("resolver ");
    reveal_strlit("slow DNS");
    reveal_strlit("target ");
    reveal_strlit("link healthy");
    law_dns_is_blocked_only_while_pings_work(a);
    let rules = a.rules();
    let c = a.diagnosis(now)[n].cause;
    assert(c[0] == 'a');
    if first_said(rules, 3).len() == 0 {
        assert(c == "link healthy"@);
        assert(c[0] == 'l');
    } else {
        lemma_said_by_a_rule(rules, 3, n);
        let k = choose|k: int|
            0 <= k < rules.len() && #[trigger] rules[k] == Some(first_said(rules, 3)[n]);
        let cause = rules[k]->0.cause;
        if k != 5 {
            assert(cause[0] != 'a');
        }
    }
}

/// A time span is shown in hours, minutes and seconds.
pub proof fn law_hours_minutes_seconds(h: nat, m: nat, s: nat)
    requires
        m < 60,
        s < 60,
    ensures
        hms_text(h * 3600 + m * 60 + s) == zero_padded(h, 2) + ":"@ + zero_padded(m, 2) + ":"@
            + zero_padded(s, 2),
{
    let t = h * 3600 + m * 60 + s;
    assert(t / 3600 == h && t % 3600 / 60 == m && t % 60 == s);
}

/// How grave each finding is: outages and dead DNS are bad; what makes the link worse is a
/// warning; a single site or target is news; and a healthy link is good.
pub proof fn law_findings_have_their_gravity(a: AppV, now: Instant)
    ensures
        a.says_router_down() matches Some(i) ==> i.severity == Level::Bad,
        a.says_isp_outage() matches Some(i) ==> i.severity == Level::Bad,
        a.says_sys_dns_dead() matches Some(i) ==> i.severity == Level::Bad,
        a.says_dns_blocked() matches Some(i) ==> i.severity == Level::Bad,
        a.says_congestion() matches Some(i) ==> i.severity == Level::Warn,
        a.says_packet_loss() matches Some(i) ==> i.severity == Level::Warn,
        a.says_jitter_high() matches Some(i) ==> i.severity == Level::Warn,
        a.says_latency_creep() matches Some(i) ==> i.severity == Level::Warn,
        a.says_resolver_down() matches Some(i) ==> i.severity == Level::Warn,
        a.says_dns_slow() matches Some(i) ==> i.severity == Level::Warn,
        a.says_domain_down() matches Some(i) ==> i.severity == Level::Info,
        a.says_single_target_bad() matches Some(i) ==> i.severity == Level::Info,
        a.says_healthy(now).severity == Level::Good,
{
}

/// The evidence of an outage tells how many of the targets are down: all of them.
pub proof fn law_outage_counts_the_targets(a: AppV)
    requires
        a.says_router_down() is Some || a.says_isp_outage() is Some,
    ensures
        a.lost_targets_text() == digits(a.primaries.len()) + "/"@ + digits(a.primaries.len())
            + " targets lost"@,
{
    let s = states_of(a.primaries);
    assert forall|i: int| 0 <= i < s.len() implies #[trigger] s[i] == LinkState::Down by {
        assert(a.primaries[i].state == LinkState::Down);
    }
    law_unanimous_vote(s, LinkState::Down);
}

/// The evidence gives the figures: the lost probes and all of them, the latency, the jitter or
/// the answer time, each beside the threshold that it exceeds.
pub proof fn law_evidence_gives_the_figures(a: AppV)
    ensures
        a.says_packet_loss() matches Some(i) ==> i.evidence == digits(lost_of(a.primaries)) + "/"@
            + digits(total_of(a.primaries)) + " probes lost (pooled)"@,
        a.says_latency_creep() matches Some(i) ==> i.evidence == "median "@ + ms_text(
            a.last_value()->0 as nat,
            0,
        ) + "ms > warn "@ + ms_text(a.lat_warn(), 0) + "ms"@,
        a.says_congestion() matches Some(i) ==> i.evidence == "latency "@ + ms_text(
            a.last_value()->0 as nat,
            0,
        ) + "ms > warn "@ + ms_text(a.lat_warn(), 0) + "ms · loss "@ + a.loss_text(0) + "%"@,
        a.says_dns_slow() matches Some(i) ==> i.evidence == "system resolver "@ + ms_text(
            a.resolver_worst()->0 as nat,
            0,
        ) + "ms > warn "@ + ms_text(a.dns_warn(), 0) + "ms"@,
        a.says_jitter_high() matches Some(i) ==> i.evidence == "jitter "@ + ms_text(
            a.jitter()->0 as nat,
            0,
        ) + "ms > warn "@ + fixed_text(a.jit_warn_twice(), 2_000_000, 0) + "ms"@,
{
}

} // verus!
