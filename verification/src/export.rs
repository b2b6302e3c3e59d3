//! The session as tab-separated text.
use vstd::prelude::*;
use crate::app::{
    elapsed_secs, lost_of, opt_str, secs_between, total_of, App, AppV,
};
use crate::detector::{or_else, DetectorMode, GRAINS};
use crate::dns::{lemma_matrix_means, matrix_means};
use crate::exact::lemma_mean_is_sound;
use crate::pool::{
    law_loss_is_a_share, law_lost_at_most_total, law_score_range, pooled_stat,
};
use crate::probe::{sound_ratio, Metric, ShadowEvent};
use crate::state::LinkState;
use crate::stats::{is_mean, ratio_ms, ratio_ms_text, Ratio};
use crate::text::{
    dec, digits, double_fixed, double_text, fixed, fixed_text, is_sound_double,
    law_lines_end_with_newlines, law_reading_undoes_digits, law_split_at_each_separator, lines, ms,
    ms_text, split_on, Double, Separator, FINEST, FIXED_LIMIT,
};
use crate::time::{elapsed_ns, Clock, Instant};

verus! {

/// One line of the session file. Times are in nanoseconds, but for `avg_dns`, which
/// is in milliseconds.
#[derive(Clone, Copy, PartialEq, Eq, Structural, Debug)]
pub struct ExportRow {
    pub epoch_s: u64,
    pub elapsed_s: u64,
    pub state: LinkState,
    pub score: u64,
    pub last_rtt: Option<u64>,
    pub avg_rtt: Ratio,
    pub min_rtt: u64,
    pub max_rtt: u64,
    pub total: u64,
    pub lost: u64,
    pub loss_pct: Ratio,
    pub jitter_cur: Option<u64>,
    pub last_dns: Option<u64>,
    pub avg_dns: Double,
    pub cadence_ms: u64,
}

impl AppV {
    /// The line that describes the monitor at `clock`.
    pub open spec fn row(self, clock: Clock) -> ExportRow {
        let stat = pooled_stat(self.primaries);
        ExportRow {
            epoch_s: clock.unix_ms / 1000,
            elapsed_s: elapsed_secs(Some(self.started), clock.now) as u64,
            state: self.state,
            score: (self.quality().num / self.quality().den) as u64,
            last_rtt: self.last_value(),
            avg_rtt: or_else(stat.mean(), Ratio { num: 0, den: 1 }),
            min_rtt: stat.min,
            max_rtt: stat.max,
            total: total_of(self.primaries) as u64,
            lost: lost_of(self.primaries) as u64,
            loss_pct: self.loss(),
            jitter_cur: self.jitter(),
            last_dns: self.resolver_worst(),
            avg_dns: self.dns_mean(),
            cadence_ms: self.interval_ms,
        }
    }
}

impl App {
    pub fn export_row(&self, clock: Clock) -> (r: ExportRow)
        requires
            self.wf(),
        ensures
            r == self@.row(clock),
    {
        let stat = self.pooled_ping_stat();
        let avg = match stat.avg() {
            Some(x) => x,
            None => Ratio { num: 0, den: 1 },
        };
        let score = self.score();
        proof {
            assert(score.num / score.den <= 100) by (nonlinear_arith)
                requires
                    score.num <= 100 * score.den,
                    score.den > 0,
            ;
        }
        ExportRow {
            epoch_s: clock.unix_ms / 1000,
            elapsed_s: secs_between(Some(self.started), clock.now),
            state: self.state,
            score: (score.num / score.den) as u64,
            last_rtt: self.last_value_view(),
            avg_rtt: avg,
            min_rtt: stat.min,
            max_rtt: stat.max,
            total: self.pooled_total(),
            lost: self.pooled_lost(),
            loss_pct: self.loss_pct(),
            jitter_cur: self.jitter_view(),
            last_dns: self.system_resolver_worst(),
            avg_dns: self.dns_avg(),
            cadence_ms: self.interval_ms,
        }
    }
}

/// The word for a state.
pub open spec fn state_text(s: LinkState) -> Seq<char> {
    match s {
        LinkState::Up => "up"@,
        LinkState::Degraded => "degraded"@,
        LinkState::Down => "down"@,
    }
}

pub fn state_word(s: LinkState) -> (r: &'static str)
    ensures
        r@ == state_text(s),
{
    match s {
        LinkState::Up => "up",
        LinkState::Degraded => "degraded",
        LinkState::Down => "down",
    }
}

/// The column titles of the session file.
pub open spec fn header_text() -> Seq<char> {
    "epoch_s\telapsed_s\tstate\tscore\tlast_rtt_ms\tavg_rtt_ms\tmin_rtt_ms\tmax_rtt_ms\ttotal\tlost\tloss_pct\tjitter_cur_ms\tlast_dns_ms\tavg_dns_ms\tcadence_ms"@
}

pub fn export_header() -> (r: &'static str)
    ensures
        r@ == header_text(),
{
    "epoch_s\telapsed_s\tstate\tscore\tlast_rtt_ms\tavg_rtt_ms\tmin_rtt_ms\tmax_rtt_ms\ttotal\tlost\tloss_pct\tjitter_cur_ms\tlast_dns_ms\tavg_dns_ms\tcadence_ms"
}

/// A time with one decimal, or a dash.
pub open spec fn ms_or_dash(v: Option<u64>) -> Seq<char> {
    match v {
        Some(x) => ms_text(x as nat, 1),
        None => "-"@,
    }
}

fn ms_or_dash_of(v: Option<u64>) -> (s: String)
    ensures
        s@ == ms_or_dash(v),
{
    match v {
        Some(x) => ms(x as u128, 1),
        None => String::from_str("-"),
    }
}

/// Fields behind each other, a tab between two.
pub open spec fn tabbed(fields: Seq<Seq<char>>) -> Seq<char>
    decreases fields.len(),
{
    if fields.len() == 0 {
        Seq::empty()
    } else if fields.len() == 1 {
        fields[0]
    } else {
        tabbed(fields.drop_last()) + "\t"@ + fields.last()
    }
}

/// The views of a vector of strings.
pub open spec fn texts(v: Seq<String>) -> Seq<Seq<char>> {
    Seq::new(v.len(), |i: int| v[i]@)
}

fn tab_joined(v: &Vec<String>) -> (s: String)
    ensures
        s@ == tabbed(texts(v@)),
{
    let mut s = String::new();
    let mut i: usize = 0;
    proof {
        assert(s@ =~= tabbed(texts(v@).take(0)));
    }
    while i < v.len()
        invariant
            i <= v.len(),
            s@ == tabbed(texts(v@).take(i as int)),
        decreases v.len() - i,
    {
        proof {
            assert(texts(v@).take(i + 1).drop_last() =~= texts(v@).take(i as int));
        }
        if i > 0 {
            s.append("\t");
        }
        s.append(v[i].as_str());
        proof {
            if i == 0 {
                assert(s@ =~= v@[0]@);
            }
        }
        i = i + 1;
    }
    proof {
        assert(texts(v@).take(i as int) =~= texts(v@));
    }
    s
}

/// The fields of a line.
pub open spec fn row_fields(r: ExportRow) -> Seq<Seq<char>> {
    seq![
        digits(r.epoch_s as nat),
        digits(r.elapsed_s as nat),
        state_text(r.state),
        digits(r.score as nat),
        ms_or_dash(r.last_rtt),
        ratio_ms_text(r.avg_rtt, 1),
        ms_text(r.min_rtt as nat, 1),
        ms_text(r.max_rtt as nat, 1),
        digits(r.total as nat),
        digits(r.lost as nat),
        fixed_text(r.loss_pct.num as nat, r.loss_pct.den as nat, 2),
        ms_or_dash(r.jitter_cur),
        ms_or_dash(r.last_dns),
        double_text(r.avg_dns, 1),
        digits(r.cadence_ms as nat),
    ]
}

/// A row whose figures can be printed.
pub open spec fn printable(r: ExportRow) -> bool {
    &&& is_mean(r.avg_rtt)
    &&& is_sound_double(r.avg_dns)
    &&& 0 < r.loss_pct.den <= u64::MAX && r.loss_pct.num <= 100 * u64::MAX
}

/// Whether a row can be printed.
pub fn can_print(r: &ExportRow) -> (b: bool)
    ensures
        b == printable(*r),
{
    r.avg_rtt.den > 0 && r.avg_rtt.den <= u64::MAX as u128 && r.loss_pct.den > 0 && r.loss_pct.den
        <= u64::MAX as u128 && r.loss_pct.num <= 100 * (u64::MAX as u128) && r.avg_dns.num <= 2
        * FIXED_LIMIT && r.avg_dns.halvings <= FINEST
}

/// The line of a row.
pub fn export_line(r: &ExportRow) -> (s: String)
    requires
        printable(*r),
    ensures
        s@ == tabbed(row_fields(*r)),
{
    let mut v: Vec<String> = Vec::new();
    v.push(dec(r.epoch_s as u128));
    v.push(dec(r.elapsed_s as u128));
    v.push(String::from_str(state_word(r.state)));
    v.push(dec(r.score as u128));
    v.push(ms_or_dash_of(r.last_rtt));
    v.push(ratio_ms(r.avg_rtt, 1));
    v.push(ms(r.min_rtt as u128, 1));
    v.push(ms(r.max_rtt as u128, 1));
    v.push(dec(r.total as u128));
    v.push(dec(r.lost as u128));
    v.push(fixed(r.loss_pct.num, r.loss_pct.den, 2));
    v.push(ms_or_dash_of(r.jitter_cur));
    v.push(ms_or_dash_of(r.last_dns));
    v.push(double_fixed(r.avg_dns, 1));
    v.push(dec(r.cadence_ms as u128));
    proof {
        assert(texts(v@) =~= row_fields(*r));
    }
    tab_joined(&v)
}

// ---------------------------------------------------------------- latch log

/// The column titles of the latch log.
pub fn shadow_header() -> (r: &'static str)
    ensures
        r@ == "ts_offset_ms\tmetric\told_latch\tnew_latch\tratio\tshort"@,
{
    "ts_offset_ms\tmetric\told_latch\tnew_latch\tratio\tshort"
}

pub open spec fn metric_text(m: Metric) -> Seq<char> {
    match m {
        Metric::Latency => "latency"@,
        Metric::Jitter => "jitter"@,
    }
}

pub open spec fn bool_text(b: bool) -> Seq<char> {
    if b {
        "true"@
    } else {
        "false"@
    }
}

fn bool_word(b: bool) -> (r: &'static str)
    ensures
        r@ == bool_text(b),
{
    if b {
        "true"
    } else {
        "false"
    }
}

/// The fields of a latch event of a session that began at `started`.
pub open spec fn shadow_fields(e: ShadowEvent, started: Instant) -> Seq<Seq<char>> {
    seq![
        digits(elapsed_ns(started, e.ts) / 1_000_000),
        metric_text(e.metric),
        bool_text(e.old_latch),
        bool_text(e.new_latch),
        fixed_text(e.ratio.num as nat, e.ratio.den as nat, 4),
        fixed_text(e.short as nat, (1_000_000 * GRAINS) as nat, 1),
    ]
}

/// The line of a latch event.
pub fn shadow_line(e: &ShadowEvent, started: Instant) -> (s: String)
    requires
        sound_ratio(*e),
    ensures
        s@ == tabbed(shadow_fields(*e, started)),
{
    let mut v: Vec<String> = Vec::new();
    v.push(dec((e.ts.nanos_since(started) / 1_000_000) as u128));
    v.push(
        String::from_str(
            match e.metric {
                Metric::Latency => "latency",
                Metric::Jitter => "jitter",
            },
        ),
    );
    v.push(String::from_str(bool_word(e.old_latch)));
    v.push(String::from_str(bool_word(e.new_latch)));
    v.push(fixed(e.ratio.num, e.ratio.den, 4));
    v.push(fixed(e.short, 1_000_000 * GRAINS, 1));
    proof {
        assert(texts(v@) =~= shadow_fields(*e, started));
    }
    tab_joined(&v)
}

/// The lines of all latch events.
pub open spec fn shadow_texts(log: Seq<ShadowEvent>, started: Instant) -> Seq<Seq<char>> {
    Seq::new(log.len(), |i: int| tabbed(shadow_fields(log[i], started)))
}

// -------------------------------------------------------------------- files

/// Lines one after the other, each with its end.
pub open spec fn joined_lines(lines: Seq<Seq<char>>) -> Seq<char>
    decreases lines.len(),
{
    if lines.len() == 0 {
        Seq::empty()
    } else {
        joined_lines(lines.drop_last()) + lines.last() + "\n"@
    }
}

/// What is written to the end of a file: the lines, and the column titles before
/// them where the file is new.
pub open spec fn appended_text(header: Seq<char>, lines: Seq<Seq<char>>, new_file: bool) -> Seq<
    char,
> {
    (if new_file {
        header + "\n"@
    } else {
        Seq::empty()
    }) + joined_lines(lines)
}

/// The text to append to a file.
pub fn appended(header: &str, lines: &Vec<String>, new_file: bool) -> (r: String)
    ensures
        r@ == appended_text(header@, texts(lines@), new_file),
{
    let mut r = String::new();
    if new_file {
        r.append(header);
        r.append("\n");
    }
    let ghost head = r@;
    let mut i: usize = 0;
    proof {
        assert(head =~= (if new_file {
            header@ + "\n"@
        } else {
            Seq::empty()
        }));
        assert(texts(lines@).take(0) =~= Seq::empty());
        assert(r@ =~= head + joined_lines(texts(lines@).take(0)));
    }
    while i < lines.len()
        invariant
            i <= lines.len(),
            r@ == head + joined_lines(texts(lines@).take(i as int)),
        decreases lines.len() - i,
    {
        proof {
            assert(texts(lines@).take(i + 1).drop_last() =~= texts(lines@).take(i as int));
        }
        r.append(lines[i].as_str());
        r.append("\n");
        i = i + 1;
        proof {
            assert(r@ =~= head + joined_lines(texts(lines@).take(i as int)));
        }
    }
    proof {
        assert(texts(lines@).take(i as int) =~= texts(lines@));
    }
    r
}

/// A file that is written twice holds the column titles once, at its top, and the
/// lines of both times in their order.
pub proof fn law_titles_are_written_once(
    header: Seq<char>,
    first: Seq<Seq<char>>,
    second: Seq<Seq<char>>,
)
    ensures
        appended_text(header, first, true) + appended_text(header, second, false)
            == appended_text(header, first + second, true),
{
    lemma_joined_lines(first, second);
    assert(appended_text(header, first, true) + appended_text(header, second, false)
        =~= appended_text(header, first + second, true));
}

proof fn lemma_joined_lines(first: Seq<Seq<char>>, second: Seq<Seq<char>>)
    ensures
        joined_lines(first + second) == joined_lines(first) + joined_lines(second),
    decreases second.len(),
{
    if second.len() == 0 {
        assert(first + second =~= first);
        assert(joined_lines(first) + joined_lines(second) =~= joined_lines(first));
    } else {
        let d = second.drop_last();
        lemma_joined_lines(first, d);
        assert((first + second).drop_last() =~= first + d);
        assert(joined_lines(first) + joined_lines(d) + second.last() + "\n"@ =~= joined_lines(first)
            + (joined_lines(d) + second.last() + "\n"@));
    }
}

/// Everything that one export writes.
pub struct Export {
    pub dir: String,
    pub path: String,
    pub line: String,
    pub shadow_path: String,
    pub shadow_lines: Vec<String>,
}

/// Where the session files stand: below `home`, or below /tmp without one.
pub open spec fn dir_text(home: Option<Seq<char>>) -> Seq<char> {
    (match home {
        Some(h) => h,
        None => "/tmp"@,
    }) + "/.ping_monitor/sessions"@
}

pub open spec fn path_text(home: Option<Seq<char>>, epoch_s: nat) -> Seq<char> {
    dir_text(home) + "/"@ + digits(epoch_s) + ".tsv"@
}

pub open spec fn shadow_path_text(home: Option<Seq<char>>, epoch_s: nat) -> Seq<char> {
    dir_text(home) + "/"@ + digits(epoch_s) + ".shadow.tsv"@
}

impl App {
    /// The files and lines of an export of `row`: the latch log is written only
    /// where it is kept and not empty.
    pub fn export_tsv(&self, row: &ExportRow, home: Option<&str>) -> (e: Export)
        requires
            self.wf(),
            printable(*row),
        ensures
            e.dir@ == dir_text(opt_str(home)),
            e.path@ == path_text(opt_str(home), row.epoch_s as nat),
            e.line@ == tabbed(row_fields(*row)),
            e.shadow_path@ == shadow_path_text(opt_str(home), row.epoch_s as nat),
            texts(e.shadow_lines@) == (if self.detector_mode == DetectorMode::Shadow {
                shadow_texts(self@.shadow_log, self.started)
            } else {
                Seq::empty()
            }),
    {
        let mut dir = String::from_str(
            match home {
                Some(h) => h,
                None => "/tmp",
            },
        );
        dir.append("/.ping_monitor/sessions");
        let stem = dec(row.epoch_s as u128);
        let mut path = dir.clone();
        path.append("/");
        path.append(stem.as_str());
        let mut shadow_path = path.clone();
        path.append(".tsv");
        shadow_path.append(".shadow.tsv");
        let mut shadow_lines: Vec<String> = Vec::new();
        if self.detector_mode == DetectorMode::Shadow {
            let mut i: usize = 0;
            while i < self.shadow_log.len()
                invariant
                    i <= self.shadow_log.len(),
                    self.wf(),
                    shadow_lines@.len() == i,
                    forall|k: int|
                        0 <= k < i ==> (#[trigger] shadow_lines@[k])@ == tabbed(
                            shadow_fields(self@.shadow_log[k], self.started),
                        ),
                decreases self.shadow_log.len() - i,
            {
                proof {
                    assert(sound_ratio(self@.shadow_log[i as int]));
                }
                shadow_lines.push(shadow_line(&self.shadow_log[i], self.started));
                i = i + 1;
            }
            proof {
                assert(texts(shadow_lines@) =~= shadow_texts(self@.shadow_log, self.started));
            }
        } else {
            proof {
                assert(texts(shadow_lines@) =~= Seq::empty());
            }
        }
        Export { dir, path, line: export_line(row), shadow_path, shadow_lines }
    }

    /// Remembers where the session was last written.
    pub fn exported(&mut self, path: String)
        ensures
            final(self)@ == (AppV { last_export: Some(path@), ..old(self)@ }),
    {
        self.last_export = Some(path);
    }
}

/// Every row that the monitor makes can be printed.
pub proof fn law_rows_are_printable(a: AppV, clock: Clock)
    requires
        a.wf(),
    ensures
        printable(a.row(clock)),
{
    law_lost_at_most_total(a.primaries);
    lemma_matrix_means(a.dns.cells);
    lemma_mean_is_sound(matrix_means(a.dns.cells));
}

/// What a line of the session file says is what the monitor shows: its state, its medians,
/// its counters and its statistics; the score in whole points; the time in whole seconds.
pub proof fn law_row_tells_the_monitor(a: AppV, clock: Clock)
    requires
        a.wf(),
        a.started.ns <= clock.now.ns,
    ensures
        ({
            let r = a.row(clock);
            &&& r.epoch_s * 1000 <= clock.unix_ms < (r.epoch_s + 1) * 1000
            &&& r.elapsed_s * 1_000_000_000 <= clock.now.ns - a.started.ns < (r.elapsed_s + 1)
                * 1_000_000_000
            &&& r.state == a.state && r.cadence_ms == a.interval_ms
            &&& r.score * a.quality().den <= a.quality().num < (r.score + 1) * a.quality().den
            &&& r.last_rtt == a.last_value() && r.jitter_cur == a.jitter()
            &&& r.last_dns == a.resolver_worst()
            &&& r.total == total_of(a.primaries) && r.lost == lost_of(a.primaries)
            &&& r.lost <= r.total
            &&& r.total > 0 ==> r.loss_pct.num * r.total == 100 * r.lost * r.loss_pct.den
            &&& r.min_rtt == pooled_stat(a.primaries).min && r.max_rtt
                == pooled_stat(a.primaries).max
            &&& pooled_stat(a.primaries).count > 0 ==> r.avg_rtt.num
                == pooled_stat(a.primaries).sum && r.avg_rtt.den == pooled_stat(a.primaries).count
            &&& pooled_stat(a.primaries).count == 0 ==> r.avg_rtt.num == 0
        }),
{
    law_lost_at_most_total(a.primaries);
    law_score_range(a);
    law_loss_is_a_share(a);
    let q = a.quality();
    vstd::arithmetic::div_mod::lemma_fundamental_div_mod(q.num as int, q.den as int);
    vstd::arithmetic::div_mod::lemma_mod_bound(q.num as int, q.den as int);
    let s = q.num as int / q.den as int;
    assert(s <= 100 && 0 <= s) by (nonlinear_arith)
        requires
            s == q.num as int / q.den as int,
            0 <= q.num <= 100 * q.den,
            q.den > 0,
    ;
    assert((s + 1) * q.den == s * q.den + q.den && q.den * s == s * q.den) by (nonlinear_arith);
}

/// A line can be taken apart again at its tabs: it holds its fields, one after the other.
pub proof fn law_fields_are_told_apart(fields: Seq<Seq<char>>)
    requires
        fields.len() > 0,
        forall|i: int, j: int|
            0 <= i < fields.len() && 0 <= j < fields[i].len() ==> #[trigger] fields[i][j] != '\t',
    ensures
        split_on(tabbed(fields), '\t') == fields,
    decreases fields.len(),
{
    let sep = Separator::Char('\t');
    let last = fields.last();
    assert forall|j: int| 0 <= j < last.len() implies !sep.picks(#[trigger] last[j]) by {
        assert(fields[fields.len() - 1][j] != '\t');
    }
    law_split_at_each_separator(last, '\t', Seq::empty(), sep);
    if fields.len() == 1 {
        assert(fields =~= seq![last]);
    } else {
        let d = fields.drop_last();
        assert forall|i: int, j: int| 0 <= i < d.len() && 0 <= j < d[i].len() implies #[trigger]
        d[i][j] != '\t' by {
            assert(fields[i][j] != '\t');
        }
        law_fields_are_told_apart(d);
        reveal_strlit("\t");
        assert(tabbed(d) + "\t"@ + last =~= tabbed(d).push('\t') + last);
        law_split_at_each_separator(tabbed(d), '\t', last, sep);
        assert(d + seq![last] =~= fields);
    }
}

/// Lines that are written one after the other are read back as the same lines.
pub proof fn law_lines_are_read_back(ls: Seq<Seq<char>>)
    requires
        forall|i: int, j: int|
            0 <= i < ls.len() && 0 <= j < ls[i].len() ==> #[trigger] ls[i][j] != '\n'
                && ls[i][j] != '\r',
    ensures
        lines(joined_lines(ls)) == ls,
    decreases ls.len(),
{
    if ls.len() == 0 {
        law_lines_end_with_newlines(Seq::empty(), Seq::empty());
        assert(joined_lines(ls) =~= Seq::empty());
        assert(ls =~= Seq::empty());
    } else {
        let first = ls[0];
        let rest = ls.drop_first();
        assert forall|i: int, j: int| 0 <= i < rest.len() && 0 <= j < rest[i].len() implies
            #[trigger] rest[i][j] != '\n' && rest[i][j] != '\r' by {
            assert(ls[i + 1][j] != '\n');
        }
        assert forall|j: int| 0 <= j < first.len() implies #[trigger] first[j] != '\n' by {
            assert(ls[0][j] != '\n');
        }
        law_lines_are_read_back(rest);
        lemma_joined_lines(seq![first], rest);
        assert(seq![first] + rest =~= ls);
        reveal_strlit("\n");
        assert(seq![first].drop_last() =~= Seq::empty());
        assert(joined_lines(seq![first].drop_last()) =~= Seq::empty());
        assert(joined_lines(seq![first]) =~= first.push('\n'));
        law_lines_end_with_newlines(first, joined_lines(rest));
        assert(first.len() > 0 ==> ls[0][first.len() - 1] != '\r');
    }
}

/// Every session has files of its own below one directory: those of two sessions differ, and
/// the log of the detectors never goes into the file of the session.
pub proof fn law_sessions_have_their_own_files(home: Option<Seq<char>>, e: nat, f: nat)
    ensures
        path_text(home, e) == path_text(home, f) ==> e == f,
        shadow_path_text(home, e) == shadow_path_text(home, f) ==> e == f,
        path_text(home, e) != shadow_path_text(home, e),
        path_text(home, e).take(dir_text(home).len() as int) == dir_text(home),
        home matches Some(h) ==> dir_text(home).take(h.len() as int) == h,
{
    reveal_strlit("/");
    reveal_strlit(".tsv");
    reveal_strlit(".shadow.tsv");
    law_reading_undoes_digits(e);
    law_reading_undoes_digits(f);
    let d = dir_text(home);
    let from = d.len() as int + 1;
    if path_text(home, e) == path_text(home, f) {
        assert(path_text(home, e).len() == from + digits(e).len() + 4);
        assert(path_text(home, f).len() == from + digits(f).len() + 4);
        assert(path_text(home, e).subrange(from, from + digits(e).len()) =~= digits(e));
        assert(path_text(home, f).subrange(from, from + digits(f).len()) =~= digits(f));
    }
    if shadow_path_text(home, e) == shadow_path_text(home, f) {
        assert(shadow_path_text(home, e).len() == from + digits(e).len() + 11);
        assert(shadow_path_text(home, f).len() == from + digits(f).len() + 11);
        assert(shadow_path_text(home, e).subrange(from, from + digits(e).len()) =~= digits(e));
        assert(shadow_path_text(home, f).subrange(from, from + digits(f).len()) =~= digits(f));
    }
    assert(path_text(home, e).len() != shadow_path_text(home, e).len());
    assert(path_text(home, e).take(d.len() as int) =~= d);
    if home is Some {
        assert(d.take(home->0.len() as int) =~= home->0);
    }
}

/// Every state has a word of its own.
pub proof fn law_states_have_their_words(s: LinkState, t: LinkState)
    requires
        state_text(s) == state_text(t),
    ensures
        s == t,
{
    reveal_strlit("up");
    reveal_strlit("degraded");
    reveal_strlit("down");
    assert(state_text(LinkState::Up).len() == 2);
    assert(state_text(LinkState::Degraded).len() == 8);
    assert(state_text(LinkState::Down).len() == 4);
}

/// A line has a field for each column title, and the titles stand in the order of the fields.
pub proof fn law_titles_match_the_fields(r: ExportRow)
    ensures
        header_text() == tabbed(
            seq![
                "epoch_s"@,
                "elapsed_s"@,
                "state"@,
                "score"@,
                "last_rtt_ms"@,
                "avg_rtt_ms"@,
                "min_rtt_ms"@,
                "max_rtt_ms"@,
                "total"@,
                "lost"@,
                "loss_pct"@,
                "jitter_cur_ms"@,
                "last_dns_ms"@,
                "avg_dns_ms"@,
                "cadence_ms"@,
            ],
        ),
        row_fields(r).len() == 15,
        row_fields(r)[0] == digits(r.epoch_s as nat),
        row_fields(r)[1] == digits(r.elapsed_s as nat),
        row_fields(r)[2] == state_text(r.state),
        row_fields(r)[3] == digits(r.score as nat),
        row_fields(r)[8] == digits(r.total as nat),
        row_fields(r)[9] == digits(r.lost as nat),
        row_fields(r)[14] == digits(r.cadence_ms as nat),
{
    reveal_strlit("epoch_s\telapsed_s\tstate\tscore\tlast_rtt_ms\tavg_rtt_ms\tmin_rtt_ms\tmax_rtt_ms\ttotal\tlost\tloss_pct\tjitter_cur_ms\tlast_dns_ms\tavg_dns_ms\tcadence_ms");
    reveal_strlit("\t");
    reveal_strlit("epoch_s");
    reveal_strlit("elapsed_s");
    reveal_strlit("state");
    reveal_strlit("score");
    reveal_strlit("last_rtt_ms");
    reveal_strlit("avg_rtt_ms");
    reveal_strlit("min_rtt_ms");
    reveal_strlit("max_rtt_ms");
    reveal_strlit("total");
    reveal_strlit("lost");
    reveal_strlit("loss_pct");
    reveal_strlit("jitter_cur_ms");
    reveal_strlit("last_dns_ms");
    reveal_strlit("avg_dns_ms");
    reveal_strlit("cadence_ms");
    let t = seq![
        "epoch_s"@,
        "elapsed_s"@,
        "state"@,
        "score"@,
        "last_rtt_ms"@,
        "avg_rtt_ms"@,
        "min_rtt_ms"@,
        "max_rtt_ms"@,
        "total"@,
        "lost"@,
        "loss_pct"@,
        "jitter_cur_ms"@,
        "last_dns_ms"@,
        "avg_dns_ms"@,
        "cadence_ms"@,
    ];
    lemma_tabbed_first(t, 15);
    reveal_with_fuel(tabbed_first, 16);
    assert(header_text() =~= tabbed_first(t, 15));
}

/// The first `n` fields behind each other, a tab between two.
spec fn tabbed_first(fields: Seq<Seq<char>>, n: nat) -> Seq<char>
    decreases n,
{
    if n == 0 {
        Seq::empty()
    } else if n == 1 {
        fields[0]
    } else {
        tabbed_first(fields, (n - 1) as nat) + "\t"@ + fields[n - 1]
    }
}

proof fn lemma_tabbed_first(fields: Seq<Seq<char>>, n: nat)
    requires
        n <= fields.len(),
    ensures
        tabbed(fields.take(n as int)) == tabbed_first(fields, n),
        fields.take(fields.len() as int) == fields,
    decreases n,
{
    assert(fields.take(fields.len() as int) =~= fields);
    if n > 1 {
        lemma_tabbed_first(fields, (n - 1) as nat);
        assert(fields.take(n as int).drop_last() =~= fields.take(n - 1));
    }
}

} // verus!
