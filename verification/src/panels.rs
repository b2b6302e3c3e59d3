//! The tables and lists of the screen.
use vstd::prelude::*;
use crate::app::{
    elapsed_secs, lost_of, total_of, App, AppV, EventV, Level, EVENTS_CAP,
};
use crate::calendar::{clock_text, fmt_clock_short, fmt_wall, is_wall_text};
use crate::dns::{row_view, CellV, DnsCell};
use crate::insight::{hms, hms_text, row_fails, row_has_no_answer};
use crate::pool::{law_lost_at_most_total, percent, percent_of};
use crate::probe::{ExtraProbe, ExtraV, PrimaryProbe, ProbeV};
use crate::state::LinkState;
use crate::stats::{
    present, present_values, ratio_ms, ratio_ms_text, sum, total, HistBucket, HistV, Ratio,
};
use crate::text::{
    chars_of, dec, digits, fixed, fixed_text, law_split_at_each_separator, ms, ms_text, pad_left,
    pad_right, padded_left, padded_right, split_char, split_on, string_of, trim_end_char,
    trimmed_end_char, Separator,
};
use crate::time::Instant;
use crate::ui::{
    bold, fit_spark, inner, inner_w, inside, inside_width, level_color, level_tone, lines_view, put,
    put_bold, spans, spark, state_color, state_label, state_label_text, state_tone_of, toned, Area,
    Span, SpanV, Tone,
};

verus! {

// ---------------------------------------------------------------------- loss

/// The losses of all targets, bar by bar.
pub struct LossView {
    pub title: String,
    pub bars: Vec<u64>,
    pub max: u64,
}

/// The longest loss window of the targets.
pub open spec fn longest_window(ps: Seq<ProbeV>) -> nat
    decreases ps.len(),
{
    if ps.len() == 0 {
        0
    } else {
        let n = longest_window(ps.drop_last());
        let here = ps.last().loss_ring.items.len();
        if here > n {
            here
        } else {
            n
        }
    }
}

/// How many targets lost the probe at place `i` of their windows.
pub open spec fn losses_at(ps: Seq<ProbeV>, i: int) -> nat
    decreases ps.len(),
{
    if ps.len() == 0 {
        0
    } else {
        let here = ps.last().loss_ring.items;
        losses_at(ps.drop_last(), i) + (if i < here.len() && here[i] {
            1nat
        } else {
            0
        })
    }
}

/// The losses of all targets, place by place.
pub open spec fn losses(ps: Seq<ProbeV>) -> Seq<u64> {
    Seq::new(longest_window(ps), |i: int| losses_at(ps, i) as u64)
}

impl AppV {
    /// The pooled loss reaches `ppm` millionths.
    pub open spec fn loss_reaches(self, ppm: nat) -> bool {
        self.loss().num * 10_000 >= ppm * self.loss().den
    }

    pub open spec fn loss_title(self) -> Seq<char> {
        let window = total(losses(self.primaries));
        "Packet Loss  pooled  window "@ + digits(window) + " loss-events   "@ + digits(window)
            + " targets/sample peak   total "@ + digits(lost_of(self.primaries)) + " ("@
            + fixed_text(self.loss().num as nat, self.loss().den as nat, 2) + "%)"@ + (
        if self.loss_reaches(self.cfg.down_loss_ppm as nat) {
            "  ⚠ HIGH"@
        } else if self.loss().num > 0 {
            "  ◐ loss"@
        } else {
            Seq::empty()
        })
    }
}

fn summed_losses(app: &App) -> (r: Vec<u64>)
    ensures
        r@ == losses(app@.primaries),
{
    let ghost ps = app@.primaries;
    let mut longest: usize = 0;
    let mut k: usize = 0;
    while k < app.primaries.len()
        invariant
            k <= app.primaries.len(),
            ps == app@.primaries,
            longest == longest_window(ps.take(k as int)),
        decreases app.primaries.len() - k,
    {
        proof {
            assert(ps.take(k + 1).drop_last() =~= ps.take(k as int));
        }
        let n: usize = app.primaries[k].loss_ring.len();
        if n > longest {
            longest = n;
        }
        k = k + 1;
    }
    proof {
        assert(ps.take(k as int) =~= ps);
    }
    let mut r: Vec<u64> = Vec::new();
    let mut i: usize = 0;
    while i < longest
        invariant
            i <= longest,
            ps == app@.primaries,
            r@.len() == i,
            forall|j: int| 0 <= j < i ==> #[trigger] r@[j] == losses_at(ps, j) as u64,
        decreases longest - i,
    {
        let mut n: u64 = 0;
        let mut k: usize = 0;
        while k < app.primaries.len()
            invariant
                k <= app.primaries.len(),
                ps == app@.primaries,
                n <= k,
                n == losses_at(ps.take(k as int), i as int),
            decreases app.primaries.len() - k,
        {
            proof {
                assert(ps.take(k + 1).drop_last() =~= ps.take(k as int));
            }
            if i < app.primaries[k].loss_ring.len() && app.primaries[k].loss_ring.buf[i] {
                n = n + 1;
            }
            k = k + 1;
        }
        proof {
            assert(ps.take(k as int) =~= ps);
        }
        r.push(n);
        i = i + 1;
    }
    proof {
        assert(r@ =~= losses(ps));
    }
    r
}

/// The losses over the window of the targets, fitted to `width` columns.
pub fn draw_loss(app: &App, width: u16) -> (v: LossView)
    requires
        app.wf(),
    ensures
        v.title@ == app@.loss_title(),
        v.bars@ == spark(losses(app@.primaries), inside_width(width) as nat),
        v.max == (if app@.primaries.len() == 0 {
            1
        } else {
            app@.primaries.len()
        }),
{
    let agg = summed_losses(app);
    let window: u128 = sum(&agg);
    let loss = app.loss_pct();
    let lost: u64 = app.pooled_lost();
    proof {
        law_lost_at_most_total(app@.primaries);
        assert(app.cfg.down_loss_ppm * loss.den <= u64::MAX * u64::MAX) by (nonlinear_arith)
            requires
                app.cfg.down_loss_ppm <= u64::MAX,
                loss.den <= u64::MAX,
        ;
    }
    let mut title = String::from_str("Packet Loss  pooled  window ");
    title.append(dec(window).as_str());
    title.append(" loss-events   ");
    title.append(dec(window).as_str());
    title.append(" targets/sample peak   total ");
    title.append(dec(lost as u128).as_str());
    title.append(" (");
    title.append(fixed(loss.num, loss.den, 2).as_str());
    title.append("%)");
    if loss.num * 10_000 >= (app.cfg.down_loss_ppm as u128) * loss.den {
        title.append("  ⚠ HIGH");
    } else if loss.num > 0 {
        title.append("  ◐ loss");
    }
    proof {
        assert(title@ =~= app@.loss_title());
    }
    let n: usize = app.primaries.len();
    LossView {
        title,
        bars: fit_spark(agg.as_slice(), inner_w(width)),
        max: if n == 0 {
            1
        } else {
            n as u64
        },
    }
}

// ----------------------------------------------------------------------- DNS

/// The matrix as a table; every row is as wide as the header.
pub struct DnsView {
    pub title: String,
    pub header: Vec<Span>,
    pub rows: Vec<Vec<Vec<Span>>>,
}

pub open spec fn row_lines(v: Seq<Vec<Vec<Span>>>) -> Seq<Seq<Seq<SpanV>>> {
    Seq::new(v.len(), |i: int| lines_view(v[i]@))
}

/// The label of a name that is next to its last one ("www.google.com": "google").
pub open spec fn short_text(name: Seq<char>) -> Seq<char> {
    let parts = split_on(trim_end_char(name, '.'), '.');
    if parts.len() >= 2 {
        parts[parts.len() - 2]
    } else {
        trim_end_char(name, '.')
    }
}

pub fn short_name(d: &str) -> (s: String)
    ensures
        s@ == short_text(d@),
{
    let t = trimmed_end_char(&chars_of(d), '.');
    let parts = split_char(&t, '.');
    if parts.len() >= 2 {
        string_of(&parts[parts.len() - 2])
    } else {
        string_of(&t)
    }
}

/// The tone of an answer: at its limit it is already slow.
pub open spec fn answer_tone(v: nat, n: nat, warn: nat, bad: nat) -> Tone {
    if v >= bad * n {
        Tone::Bad
    } else if v >= warn * n {
        Tone::Warn
    } else {
        Tone::Good
    }
}

pub open spec fn dns_cell(last: Option<u64>, warn: nat, bad: nat) -> Seq<SpanV> {
    match last {
        Some(v) => {
            let tone = answer_tone(v as nat, 1, warn, bad);
            seq![
                toned(
                    match tone {
                        Tone::Bad => "○"@,
                        Tone::Warn => "◐"@,
                        _ => "●"@,
                    },
                    tone,
                ),
                toned(" "@ + ms_text(v as nat, 0) + "ms"@, tone),
            ]
        },
        None => seq![toned("✗"@, Tone::Bad), toned("  fail"@, Tone::Bad)],
    }
}

/// The latest answers of a row.
pub open spec fn row_answers(row: Seq<CellV>) -> Seq<u64> {
    present(Seq::new(row.len(), |j: int| row[j].last))
}

/// The mean of a row, last in its line.
pub open spec fn dns_mean_cell(row: Seq<CellV>, warn: nat, bad: nat) -> Seq<SpanV> {
    let vals = row_answers(row);
    if vals.len() == 0 {
        seq![toned("  —  "@, Tone::Bad)]
    } else {
        seq![
            toned(
                " "@ + fixed_text(total(vals), vals.len() * 1_000_000, 0) + "ms"@,
                answer_tone(total(vals), vals.len(), warn, bad),
            ),
        ]
    }
}

/// The line of a resolver: its label, its answers, their mean.
pub open spec fn dns_row(label: Seq<char>, row: Seq<CellV>, warn: nat, bad: nat) -> Seq<
    Seq<SpanV>,
> {
    seq![seq![bold(" "@ + label, Tone::Accent)]] + Seq::new(
        row.len(),
        |j: int| dns_cell(row[j].last, warn, bad),
    ) + seq![dns_mean_cell(row, warn, bad)]
}

impl AppV {
    pub open spec fn dns_header(self) -> Seq<SpanV> {
        seq![toned(" resolver"@, Tone::Muted)] + Seq::new(
            self.dns.names.len(),
            |j: int| toned(" "@ + short_text(self.dns.names[j]), Tone::Muted),
        ) + seq![toned(" row-avg"@, Tone::Muted)]
    }

    pub open spec fn all_dns_fails(self) -> bool {
        forall|i: int|
            0 <= i < self.dns.cells.len() ==> row_fails(#[trigger] self.dns.cells[i])
    }

    pub open spec fn dns_title(self) -> Seq<char> {
        "DNS Matrix  "@ + digits(self.dns.resolvers.len()) + "×"@ + digits(self.dns.names.len())
            + "  (warn "@ + digits(self.cfg.dns_warn_ns as nat / 1_000_000) + "ms / bad "@
            + digits(self.cfg.dns_bad_ns as nat / 1_000_000) + "ms)"@ + (if self.all_dns_fails() {
            "  ⚠ ALL DNS FAILING"@
        } else if self.dns.cells.len() > 0 && row_fails(self.dns.cells[0]) {
            "  ⚠ SYSTEM DNS DOWN — alternates OK"@
        } else {
            Seq::empty()
        })
    }

    pub open spec fn dns_rows(self) -> Seq<Seq<Seq<SpanV>>> {
        Seq::new(
            self.dns.resolvers.len(),
            |i: int|
                dns_row(
                    self.dns.resolvers[i].0,
                    self.dns.cells[i],
                    self.cfg.dns_warn_ns as nat,
                    self.cfg.dns_bad_ns as nat,
                ),
        )
    }
}

fn answer_color(v: u128, n: usize, warn: u64, bad: u64) -> (t: Tone)
    ensures
        t == answer_tone(v as nat, n as nat, warn as nat, bad as nat),
{
    proof {
        assert(bad * n <= u64::MAX * u64::MAX && warn * n <= u64::MAX * u64::MAX)
            by (nonlinear_arith)
            requires
                bad <= u64::MAX,
                warn <= u64::MAX,
                n <= u64::MAX,
        ;
    }
    if v >= (bad as u128) * (n as u128) {
        Tone::Bad
    } else if v >= (warn as u128) * (n as u128) {
        Tone::Warn
    } else {
        Tone::Good
    }
}

fn cell_spans(last: Option<u64>, warn: u64, bad: u64) -> (r: Vec<Span>)
    ensures
        spans(r@) == dns_cell(last, warn as nat, bad as nat),
{
    let mut r: Vec<Span> = Vec::new();
    match last {
        Some(v) => {
            let tone = answer_color(v as u128, 1, warn, bad);
            let dot = match tone {
                Tone::Bad => "○",
                Tone::Warn => "◐",
                _ => "●",
            };
            let mut text = String::from_str(" ");
            text.append(ms(v as u128, 0).as_str());
            text.append("ms");
            put(&mut r, dot, tone);
            put(&mut r, text.as_str(), tone);
        },
        None => {
            put(&mut r, "✗", Tone::Bad);
            put(&mut r, "  fail", Tone::Bad);
        },
    }
    proof {
        assert(spans(r@) =~= dns_cell(last, warn as nat, bad as nat));
    }
    r
}

fn mean_spans(row: &Vec<DnsCell>, warn: u64, bad: u64) -> (r: Vec<Span>)
    ensures
        spans(r@) == dns_mean_cell(row_view(*row), warn as nat, bad as nat),
{
    let ghost rv = row_view(*row);
    let mut last: Vec<Option<u64>> = Vec::new();
    let mut j: usize = 0;
    while j < row.len()
        invariant
            j <= row.len(),
            rv == row_view(*row),
            last@.len() == j,
            forall|k: int| 0 <= k < j ==> #[trigger] last@[k] == rv[k].last,
        decreases row.len() - j,
    {
        last.push(row[j].last);
        j = j + 1;
    }
    proof {
        assert(last@ =~= Seq::new(rv.len(), |j: int| rv[j].last));
    }
    let vals = present_values(&last);
    let mut r: Vec<Span> = Vec::new();
    if vals.len() == 0 {
        put(&mut r, "  —  ", Tone::Bad);
    } else {
        let t: u128 = sum(&vals);
        proof {
            assert(t <= u64::MAX * u64::MAX) by (nonlinear_arith)
                requires
                    t <= vals@.len() * u64::MAX,
                    vals@.len() <= u64::MAX,
            ;
        }
        let mut text = String::from_str(" ");
        text.append(fixed(t, vals.len() as u128 * 1_000_000, 0).as_str());
        text.append("ms");
        put(&mut r, text.as_str(), answer_color(t, vals.len(), warn, bad));
    }
    proof {
        assert(spans(r@) =~= dns_mean_cell(rv, warn as nat, bad as nat));
    }
    r
}


fn resolver_row(label: &String, row: &Vec<DnsCell>, warn: u64, bad: u64) -> (r: Vec<Vec<Span>>)
    ensures
        lines_view(r@) == dns_row(
            label@,
            row_view(*row),
            warn as nat,
            bad as nat,
        ),
{
    let ghost rv = row_view(*row);
    let mut r: Vec<Vec<Span>> = Vec::new();
    let mut text = String::from_str(" ");
    text.append(label.as_str());
    let mut first: Vec<Span> = Vec::new();
    put_bold(&mut first, text.as_str(), Tone::Accent);
    proof {
        assert(spans(first@) =~= seq![bold(" "@ + label@, Tone::Accent)]);
    }
    r.push(first);
    let mut j: usize = 0;
    while j < row.len()
        invariant
            j <= row.len(),
            rv == row_view(*row),
            r@.len() == j + 1,
            spans(r@[0]@) == seq![bold(" "@ + label@, Tone::Accent)],
            forall|k: int|
                1 <= k < r@.len() ==> spans((#[trigger] r@[k])@) == dns_cell(
                    rv[k - 1].last,
                    warn as nat,
                    bad as nat,
                ),
        decreases row.len() - j,
    {
        r.push(cell_spans(row[j].last, warn, bad));
        j = j + 1;
    }
    r.push(mean_spans(row, warn, bad));
    proof {
        assert(lines_view(r@) =~= dns_row(label@, rv, warn as nat, bad as nat));
    }
    r
}

fn dns_header_spans(app: &App) -> (r: Vec<Span>)
    ensures
        spans(r@) == app@.dns_header(),
{
    let mut r: Vec<Span> = Vec::new();
    put(&mut r, " resolver", Tone::Muted);
    let ghost names = app@.dns.names;
    let mut j: usize = 0;
    while j < app.dns.names.len()
        invariant
            j <= app.dns.names.len(),
            names == app@.dns.names,
            spans(r@).len() == j + 1,
            spans(r@)[0] == toned(" resolver"@, Tone::Muted),
            forall|k: int|
                1 <= k < spans(r@).len() ==> #[trigger] spans(r@)[k] == toned(
                    " "@ + short_text(names[k - 1]),
                    Tone::Muted,
                ),
        decreases app.dns.names.len() - j,
    {
        let mut text = String::from_str(" ");
        text.append(short_name(app.dns.names[j].as_str()).as_str());
        put(&mut r, text.as_str(), Tone::Muted);
        j = j + 1;
    }
    put(&mut r, " row-avg", Tone::Muted);
    proof {
        assert(spans(r@) =~= app@.dns_header());
    }
    r
}

fn all_rows_silent(app: &App) -> (r: bool)
    ensures
        r == app@.all_dns_fails(),
{
    let mut i: usize = 0;
    while i < app.dns.cells.len()
        invariant
            i <= app.dns.cells.len(),
            forall|k: int| 0 <= k < i ==> row_fails(#[trigger] app@.dns.cells[k]),
        decreases app.dns.cells.len() - i,
    {
        if !row_has_no_answer(&app.dns.cells[i]) {
            proof {
                assert(!row_fails(app@.dns.cells[i as int]));
            }
            return false;
        }
        i = i + 1;
    }
    true
}

/// The matrix of resolvers and names.
pub fn draw_dns(app: &App) -> (v: DnsView)
    requires
        app.wf(),
    ensures
        v.title@ == app@.dns_title(),
        spans(v.header@) == app@.dns_header(),
        row_lines(v.rows@) == app@.dns_rows(),
{
    let warn: u64 = app.cfg.dns_warn_ns;
    let bad: u64 = app.cfg.dns_bad_ns;
    let mut title = String::from_str("DNS Matrix  ");
    title.append(dec(app.dns.resolvers.len() as u128).as_str());
    title.append("×");
    title.append(dec(app.dns.names.len() as u128).as_str());
    title.append("  (warn ");
    title.append(dec((warn / 1_000_000) as u128).as_str());
    title.append("ms / bad ");
    title.append(dec((bad / 1_000_000) as u128).as_str());
    title.append("ms)");
    if all_rows_silent(app) {
        title.append("  ⚠ ALL DNS FAILING");
    } else if app.dns.cells.len() > 0 && row_has_no_answer(&app.dns.cells[0]) {
        title.append("  ⚠ SYSTEM DNS DOWN — alternates OK");
    }
    proof {
        assert(title@ =~= app@.dns_title());
    }
    let mut rows: Vec<Vec<Vec<Span>>> = Vec::new();
    let mut i: usize = 0;
    while i < app.dns.resolvers.len()
        invariant
            i <= app.dns.resolvers.len(),
            app.wf(),
            warn == app.cfg.dns_warn_ns,
            bad == app.cfg.dns_bad_ns,
            rows@.len() == i,
            forall|k: int|
                0 <= k < i ==> lines_view((#[trigger] rows@[k])@) == app@.dns_rows()[k],
        decreases app.dns.resolvers.len() - i,
    {
        rows.push(resolver_row(&app.dns.resolvers[i].0, &app.dns.cells[i], warn, bad));
        i = i + 1;
    }
    proof {
        assert(row_lines(rows@) =~= app@.dns_rows());
    }
    DnsView { title, header: dns_header_spans(app), rows }
}

// ------------------------------------------------------------------- heatmap

/// Columns of the heatmap, oldest first: a tone, and how many of the `rows` cells
/// from the bottom up are filled.
pub struct HeatmapView {
    pub title: String,
    pub columns: Vec<(Tone, usize)>,
    pub rows: usize,
}

/// `a / b`, rounded up.
pub open spec fn ceil_div(a: nat, b: nat) -> nat {
    (a + b - 1) as nat / b
}

/// The tone and the height of a peak. A peak of 1.2 times the bad limit fills the
/// column.
pub open spec fn peak_column(p: nat, rows: nat, warn: nat, bad: nat) -> (Tone, nat) {
    (
        if p > bad {
            Tone::Bad
        } else if p > warn {
            Tone::Warn
        } else if 10 * p > 6 * warn {
            Tone::Accent
        } else {
            Tone::Good
        },
        if 10 * p >= 12 * bad {
            rows
        } else {
            ceil_div(10 * p * rows, 12 * bad)
        },
    )
}

/// The column of a slice: its peak, or a full one if nothing was answered. Any loss
/// makes it bad.
pub open spec fn heat_column(b: HistV, rows: nat, warn: nat, bad: nat) -> (Tone, nat) {
    let plain = match b.peak_rtt {
        None => if b.count == 0 && b.loss == 0 {
            (Tone::Muted, 0nat)
        } else {
            (Tone::Bad, rows)
        },
        Some(p) => peak_column(p as nat, rows, warn, bad),
    };
    if b.loss > 0 && plain.0 != Tone::Bad {
        (
            Tone::Bad,
            if plain.1 >= 1 {
                plain.1
            } else {
                1
            },
        )
    } else {
        plain
    }
}

fn heat_of(b: &HistBucket, rows: usize, warn: u64, bad: u64) -> (r: (Tone, usize))
    requires
        rows <= u16::MAX,
    ensures
        r.0 == heat_column(b@, rows as nat, warn as nat, bad as nat).0,
        r.1 == heat_column(b@, rows as nat, warn as nat, bad as nat).1,
{
    let plain: (Tone, usize) = match b.peak_rtt {
        None => if b.count == 0 && b.loss == 0 {
            (Tone::Muted, 0)
        } else {
            (Tone::Bad, rows)
        },
        Some(p) => {
            let tone = if p > bad {
                Tone::Bad
            } else if p > warn {
                Tone::Warn
            } else if 10 * (p as u128) > 6 * (warn as u128) {
                Tone::Accent
            } else {
                Tone::Good
            };
            let up: u128 = 10 * (p as u128);
            let full: u128 = 12 * (bad as u128);
            if up >= full {
                (tone, rows)
            } else {
                proof {
                    assert(up * rows <= 10 * u64::MAX * u16::MAX) by (nonlinear_arith)
                        requires
                            up <= 10 * u64::MAX,
                            rows <= u16::MAX,
                    ;
                    let q = (up * rows + full - 1) / full as int;
                    assert(q <= rows) by (nonlinear_arith)
                        requires
                            q == (up * rows + full - 1) / full as int,
                            0 <= up < full,
                            rows >= 0,
                    ;
                }
                let fill: u128 = (up * (rows as u128) + full - 1) / full;
                (tone, fill as usize)
            }
        },
    };
    if b.loss > 0 && plain.0 != Tone::Bad {
        (
            Tone::Bad,
            if plain.1 >= 1 {
                plain.1
            } else {
                1
            },
        )
    } else {
        plain
    }
}

impl AppV {
    pub open spec fn heatmap_title(self) -> Seq<char> {
        "Heatmap (last "@ + digits(self.hist.len())
            + " × 30s, pooled)  peak RTT per bucket, loss also red"@
    }

    /// How many slices fit into the frame; none where it is too narrow.
    pub open spec fn heat_slices(self, area: Area) -> nat {
        let width = inside(area).width as nat;
        if width < 2 {
            0
        } else if self.hist.len() < width {
            self.hist.len()
        } else {
            width
        }
    }

    /// The slice in column `i`: the latest one stands last.
    pub open spec fn heat_slice(self, area: Area, i: int) -> HistV {
        self.hist[self.hist.len() - self.heat_slices(area) + i]
    }
}

/// The latest slices of the history, as many as the frame has columns.
pub fn draw_heatmap(app: &App, area: Area) -> (v: HeatmapView)
    ensures
        v.title@ == app@.heatmap_title(),
        v.rows == inside(area).height,
        v.columns@.len() == app@.heat_slices(area),
        forall|i: int|
            0 <= i < v.columns@.len() ==> {
                let want = heat_column(
                    app@.heat_slice(area, i),
                    inside(area).height as nat,
                    app.cfg.latency_warn_ns as nat,
                    app.cfg.latency_bad_ns as nat,
                );
                (#[trigger] v.columns@[i]).0 == want.0 && v.columns@[i].1 == want.1
            },
{
    let frame = inner(area);
    let rows: usize = frame.height as usize;
    let width: usize = frame.width as usize;
    let n: usize = app.hist.len();
    let mut title = String::from_str("Heatmap (last ");
    title.append(dec(n as u128).as_str());
    title.append(" × 30s, pooled)  peak RTT per bucket, loss also red");
    let mut columns: Vec<(Tone, usize)> = Vec::new();
    let cols: usize = if width < 2 {
        0
    } else if n < width {
        n
    } else {
        width
    };
    while columns.len() < cols
        invariant
            columns.len() <= cols,
            cols <= n,
            n == app.hist@.len(),
            cols == app@.heat_slices(area),
            rows == inside(area).height,
            forall|i: int|
                0 <= i < columns@.len() ==> {
                    let want = heat_column(
                        app@.heat_slice(area, i),
                        inside(area).height as nat,
                        app.cfg.latency_warn_ns as nat,
                        app.cfg.latency_bad_ns as nat,
                    );
                    (#[trigger] columns@[i]).0 == want.0 && columns@[i].1 == want.1
                },
        decreases cols - columns.len(),
    {
        let at: usize = n - cols + columns.len();
        columns.push(
            heat_of(&app.hist[at], rows, app.cfg.latency_warn_ns, app.cfg.latency_bad_ns),
        );
    }
    HeatmapView { title, columns, rows }
}

// ------------------------------------------------------------------- targets

/// The targets as a table.
pub struct TargetsView {
    pub title: String,
    pub rows: Vec<Vec<Span>>,
}

pub open spec fn dot_text(s: LinkState) -> Seq<char> {
    match s {
        LinkState::Up => "●"@,
        LinkState::Degraded => "◐"@,
        LinkState::Down => "○"@,
    }
}

fn dot(s: LinkState) -> (r: &'static str)
    ensures
        r@ == dot_text(s),
{
    match s {
        LinkState::Up => "●",
        LinkState::Degraded => "◐",
        LinkState::Down => "○",
    }
}

/// The tone of a loss: bad from the limit of a degraded target on.
pub open spec fn loss_tone(lost: nat, all: nat, ppm: nat) -> Tone {
    let loss = percent(lost, all, 0);
    if loss.num * 10_000 >= ppm * loss.den {
        Tone::Bad
    } else if loss.num > 0 {
        Tone::Warn
    } else {
        Tone::Good
    }
}

fn loss_color(lost: u64, all: u64, ppm: u64) -> (t: Tone)
    ensures
        t == loss_tone(lost as nat, all as nat, ppm as nat),
{
    let loss = percent_of(lost, all, 0);
    proof {
        assert(ppm * loss.den <= u64::MAX * u64::MAX) by (nonlinear_arith)
            requires
                ppm <= u64::MAX,
                loss.den <= u64::MAX,
        ;
    }
    if loss.num * 10_000 >= (ppm as u128) * loss.den {
        Tone::Bad
    } else if loss.num > 0 {
        Tone::Warn
    } else {
        Tone::Good
    }
}

/// A loss in percent with one decimal.
pub open spec fn percent_text(r: Ratio) -> Seq<char> {
    fixed_text(r.num as nat, r.den as nat, 1)
}

fn percent_string(r: Ratio) -> (s: String)
    requires
        0 < r.den <= u64::MAX,
        r.num <= 100 * u64::MAX,
    ensures
        s@ == percent_text(r),
{
    fixed(r.num, r.den, 1)
}

/// The line of a target. `hold` is what it is held back by.
pub open spec fn target_row(p: ProbeV, ppm: nat, hold: Seq<char>) -> Seq<SpanV> {
    seq![
        bold(
            " "@ + dot_text(p.state) + "  "@ + pad_right(p.label, 6),
            state_tone_of(p.state),
        ),
        toned(pad_right(p.host, 15), Tone::Gray),
        toned(state_label_text(p.state), state_tone_of(p.state)),
        toned(
            "cur "@ + pad_right(
                match p.last_value {
                    Some(v) => ms_text(v as nat, 0) + " ms"@,
                    None => "timeout"@,
                },
                10,
            ),
            Tone::Plain,
        ),
        toned(
            "avg "@ + pad_right(
                match p.stat.mean() {
                    Some(v) => ratio_ms_text(v, 0),
                    None => "—"@,
                },
                6,
            ),
            Tone::Plain,
        ),
        toned(
            "loss "@ + pad_left(percent_text(percent(p.lost as nat, p.total as nat, 0)), 5, ' ')
                + "%  "@ + digits(p.lost as nat) + "/"@ + digits(p.total as nat),
            loss_tone(p.lost as nat, p.total as nat, ppm),
        ),
        toned(hold, Tone::Muted),
    ]
}

impl AppV {
    /// While the recovery runs: how many seconds it will be held.
    pub open spec fn hold_text(self, now: Instant) -> Seq<char> {
        if self.recovery.resumed_at is Some {
            let dwell = self.cfg.recover_dwell.ns as nat / 1_000_000_000;
            let served = self.recovery.total_ns(now) / 1_000_000_000;
            "recover in "@ + digits(
                if dwell >= served {
                    (dwell - served) as nat
                } else {
                    0
                },
            ) + "s"@
        } else {
            Seq::empty()
        }
    }
}

fn target_spans(p: &PrimaryProbe, ppm: u64, hold: &str) -> (r: Vec<Span>)
    requires
        p.wf(),
    ensures
        spans(r@) == target_row(p@, ppm as nat, hold@),
{
    let mut name = String::from_str(" ");
    name.append(dot(p.state));
    name.append("  ");
    name.append(padded_right(p.label.as_str(), 6).as_str());
    let last = match p.last_value {
        Some(v) => {
            let mut s = ms(v as u128, 0);
            s.append(" ms");
            s
        },
        None => String::from_str("timeout"),
    };
    let mut cur = String::from_str("cur ");
    cur.append(padded_right(last.as_str(), 10).as_str());
    let mean = match p.stat.avg() {
        Some(v) => ratio_ms(v, 0),
        None => String::from_str("—"),
    };
    let mut avg = String::from_str("avg ");
    avg.append(padded_right(mean.as_str(), 6).as_str());
    let share = percent_string(percent_of(p.lost, p.total, 0));
    let mut loss = String::from_str("loss ");
    loss.append(padded_left(share.as_str(), 5, ' ').as_str());
    loss.append("%  ");
    loss.append(dec(p.lost as u128).as_str());
    loss.append("/");
    loss.append(dec(p.total as u128).as_str());
    let host = padded_right(p.host.as_str(), 15);
    let tone = state_color(p.state);
    let mut r: Vec<Span> = Vec::new();
    put_bold(&mut r, name.as_str(), tone);
    put(&mut r, host.as_str(), Tone::Gray);
    put(&mut r, state_label(p.state), tone);
    put(&mut r, cur.as_str(), Tone::Plain);
    put(&mut r, avg.as_str(), Tone::Plain);
    put(&mut r, loss.as_str(), loss_color(p.lost, p.total, ppm));
    put(&mut r, hold, Tone::Muted);
    proof {
        assert(spans(r@) =~= target_row(p@, ppm as nat, hold@));
    }
    r
}

/// The targets, each with its state, times and losses.
pub fn draw_targets(app: &App, now: Instant) -> (v: TargetsView)
    requires
        app.wf(),
        app@.recovery.has_room(),
    ensures
        v.title@ == "Targets  "@ + digits(app@.primaries.len()) + " consensus members"@,
        lines_view(v.rows@) == Seq::new(
            app@.primaries.len(),
            |i: int|
                target_row(
                    app@.primaries[i],
                    app.cfg.degraded_loss_ppm as nat,
                    app@.hold_text(now),
                ),
        ),
{
    let mut hold = String::new();
    if app.recovery.resumed_at.is_some() {
        let dwell: u128 = app.cfg.recover_dwell.as_secs();
        let served: u128 = app.recovery.total(now).as_secs();
        hold = String::from_str("recover in ");
        hold.append(
            dec(
                if dwell >= served {
                    dwell - served
                } else {
                    0
                },
            ).as_str(),
        );
        hold.append("s");
    }
    let ghost text = app@.hold_text(now);
    proof {
        assert(hold@ =~= text);
    }
    let mut rows: Vec<Vec<Span>> = Vec::new();
    let mut i: usize = 0;
    while i < app.primaries.len()
        invariant
            i <= app.primaries.len(),
            app.wf(),
            hold@ == text,
            rows@.len() == i,
            forall|k: int|
                0 <= k < i ==> spans((#[trigger] rows@[k])@) == target_row(
                    app@.primaries[k],
                    app.cfg.degraded_loss_ppm as nat,
                    text,
                ),
        decreases app.primaries.len() - i,
    {
        proof {
            assert(app@.primaries[i as int].wf());
        }
        rows.push(target_spans(&app.primaries[i], app.cfg.degraded_loss_ppm, hold.as_str()));
        i = i + 1;
    }
    let mut title = String::from_str("Targets  ");
    title.append(dec(app.primaries.len() as u128).as_str());
    title.append(" consensus members");
    proof {
        assert(lines_view(rows@) =~= Seq::new(
            app@.primaries.len(),
            |i: int| target_row(app@.primaries[i], app.cfg.degraded_loss_ppm as nat, text),
        ));
    }
    TargetsView { title, rows }
}

// -------------------------------------------------------------------- extras

/// The line of an extra probe.
pub open spec fn extra_row(e: ExtraV) -> Seq<SpanV> {
    let loss = percent(e.lost as nat, e.total as nat, 0);
    seq![
        toned(" "@ + pad_right(e.label, 10), Tone::Accent),
        toned(" "@ + pad_right(e.host, 12), Tone::Gray),
        toned(state_label_text(e.state), state_tone_of(e.state)),
        toned(
            "   cur "@ + (match e.last {
                Some(v) => pad_left(ms_text(v as nat, 1), 6, ' ') + " ms"@,
                None => "   ---  "@,
            }),
            Tone::Plain,
        ),
        toned(
            "  loss "@ + percent_text(loss) + "%  "@ + digits(e.lost as nat) + "/"@ + digits(
                e.total as nat,
            ),
            if loss.num > 0 {
                Tone::Bad
            } else {
                Tone::Good
            },
        ),
    ]
}

fn extra_spans(e: &ExtraProbe) -> (r: Vec<Span>)
    ensures
        spans(r@) == extra_row(e@),
{
    let mut label = String::from_str(" ");
    label.append(padded_right(e.label.as_str(), 10).as_str());
    let mut host = String::from_str(" ");
    host.append(padded_right(e.host.as_str(), 12).as_str());
    let mut cur = String::from_str("   cur ");
    match e.last {
        Some(v) => {
            cur.append(padded_left(ms(v as u128, 1).as_str(), 6, ' ').as_str());
            cur.append(" ms");
        },
        None => {
            cur.append("   ---  ");
        },
    }
    let share = percent_of(e.lost, e.total, 0);
    let mut loss = String::from_str("  loss ");
    loss.append(percent_string(share).as_str());
    loss.append("%  ");
    loss.append(dec(e.lost as u128).as_str());
    loss.append("/");
    loss.append(dec(e.total as u128).as_str());
    let mut r: Vec<Span> = Vec::new();
    put(&mut r, label.as_str(), Tone::Accent);
    put(&mut r, host.as_str(), Tone::Gray);
    put(&mut r, state_label(e.state), state_color(e.state));
    put(&mut r, cur.as_str(), Tone::Plain);
    put(
        &mut r,
        loss.as_str(),
        if share.num > 0 {
            Tone::Bad
        } else {
            Tone::Good
        },
    );
    proof {
        assert(cur@ =~= extra_row(e@)[3].text);
        assert(spans(r@) =~= extra_row(e@));
    }
    r
}

/// The extra probes, one line each.
pub fn draw_extras(app: &App) -> (lines: Vec<Vec<Span>>)
    ensures
        lines_view(lines@) == Seq::new(app@.extras.len(), |i: int| extra_row(app@.extras[i])),
{
    let mut lines: Vec<Vec<Span>> = Vec::new();
    let mut i: usize = 0;
    while i < app.extras.len()
        invariant
            i <= app.extras.len(),
            lines@.len() == i,
            forall|k: int|
                0 <= k < i ==> spans((#[trigger] lines@[k])@) == extra_row(app@.extras[k]),
        decreases app.extras.len() - i,
    {
        lines.push(extra_spans(&app.extras[i]));
        i = i + 1;
    }
    proof {
        assert(lines_view(lines@) =~= Seq::new(
            app@.extras.len(),
            |i: int| extra_row(app@.extras[i]),
        ));
    }
    lines
}

// -------------------------------------------------------------------- events

/// The log, newest entry first.
pub struct EventsView {
    pub title: String,
    pub lines: Vec<Vec<Span>>,
}

pub open spec fn icon_text(l: Level) -> Seq<char> {
    match l {
        Level::Info => " · "@,
        Level::Warn => " ! "@,
        Level::Bad => " ✗ "@,
        Level::Good => " ✓ "@,
    }
}

fn icon(l: Level) -> (r: &'static str)
    ensures
        r@ == icon_text(l),
{
    match l {
        Level::Info => " · ",
        Level::Warn => " ! ",
        Level::Bad => " ✗ ",
        Level::Good => " ✓ ",
    }
}

/// The line of an entry: its icon, its time and its text.
pub open spec fn is_event_line(line: Seq<SpanV>, e: EventV) -> bool {
    &&& line.len() == 3
    &&& line[0] == toned(icon_text(e.level), level_tone(e.level))
    &&& line[1].tone == Tone::Muted && !line[1].bold
    &&& exists|t: Seq<char>| #[trigger] is_wall_text(t, e.ts) && line[1].text == t + " "@
    &&& line[2] == toned(e.msg, level_tone(e.level))
}

/// The log, newest first.
pub fn draw_events(app: &App) -> (v: EventsView)
    ensures
        v.title@ == "Events ("@ + digits(app@.events.len()) + "/"@ + digits(EVENTS_CAP as nat)
            + ", newest first)"@,
        v.lines@.len() == app@.events.len(),
        forall|i: int|
            0 <= i < v.lines@.len() ==> is_event_line(
                spans((#[trigger] v.lines@[i])@),
                app@.events[app@.events.len() - 1 - i],
            ),
{
    let n: usize = app.events.len();
    let mut title = String::from_str("Events (");
    title.append(dec(n as u128).as_str());
    title.append("/");
    title.append(dec(EVENTS_CAP as u128).as_str());
    title.append(", newest first)");
    let mut lines: Vec<Vec<Span>> = Vec::new();
    while lines.len() < n
        invariant
            lines.len() <= n,
            n == app.events@.len(),
            forall|i: int|
                0 <= i < lines@.len() ==> is_event_line(
                    spans((#[trigger] lines@[i])@),
                    app@.events[app@.events.len() - 1 - i],
                ),
        decreases n - lines.len(),
    {
        let at: usize = n - 1 - lines.len();
        let e = &app.events[at];
        let tone = level_color(e.level);
        let wall = fmt_wall(e.ts);
        let mut stamp = wall.clone();
        stamp.append(" ");
        let mut line: Vec<Span> = Vec::new();
        put(&mut line, icon(e.level), tone);
        put(&mut line, stamp.as_str(), Tone::Muted);
        put(&mut line, e.msg.as_str(), tone);
        proof {
            assert(is_wall_text(wall@, e.ts));
            assert(spans(line@) =~= seq![
                toned(icon_text(e.level), level_tone(e.level)),
                toned(wall@ + " "@, Tone::Muted),
                toned(e.msg@, level_tone(e.level)),
            ]);
            let v = app@.events[at as int];
            assert(v == e@);
            assert(is_wall_text(wall@, v.ts) && spans(line@)[1].text == wall@ + " "@);
            assert(is_event_line(spans(line@), v));
        }
        lines.push(line);
    }
    EventsView { title, lines }
}

// --------------------------------------------------------------------- stats

/// Spikes with the time of day, two blanks between two.
pub open spec fn spikes_text(s: Seq<(u64, u64)>) -> Seq<char>
    decreases s.len(),
{
    if s.len() == 0 {
        Seq::empty()
    } else {
        let e = s.last();
        let here = ms_text(e.0 as nat, 0) + "ms@"@ + clock_text(e.1 as nat);
        if s.len() == 1 {
            here
        } else {
            spikes_text(s.drop_last()) + "  "@ + here
        }
    }
}

fn spikes(v: &Vec<(u64, u64)>) -> (s: String)
    ensures
        s@ == spikes_text(v@),
{
    let mut s = String::new();
    let mut i: usize = 0;
    while i < v.len()
        invariant
            i <= v.len(),
            s@ == spikes_text(v@.take(i as int)),
        decreases v.len() - i,
    {
        proof {
            assert(v@.take(i + 1).drop_last() =~= v@.take(i as int));
        }
        if i > 0 {
            s.append("  ");
        }
        let ghost before = s@;
        s.append(ms(v[i].0 as u128, 0).as_str());
        s.append("ms@");
        s.append(fmt_clock_short(v[i].1).as_str());
        proof {
            let e = v@[i as int];
            assert(s@ =~= before + (ms_text(e.0 as nat, 0) + "ms@"@ + clock_text(e.1 as nat)));
            assert(s@ =~= spikes_text(v@.take(i + 1)));
        }
        i = i + 1;
    }
    proof {
        assert(v@.take(i as int) =~= v@);
    }
    s
}

pub open spec fn tone_if(cond: bool, yes: Tone, no: Tone) -> Tone {
    if cond {
        yes
    } else {
        no
    }
}

fn tone_when(cond: bool, yes: Tone, no: Tone) -> (t: Tone)
    ensures
        t == tone_if(cond, yes, no),
{
    if cond {
        yes
    } else {
        no
    }
}

impl AppV {
    pub open spec fn up_share(self) -> Ratio {
        percent(self.sess_up_ms as nat, self.session_ms(), 100)
    }

    pub open spec fn degraded_share(self) -> Ratio {
        percent(self.sess_degraded_ms as nat, self.session_ms(), 0)
    }

    pub open spec fn down_share(self) -> Ratio {
        percent(self.sess_down_ms as nat, self.session_ms(), 0)
    }

    /// The mean time to recover, in whole milliseconds.
    pub open spec fn mean_recovery_ms(self) -> nat {
        if self.recoveries == 0 {
            0
        } else {
            self.mttr_ms_total as nat / self.recoveries as nat
        }
    }

    /// Streaks and extremes.
    pub open spec fn streaks_line(self, now: Instant) -> Seq<SpanV> {
        seq![
            toned(" best uptime "@, Tone::Muted),
            toned(hms_text(self.best_uptime_secs as nat), Tone::Good),
            toned("   "@, Tone::Plain),
            toned(" current up "@, Tone::Muted),
            toned(hms_text(elapsed_secs(self.up_since, now)), Tone::Accent),
            toned("   "@, Tone::Plain),
            toned(" worst burst "@, Tone::Muted),
            toned(
                digits(self.worst_loss_burst as nat),
                tone_if(self.worst_loss_burst > 0, Tone::Warn, Tone::Good),
            ),
            toned("   "@, Tone::Plain),
            toned(" peak lat "@, Tone::Muted),
            toned(
                ms_text(self.peak_latency as nat, 0) + " ms"@,
                tone_if(self.peak_latency > self.cfg.latency_bad_ns, Tone::Bad, Tone::Good),
            ),
            toned("   "@, Tone::Plain),
            toned(" peak jit "@, Tone::Muted),
            toned(
                ms_text(self.peak_jitter as nat, 0) + " ms"@,
                tone_if(self.peak_jitter > self.cfg.jitter_warn_ns, Tone::Warn, Tone::Good),
            ),
        ]
    }

    /// Shares of the session and counters.
    pub open spec fn session_line(self) -> Seq<SpanV> {
        seq![
            toned(" up "@, Tone::Muted),
            toned(
                percent_text(self.up_share()) + "%"@,
                tone_if(
                    self.up_share().num >= 95 * self.up_share().den,
                    Tone::Good,
                    Tone::Warn,
                ),
            ),
            toned("   "@, Tone::Plain),
            toned(" degraded "@, Tone::Muted),
            toned(
                percent_text(self.degraded_share()) + "%"@,
                tone_if(self.degraded_share().num > 0, Tone::Warn, Tone::Good),
            ),
            toned("   "@, Tone::Plain),
            toned(" down "@, Tone::Muted),
            toned(
                percent_text(self.down_share()) + "%"@,
                tone_if(self.down_share().num > 0, Tone::Bad, Tone::Good),
            ),
            toned("   "@, Tone::Plain),
            toned(" MTTR "@, Tone::Muted),
            toned(hms_text(self.mean_recovery_ms() / 1000), Tone::Accent),
            toned("   "@, Tone::Plain),
            toned(" recoveries "@, Tone::Muted),
            toned(digits(self.recoveries as nat), Tone::Good),
            toned("   "@, Tone::Plain),
            toned(" outages "@, Tone::Muted),
            toned(
                digits(self.outages as nat),
                tone_if(self.outages > 0, Tone::Bad, Tone::Good),
            ),
        ]
    }

    /// The highest spikes.
    pub open spec fn spikes_line(self) -> Seq<SpanV> {
        seq![
            toned(" top lat "@, Tone::Muted),
            toned(spikes_text(self.top_latency), Tone::Warn),
            toned("   "@, Tone::Plain),
            toned(" top jit "@, Tone::Muted),
            toned(spikes_text(self.top_jitter), Tone::Warn),
        ]
    }

    /// The lines of the streaks. The spikes need a frame that is high and wide
    /// enough, and something to show.
    pub open spec fn stats_lines(self, area: Area, now: Instant) -> Seq<Seq<SpanV>> {
        seq![self.streaks_line(now), self.session_line()] + (if area.height >= 5 && area.width
            >= 100 && (self.top_latency.len() > 0 || self.top_jitter.len() > 0) {
            seq![self.spikes_line()]
        } else {
            Seq::empty()
        })
    }
}

fn streak_spans(app: &App, now: Instant) -> (r: Vec<Span>)
    ensures
        spans(r@) == app@.streaks_line(now),
{
    let mut lat = ms(app.peak_latency as u128, 0);
    lat.append(" ms");
    let mut jit = ms(app.peak_jitter as u128, 0);
    jit.append(" ms");
    let best = hms(app.best_uptime_secs);
    let cur = hms(app.cur_uptime_secs(now));
    let burst = dec(app.worst_loss_burst as u128);
    let mut r: Vec<Span> = Vec::new();
    put(&mut r, " best uptime ", Tone::Muted);
    put(&mut r, best.as_str(), Tone::Good);
    put(&mut r, "   ", Tone::Plain);
    put(&mut r, " current up ", Tone::Muted);
    put(&mut r, cur.as_str(), Tone::Accent);
    put(&mut r, "   ", Tone::Plain);
    put(&mut r, " worst burst ", Tone::Muted);
    put(&mut r, burst.as_str(), tone_when(app.worst_loss_burst > 0, Tone::Warn, Tone::Good));
    put(&mut r, "   ", Tone::Plain);
    put(&mut r, " peak lat ", Tone::Muted);
    put(
        &mut r,
        lat.as_str(),
        tone_when(app.peak_latency > app.cfg.latency_bad_ns, Tone::Bad, Tone::Good),
    );
    put(&mut r, "   ", Tone::Plain);
    put(&mut r, " peak jit ", Tone::Muted);
    put(
        &mut r,
        jit.as_str(),
        tone_when(app.peak_jitter > app.cfg.jitter_warn_ns, Tone::Warn, Tone::Good),
    );
    proof {
        assert(spans(r@) =~= app@.streaks_line(now));
    }
    r
}

fn session_spans(app: &App) -> (r: Vec<Span>)
    requires
        app.wf(),
    ensures
        spans(r@) == app@.session_line(),
{
    let up = app.uptime_pct();
    let degraded = app.degraded_pct();
    let down = app.down_pct();
    let mut up_text = percent_string(up);
    up_text.append("%");
    let mut degraded_text = percent_string(degraded);
    degraded_text.append("%");
    let mut down_text = percent_string(down);
    down_text.append("%");
    let mttr = hms(app.mttr_ms() / 1000);
    let recoveries = dec(app.recoveries as u128);
    let outages = dec(app.outages as u128);
    let mut r: Vec<Span> = Vec::new();
    put(&mut r, " up ", Tone::Muted);
    put(&mut r, up_text.as_str(), tone_when(up.num >= 95 * up.den, Tone::Good, Tone::Warn));
    put(&mut r, "   ", Tone::Plain);
    put(&mut r, " degraded ", Tone::Muted);
    put(&mut r, degraded_text.as_str(), tone_when(degraded.num > 0, Tone::Warn, Tone::Good));
    put(&mut r, "   ", Tone::Plain);
    put(&mut r, " down ", Tone::Muted);
    put(&mut r, down_text.as_str(), tone_when(down.num > 0, Tone::Bad, Tone::Good));
    put(&mut r, "   ", Tone::Plain);
    put(&mut r, " MTTR ", Tone::Muted);
    put(&mut r, mttr.as_str(), Tone::Accent);
    put(&mut r, "   ", Tone::Plain);
    put(&mut r, " recoveries ", Tone::Muted);
    put(&mut r, recoveries.as_str(), Tone::Good);
    put(&mut r, "   ", Tone::Plain);
    put(&mut r, " outages ", Tone::Muted);
    put(&mut r, outages.as_str(), tone_when(app.outages > 0, Tone::Bad, Tone::Good));
    proof {
        assert(spans(r@) =~= app@.session_line());
    }
    r
}

fn spike_spans(app: &App) -> (r: Vec<Span>)
    ensures
        spans(r@) == app@.spikes_line(),
{
    let lat = spikes(&app.top_latency);
    let jit = spikes(&app.top_jitter);
    let mut r: Vec<Span> = Vec::new();
    put(&mut r, " top lat ", Tone::Muted);
    put(&mut r, lat.as_str(), Tone::Warn);
    put(&mut r, "   ", Tone::Plain);
    put(&mut r, " top jit ", Tone::Muted);
    put(&mut r, jit.as_str(), Tone::Warn);
    proof {
        assert(spans(r@) =~= app@.spikes_line());
    }
    r
}

/// Streaks, shares of the session and, where there is room, the highest spikes.
pub fn draw_stats(app: &App, area: Area, now: Instant) -> (lines: Vec<Vec<Span>>)
    requires
        app.wf(),
    ensures
        lines_view(lines@) == app@.stats_lines(area, now),
{
    let mut lines: Vec<Vec<Span>> = Vec::new();
    lines.push(streak_spans(app, now));
    lines.push(session_spans(app));
    if area.height >= 5 && area.width >= 100 && (app.top_latency.len() > 0 || app.top_jitter.len()
        > 0) {
        lines.push(spike_spans(app));
    }
    proof {
        assert(lines_view(lines@) =~= app@.stats_lines(area, now));
    }
    lines
}

/// A column of the heatmap never exceeds the frame, unless a loss has to be shown
/// in a frame without rows.
pub proof fn law_columns_fit(b: HistV, rows: nat, warn: nat, bad: nat)
    requires
        rows > 0,
    ensures
        heat_column(b, rows, warn, bad).1 <= rows,
{
    if let Some(p) = b.peak_rtt {
        if 10 * p < 12 * bad {
            let q = (10 * p * rows + 12 * bad - 1) / (12 * bad) as int;
            assert(q <= rows) by (nonlinear_arith)
                requires
                    q == (10 * p * rows + 12 * bad - 1) / (12 * bad) as int,
                    0 <= 10 * p < 12 * bad,
                    rows > 0,
            ;
        }
    }
}

/// The columns of the heatmap. Nothing happened: no column. Nothing was answered: a full bad
/// one. Otherwise the column grows with the peak, up to the full height at 1.2 times the
/// bad limit, and its tone is bad above that limit, a warning above the other, and set
/// apart from good above 0.6 times the latter. Any loss makes it bad and at least one high.
pub proof fn law_heatmap_columns(b: HistV, rows: nat, warn: nat, bad: nat)
    requires
        bad > 0,
        rows > 0,
        b.loss <= b.count,
        b.peak_rtt is Some ==> b.count > b.loss,
    ensures
        ({
            let c = heat_column(b, rows, warn, bad);
            &&& b.count == 0 ==> c == (Tone::Muted, 0nat)
            &&& b.count > 0 && b.peak_rtt is None ==> c == (Tone::Bad, rows)
            &&& b.loss > 0 ==> c.0 == Tone::Bad && c.1 >= 1
            &&& b.peak_rtt matches Some(p) ==> {
                &&& c.0 == Tone::Bad <==> p > bad || b.loss > 0
                &&& c.0 == Tone::Warn <==> warn < p <= bad && b.loss == 0
                &&& c.0 == Tone::Good <==> 10 * p <= 6 * warn && p <= bad && b.loss == 0
                &&& 10 * p >= 12 * bad ==> c.1 == rows
                &&& 10 * p < 12 * bad && b.loss == 0 ==> 10 * p * rows <= c.1 * (12 * bad) && (
                c.1 > 0 ==> (c.1 - 1) * (12 * bad) < 10 * p * rows)
            }
        }),
{
    if b.peak_rtt is Some {
        let p = b.peak_rtt->0 as nat;
        let q = ceil_div(10 * p * rows, 12 * bad);
        lemma_ceil_div(10 * p * rows, 12 * bad);
        assert(p > 0 ==> q > 0) by (nonlinear_arith)
            requires
                10 * p * rows <= q * (12 * bad),
                rows > 0,
        ;
    }
}

proof fn lemma_ceil_div(a: nat, b: nat)
    requires
        b > 0,
    ensures
        a <= ceil_div(a, b) * b,
        ceil_div(a, b) > 0 ==> (ceil_div(a, b) - 1) * b < a,
{
    let q = ceil_div(a, b) as int;
    let x = a + b - 1;
    vstd::arithmetic::div_mod::lemma_fundamental_div_mod(x, b as int);
    vstd::arithmetic::div_mod::lemma_mod_bound(x, b as int);
    assert(b * q == q * b && (q - 1) * b == q * b - b) by (nonlinear_arith);
}

/// A division that is rounded up gives the least whole number that is enough.
pub proof fn law_division_rounds_up(a: nat, b: nat)
    requires
        b > 0,
    ensures
        a <= ceil_div(a, b) * b,
        a == 0 ==> ceil_div(a, b) == 0,
        ceil_div(a, b) > 0 ==> (ceil_div(a, b) - 1) * b < a,
{
    lemma_ceil_div(a, b);
    if a == 0 {
        assert((b - 1) / b as int == 0) by (nonlinear_arith)
            requires
                b > 0,
        ;
    }
}

/// The losses of all targets, place by place of their windows: as many bars as the longest
/// window has places, each the number of targets that lost the probe at that place.
pub proof fn law_losses_place_by_place(ps: Seq<ProbeV>, p: ProbeV, i: int)
    requires
        0 <= i,
    ensures
        longest_window(Seq::empty()) == 0,
        longest_window(ps.push(p)) >= longest_window(ps),
        longest_window(ps.push(p)) >= p.loss_ring.items.len(),
        longest_window(ps.push(p)) == longest_window(ps) || longest_window(ps.push(p))
            == p.loss_ring.items.len(),
        losses_at(Seq::empty(), i) == 0,
        losses_at(ps.push(p), i) == losses_at(ps, i) + (if i < p.loss_ring.items.len()
            && p.loss_ring.items[i] {
            1int
        } else {
            0
        }),
        losses(ps).len() == longest_window(ps),
{
    assert(ps.push(p).drop_last() =~= ps);
}

/// An answer at its limit is already slow: bad from the bad limit on, a warning from the
/// warning limit on.
pub proof fn law_answers_have_tones(v: nat, n: nat, warn: nat, bad: nat)
    ensures
        answer_tone(v, n, warn, bad) == Tone::Bad <==> v >= bad * n,
        answer_tone(v, n, warn, bad) == Tone::Good <==> v < warn * n && v < bad * n,
{
}

/// A loss looks bad from the limit of a degraded target on, a warning where there is any, and
/// good where there is none.
pub proof fn law_losses_have_tones(lost: nat, all: nat, ppm: nat)
    requires
        0 < all <= u64::MAX,
        lost <= all,
        ppm > 0,
    ensures
        loss_tone(lost, all, ppm) == Tone::Bad <==> lost * 1_000_000 >= ppm * all,
        lost == 0 ==> loss_tone(lost, all, ppm) == Tone::Good,
        lost > 0 ==> loss_tone(lost, all, ppm) != Tone::Good,
{
    assert(ppm * all > 0) by (nonlinear_arith)
        requires
            ppm > 0,
            all > 0,
    ;
}

/// What is left of a recovery is shown while it runs: the dwell less what was served, in
/// whole seconds, and nothing otherwise.
pub proof fn law_hold_is_shown_while_it_runs(a: AppV, now: Instant)
    ensures
        a.recovery.resumed_at is None ==> a.hold_text(now).len() == 0,
        a.recovery.resumed_at is Some ==> exists|n: nat|
            a.hold_text(now) == "recover in "@ + #[trigger] digits(n) + "s"@ && (n
                + a.recovery.total_ns(now) / 1_000_000_000 == a.cfg.recover_dwell.ns as nat
                / 1_000_000_000 || (n == 0 && a.recovery.total_ns(now) / 1_000_000_000
                > a.cfg.recover_dwell.ns as nat / 1_000_000_000)),
{
    if a.recovery.resumed_at is Some {
        let dwell = a.cfg.recover_dwell.ns as nat / 1_000_000_000;
        let served = a.recovery.total_ns(now) / 1_000_000_000;
        let n = if dwell >= served {
            (dwell - served) as nat
        } else {
            0
        };
        assert(a.hold_text(now) == "recover in "@ + digits(n) + "s"@);
    }
}

/// The mean time to recover is what all recoveries took over their number, in whole
/// milliseconds.
pub proof fn law_mean_recovery_time(a: AppV)
    ensures
        a.recoveries == 0 ==> a.mean_recovery_ms() == 0,
        a.recoveries > 0 ==> a.mean_recovery_ms() * a.recoveries <= a.mttr_ms_total < (
        a.mean_recovery_ms() + 1) * a.recoveries,
{
    if a.recoveries > 0 {
        let (t, n) = (a.mttr_ms_total as int, a.recoveries as int);
        vstd::arithmetic::div_mod::lemma_fundamental_div_mod(t, n);
        vstd::arithmetic::div_mod::lemma_mod_bound(t, n);
        let q = t / n;
        assert(n * q == q * n && (q + 1) * n == q * n + n) by (nonlinear_arith);
    }
}

/// The short form of a name is the label before its last one; a dot at its end does not count,
/// and a name of one label is shown as it is.
pub proof fn law_short_names(head: Seq<char>, label: Seq<char>, top: Seq<char>)
    requires
        top.len() > 0,
        forall|i: int| 0 <= i < label.len() ==> #[trigger] label[i] != '.',
        forall|i: int| 0 <= i < top.len() ==> #[trigger] top[i] != '.',
    ensures
        short_text(label.push('.') + top) == label,
        short_text(head.push('.') + label.push('.') + top) == label,
        short_text((head.push('.') + label.push('.') + top).push('.')) == label,
        short_text(top) == top,
{
    let sep = Separator::Char('.');
    assert forall|i: int| 0 <= i < label.len() implies !sep.picks(#[trigger] label[i]) by {}
    assert forall|i: int| 0 <= i < top.len() implies !sep.picks(#[trigger] top[i]) by {}
    let tail = label.push('.') + top;
    let name = head.push('.') + label.push('.') + top;
    assert(name =~= head.push('.') + tail);
    law_split_at_each_separator(head, '.', tail, sep);
    law_split_at_each_separator(label, '.', top, sep);
    law_split_at_each_separator(top, '.', Seq::empty(), sep);
    assert(split_on(tail, '.') =~= seq![label, top]);
    let parts = split_on(name, '.');
    assert(parts =~= split_on(head, '.') + seq![label, top]);
    assert(parts[parts.len() - 2] == label);
    assert(name.last() == top[top.len() - 1]);
    assert(tail.last() == top[top.len() - 1]);
    assert(trim_end_char(name, '.') == name);
    assert(trim_end_char(tail, '.') == tail);
    assert(trim_end_char(top, '.') == top);
    assert(name.push('.').drop_last() =~= name);
    assert(trim_end_char(name.push('.'), '.') == name);
}

/// The heatmap shows the latest slices, as many as fit, the latest of all last.
pub proof fn law_heatmap_shows_the_latest(a: AppV, area: Area)
    ensures
        a.heat_slices(area) <= a.hist.len(),
        area.width >= 4 ==> a.heat_slices(area) <= area.width - 2 && (a.heat_slices(area)
            == a.hist.len() || a.heat_slices(area) == area.width - 2),
        area.width < 4 ==> a.heat_slices(area) == 0,
        a.heat_slices(area) > 0 ==> a.heat_slice(area, a.heat_slices(area) - 1) == a.hist[a.hist.len()
            - 1],
{
}

/// The spikes are shown below the streaks where the frame is at least five high and a hundred
/// wide, and where there are any.
pub proof fn law_spikes_need_room(a: AppV, area: Area, now: Instant)
    ensures
        a.stats_lines(area, now).len() == (if area.height >= 5 && area.width >= 100 && (
        a.top_latency.len() > 0 || a.top_jitter.len() > 0) {
            3int
        } else {
            2
        }),
{
}

/// The pooled loss reaches a limit where the lost probes are that share of all.
pub proof fn law_loss_reaches_its_limit(a: AppV, ppm: nat)
    requires
        0 < total_of(a.primaries) <= u64::MAX,
        lost_of(a.primaries) <= total_of(a.primaries),
    ensures
        a.loss_reaches(ppm) <==> lost_of(a.primaries) * 1_000_000 >= ppm * total_of(a.primaries),
{
}

/// All DNS fails where no resolver has an answer to any name.
pub proof fn law_all_dns_fails(a: AppV)
    ensures
        a.all_dns_fails() <==> forall|i: int, j: int|
            0 <= i < a.dns.cells.len() && 0 <= j < a.dns.cells[i].len() ==> (
            #[trigger] a.dns.cells[i][j]).last is None,
{
    let rows = a.dns.cells;
    if a.all_dns_fails() {
        assert forall|i: int, j: int| 0 <= i < rows.len() && 0 <= j < rows[i].len() implies (
        #[trigger] rows[i][j]).last is None by {
            assert(row_fails(rows[i]));
        }
    }
    if forall|i: int, j: int|
        0 <= i < rows.len() && 0 <= j < rows[i].len() ==> (#[trigger] rows[i][j]).last is None {
        assert forall|i: int| 0 <= i < rows.len() implies row_fails(#[trigger] rows[i]) by {
            assert forall|j: int| 0 <= j < rows[i].len() implies (#[trigger] rows[i][j]).last
                is None by {}
        }
    }
}

/// The shares of a session are judged: up is good from 95 percent on, degraded and down are
/// good only where there is none of them.
pub proof fn law_session_tones(a: AppV)
    requires
        0 < a.session_ms() <= u64::MAX,
    ensures
        a.session_line()[1].tone == Tone::Good <==> 100 * a.sess_up_ms >= 95 * a.session_ms(),
        a.session_line()[4].tone == Tone::Good <==> a.sess_degraded_ms == 0,
        a.session_line()[7].tone == Tone::Good <==> a.sess_down_ms == 0,
        a.session_line()[16].tone == Tone::Good <==> a.outages == 0,
{
}

/// The extremes are judged by the configured limits.
pub proof fn law_extremes_have_tones(a: AppV, now: Instant)
    ensures
        a.streaks_line(now)[7].tone == Tone::Good <==> a.worst_loss_burst == 0,
        a.streaks_line(now)[10].tone == Tone::Bad <==> a.peak_latency > a.cfg.latency_bad_ns,
        a.streaks_line(now)[13].tone == Tone::Warn <==> a.peak_jitter > a.cfg.jitter_warn_ns,
{
}

/// A cell of the matrix shows its latest answer in the tone of its time, and a missing one as
/// failed; the mean of a row is judged in the same way, over its answers alone.
pub proof fn law_matrix_cells_are_judged(row: Seq<CellV>, last: Option<u64>, warn: nat, bad: nat)
    ensures
        last is None ==> dns_cell(last, warn, bad)[0].tone == Tone::Bad,
        last matches Some(v) ==> {
            &&& dns_cell(last, warn, bad)[0].tone == Tone::Bad <==> v >= bad
            &&& dns_cell(last, warn, bad)[0].tone == Tone::Good <==> v < warn && v < bad
            &&& dns_cell(last, warn, bad)[1].tone == dns_cell(last, warn, bad)[0].tone
            &&& dns_cell(last, warn, bad)[1].text == " "@ + ms_text(v as nat, 0) + "ms"@
        },
        row_answers(row).len() == 0 ==> dns_mean_cell(row, warn, bad)[0].tone == Tone::Bad,
        row_answers(row).len() > 0 ==> (dns_mean_cell(row, warn, bad)[0].tone == Tone::Bad <==> total(
            row_answers(row),
        ) >= bad * row_answers(row).len()),
{
    if last is Some {
        let v = last->0 as nat;
        assert(bad * 1 == bad && warn * 1 == warn);
    }
}

/// The answers of a row are the latest ones of its cells that have one.
pub proof fn law_row_answers(row: Seq<CellV>, c: CellV)
    ensures
        c.last is None ==> row_answers(row.push(c)) == row_answers(row),
        c.last matches Some(v) ==> row_answers(row.push(c)) == row_answers(row).push(v),
{
    let s = Seq::new(row.len(), |j: int| row[j].last);
    let t = Seq::new(row.push(c).len(), |j: int| row.push(c)[j].last);
    assert(t.drop_last() =~= s);
    assert(t.last() == c.last);
}

/// A line of a resolver has its label first, then a cell for each name, then the mean.
pub proof fn law_matrix_rows(label: Seq<char>, row: Seq<CellV>, warn: nat, bad: nat, j: int)
    requires
        0 <= j < row.len(),
    ensures
        dns_row(label, row, warn, bad).len() == row.len() + 2,
        dns_row(label, row, warn, bad)[j + 1] == dns_cell(row[j].last, warn, bad),
        dns_row(label, row, warn, bad)[row.len() as int + 1] == dns_mean_cell(row, warn, bad),
{
}

/// The line of a target shows its state, whether its last probe was answered, and its losses
/// in their tone.
pub proof fn law_target_lines(p: ProbeV, ppm: nat, hold: Seq<char>)
    requires
        0 < p.total,
        p.lost <= p.total,
        ppm > 0,
    ensures
        ({
            let row = target_row(p, ppm, hold);
            &&& row[0].tone == state_tone_of(p.state) && row[2].tone == state_tone_of(p.state)
            &&& row[2].text == state_label_text(p.state)
            &&& p.last_value is None ==> row[3].text == "cur "@ + pad_right("timeout"@, 10)
            &&& p.last_value matches Some(v) ==> row[3].text == "cur "@ + pad_right(
                ms_text(v as nat, 0) + " ms"@,
                10,
            )
            &&& row[5].tone == Tone::Bad <==> p.lost * 1_000_000 >= ppm * p.total
            &&& row[5].tone == Tone::Good <==> p.lost == 0
            &&& row[6].text == hold
        }),
{
    law_losses_have_tones(p.lost as nat, p.total as nat, ppm);
}

/// The line of an extra probe shows its state, and any loss as bad.
pub proof fn law_extra_lines(e: ExtraV)
    requires
        e.lost <= e.total,
    ensures
        extra_row(e)[2].text == state_label_text(e.state),
        extra_row(e)[2].tone == state_tone_of(e.state),
        extra_row(e)[4].tone == Tone::Bad <==> e.lost > 0,
{
}

/// Where all DNS fails the title says so; where only the system's resolver does, it says that.
pub proof fn law_dns_title_marks_failures(a: AppV)
    ensures
        ({
            let plain = "DNS Matrix  "@ + digits(a.dns.resolvers.len()) + "×"@ + digits(
                a.dns.names.len(),
            ) + "  (warn "@ + digits(a.cfg.dns_warn_ns as nat / 1_000_000) + "ms / bad "@ + digits(
                a.cfg.dns_bad_ns as nat / 1_000_000,
            ) + "ms)"@;
            let sys = a.dns.cells.len() > 0 && forall|j: int|
                0 <= j < a.dns.cells[0].len() ==> (#[trigger] a.dns.cells[0][j]).last is None;
            &&& a.all_dns_fails() ==> a.dns_title() == plain + "  ⚠ ALL DNS FAILING"@
            &&& !a.all_dns_fails() && sys ==> a.dns_title() == plain
                + "  ⚠ SYSTEM DNS DOWN — alternates OK"@
            &&& !a.all_dns_fails() && !sys ==> a.dns_title() == plain + Seq::<char>::empty()
        }),
{
}

} // verus!
