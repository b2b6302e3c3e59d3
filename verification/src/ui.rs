//! What the screen shows, as data: spans of text with a tone, charts and a layout.
use ratatui::layout::{Constraint, Direction, Layout, Rect};
use vstd::prelude::*;
use crate::app::{lost_of, total_of, App, AppV, Level};
use crate::detector::or_else;
use crate::insight::{diagnose, insights_view, InsightV};
use crate::pool::pooled_stat;
use crate::probe::ProbeV;
use crate::state::LinkState;
use crate::stats::{ratio_ms, ratio_ms_text, Ratio};
use crate::text::{
    dec, digits, fixed, fixed_text, ms, ms_text, pad_left, padded_left, FIXED_LIMIT,
};
use crate::time::Instant;

verus! {

// --------------------------------------------------------------------- spans

/// The colours of the screen, by what they mean.
#[derive(Clone, Copy, PartialEq, Eq, Structural, Debug)]
pub enum Tone {
    Plain,
    Accent,
    Muted,
    Good,
    Warn,
    Bad,
    Dim,
    Gray,
}

/// A piece of text with a tone.
#[derive(Clone)]
pub struct Span {
    pub text: String,
    pub tone: Tone,
    pub bold: bool,
}

/// What a [`Span`] holds.
#[verifier::ext_equal]
pub struct SpanV {
    pub text: Seq<char>,
    pub tone: Tone,
    pub bold: bool,
}

impl View for Span {
    type V = SpanV;

    open spec fn view(&self) -> SpanV {
        SpanV { text: self.text@, tone: self.tone, bold: self.bold }
    }
}

pub open spec fn spans(v: Seq<Span>) -> Seq<SpanV> {
    Seq::new(v.len(), |i: int| v[i]@)
}

pub open spec fn lines_view(v: Seq<Vec<Span>>) -> Seq<Seq<SpanV>> {
    Seq::new(v.len(), |i: int| spans(v[i]@))
}

/// Text in a tone.
pub open spec fn toned(text: Seq<char>, tone: Tone) -> SpanV {
    SpanV { text, tone, bold: false }
}

/// Bold text in a tone.
pub open spec fn bold(text: Seq<char>, tone: Tone) -> SpanV {
    SpanV { text, tone, bold: true }
}

/// Appends text in a tone.
pub fn put(v: &mut Vec<Span>, text: &str, tone: Tone)
    ensures
        spans(final(v)@) == spans(old(v)@).push(toned(text@, tone)),
{
    v.push(Span { text: String::from_str(text), tone, bold: false });
    proof {
        assert(spans(v@) =~= spans(old(v)@).push(toned(text@, tone)));
    }
}

/// Appends bold text in a tone.
pub fn put_bold(v: &mut Vec<Span>, text: &str, tone: Tone)
    ensures
        spans(final(v)@) == spans(old(v)@).push(bold(text@, tone)),
{
    v.push(Span { text: String::from_str(text), tone, bold: true });
    proof {
        assert(spans(v@) =~= spans(old(v)@).push(bold(text@, tone)));
    }
}

pub open spec fn state_tone_of(s: LinkState) -> Tone {
    match s {
        LinkState::Up => Tone::Good,
        LinkState::Degraded => Tone::Warn,
        LinkState::Down => Tone::Bad,
    }
}

pub fn state_color(s: LinkState) -> (t: Tone)
    ensures
        t == state_tone_of(s),
{
    match s {
        LinkState::Up => Tone::Good,
        LinkState::Degraded => Tone::Warn,
        LinkState::Down => Tone::Bad,
    }
}

pub open spec fn state_label_text(s: LinkState) -> Seq<char> {
    match s {
        LinkState::Up => "● Online"@,
        LinkState::Degraded => "◐ Degraded"@,
        LinkState::Down => "○ Down"@,
    }
}

pub fn state_label(s: LinkState) -> (r: &'static str)
    ensures
        r@ == state_label_text(s),
{
    match s {
        LinkState::Up => "● Online",
        LinkState::Degraded => "◐ Degraded",
        LinkState::Down => "○ Down",
    }
}

/// The tone of a score: good from 75 points on, fair from 40 on.
pub open spec fn score_tone(score: Ratio) -> Tone {
    if score.num >= 75 * score.den {
        Tone::Good
    } else if score.num >= 40 * score.den {
        Tone::Warn
    } else {
        Tone::Bad
    }
}

pub fn score_color(score: Ratio) -> (t: Tone)
    requires
        score.den <= FIXED_LIMIT,
    ensures
        t == score_tone(score),
{
    if score.num >= 75 * score.den {
        Tone::Good
    } else if score.num >= 40 * score.den {
        Tone::Warn
    } else {
        Tone::Bad
    }
}

/// The tone of a value against two limits.
pub open spec fn limit_tone(v: nat, warn: nat, bad: nat) -> Tone {
    if v > bad {
        Tone::Bad
    } else if v > warn {
        Tone::Warn
    } else {
        Tone::Good
    }
}

// -------------------------------------------------------------------- layout

/// A rectangle of the screen.
#[derive(Clone, Copy, PartialEq, Eq, Structural, Debug)]
pub struct Area {
    pub x: u16,
    pub y: u16,
    pub width: u16,
    pub height: u16,
}

/// How much room a part of the screen gets.
#[derive(Clone, Copy, PartialEq, Eq, Structural, Debug)]
pub enum Room {
    Length(u16),
    Min(u16),
    Percentage(u16),
}

/// The parts of the screen.
#[derive(Clone, Copy, PartialEq, Eq, Structural, Debug)]
pub enum Panel {
    Header,
    Insights,
    Latency,
    Targets,
    Heatmap,
    Loss,
    Jitter,
    Dns,
    Extras,
    Stats,
    Events,
    Footer,
}

/// The end of `size` cells from `start` on, on a screen of the largest size.
pub open spec fn end_of(start: u16, size: u16) -> int {
    if start + size <= u16::MAX {
        start + size
    } else {
        u16::MAX as int
    }
}

/// `a` lies inside `b`.
pub open spec fn lies_inside(a: Area, b: Area) -> bool {
    &&& b.x <= a.x && end_of(a.x, a.width) <= end_of(b.x, b.width)
    &&& b.y <= a.y && end_of(a.y, a.height) <= end_of(b.y, b.height)
}

/// The cells of `size` from `start` on that are on a screen.
pub open spec fn extent(start: u16, size: u16) -> int {
    end_of(start, size) - start
}

/// The cells along a split.
pub open spec fn along(vertical: bool, area: Area) -> int {
    if vertical {
        extent(area.y, area.height)
    } else {
        extent(area.x, area.width)
    }
}

/// `a` starts `offset` cells after the start of `b`, along a split, and is `size`
/// cells long.
pub open spec fn is_slice(vertical: bool, a: Area, b: Area, offset: int, size: int) -> bool {
    if vertical {
        a.y == b.y + offset && a.height == size
    } else {
        a.x == b.x + offset && a.width == size
    }
}

/// Fixed lengths and one part that takes what they leave.
pub open spec fn one_grows(rooms: Seq<Room>) -> bool {
    exists|k: int|
        0 <= k < rooms.len() && (#[trigger] rooms[k]) is Min && forall|i: int|
            0 <= i < rooms.len() && i != k ==> (#[trigger] rooms[i]) is Length
}

/// What a part gets where `spare` cells are left over.
pub open spec fn share(room: Room, spare: int) -> int {
    match room {
        Room::Length(n) => n as int,
        Room::Min(n) => n + spare,
        Room::Percentage(n) => 0,
    }
}

/// What parts get together where `spare` cells are left over.
pub open spec fn shares(rooms: Seq<Room>, spare: int) -> int
    decreases rooms.len(),
{
    if rooms.len() == 0 {
        0
    } else {
        shares(rooms.drop_last(), spare) + share(rooms.last(), spare)
    }
}

/// The cells that are left over when every part has what it asks for.
pub open spec fn spare(rooms: Seq<Room>, cells: int) -> int {
    cells - shares(rooms, 0)
}

/// Two percentages that make up the whole.
pub open spec fn two_percentages(rooms: Seq<Room>) -> bool {
    &&& rooms.len() == 2
    &&& rooms[0] is Percentage && rooms[1] is Percentage
    &&& rooms[0]->Percentage_0 + rooms[1]->Percentage_0 == 100
}

/// `p` per cent of `cells`, rounded to the nearest; a half is rounded up.
pub open spec fn per_cent(p: u16, cells: int) -> int {
    (p * cells + 50) / 100
}

/// The first part has `p` per cent of `area`, the second the rest.
pub open spec fn is_cut(vertical: bool, parts: Seq<Area>, area: Area, p: u16) -> bool {
    let cells = along(vertical, area);
    let cut = per_cent(p, cells);
    &&& is_slice(vertical, parts[0], area, 0, cut)
    &&& is_slice(vertical, parts[1], area, cut, cells - cut)
}

/// Splits an area with `ratatui::layout::Layout::split`, from top to bottom or from
/// left to right.
///
/// There is one part for each entry of `rooms`. Every part lies inside the area, and
/// across the direction of the split it is as wide (or high) as the area. Where
/// there are fixed lengths and one part that grows, and all fit, the parts follow
/// one another, each length is kept, and the part that grows takes the rest. Two
/// percentages that make up the whole are cut at the nearest cell. What else may be
/// asked for is left unsaid, above all what happens where not all fit: the solver
/// settles wishes that cannot all be met in an order that may differ from run to
/// run.
#[verifier::external_body]
fn split_area(vertical: bool, area: Area, rooms: &Vec<Room>) -> (r: Vec<Area>)
    ensures
        r@.len() == rooms@.len(),
        forall|i: int| 0 <= i < r@.len() ==> lies_inside(#[trigger] r@[i], area),
        forall|i: int|
            0 <= i < r@.len() ==> if vertical {
                (#[trigger] r@[i]).x == area.x && r@[i].width == area.width
            } else {
                r@[i].y == area.y && r@[i].height == area.height
            },
        one_grows(rooms@) && spare(rooms@, along(vertical, area)) >= 0 ==> forall|i: int|
            0 <= i < r@.len() ==> is_slice(
                vertical,
                #[trigger] r@[i],
                area,
                shares(rooms@.take(i), spare(rooms@, along(vertical, area))),
                share(rooms@[i], spare(rooms@, along(vertical, area))),
            ),
        two_percentages(rooms@) ==> is_cut(vertical, r@, area, rooms@[0]->Percentage_0),
{
    let direction = if vertical { Direction::Vertical } else { Direction::Horizontal };
    let constraints: Vec<Constraint> = rooms.iter().map(|r| match r {
        Room::Length(n) => Constraint::Length(*n),
        Room::Min(n) => Constraint::Min(*n),
        Room::Percentage(n) => Constraint::Percentage(*n),
    }).collect();
    let rect = Rect { x: area.x, y: area.y, width: area.width, height: area.height };
    let parts = Layout::default().direction(direction).constraints(constraints).split(rect);
    parts.iter().map(|p| Area { x: p.x, y: p.y, width: p.width, height: p.height }).collect()
}

/// `n + extra` rows, as many as a screen can have at most.
pub open spec fn rows_for(n: nat, extra: nat) -> u16 {
    if n + extra <= u16::MAX {
        (n + extra) as u16
    } else {
        u16::MAX
    }
}

fn rows(n: usize, extra: u16) -> (r: u16)
    ensures
        r == rows_for(n as nat, extra as nat),
{
    if n <= (u16::MAX - extra) as usize {
        n as u16 + extra
    } else {
        u16::MAX
    }
}

pub open spec fn shown_if(cond: bool, panel: Panel, room: Room) -> Seq<(Panel, Room)> {
    if cond {
        seq![(panel, room)]
    } else {
        Seq::empty()
    }
}

impl AppV {
    /// The parts of a screen of `height` rows, from top to bottom. The targets are
    /// shown where there are any, and what is less needed only where there is room.
    pub open spec fn plan(self, height: u16) -> Seq<(Panel, Room)> {
        seq![
            (Panel::Header, Room::Length(3)),
            (Panel::Insights, Room::Length(5)),
            (Panel::Latency, Room::Length(9)),
        ] + shown_if(
            self.primaries.len() > 0,
            Panel::Targets,
            Room::Length(rows_for(self.primaries.len(), 4)),
        ) + shown_if(height >= 36, Panel::Heatmap, Room::Length(5)) + seq![
            (Panel::Loss, Room::Length(6)),
            (Panel::Jitter, Room::Length(6)),
            (Panel::Dns, Room::Length(rows_for(self.dns.resolvers.len(), 3))),
        ] + shown_if(
            self.extras.len() > 0 && height >= 30,
            Panel::Extras,
            Room::Length(rows_for(self.extras.len(), 2)),
        ) + shown_if(height >= 26, Panel::Stats, Room::Length(5)) + seq![
            (Panel::Events, Room::Min(4)),
            (Panel::Footer, Room::Length(2)),
        ]
    }
}

/// The panels of a layout.
pub open spec fn panels_of<T>(s: Seq<(Panel, T)>) -> Seq<Panel> {
    Seq::new(s.len(), |i: int| s[i].0)
}

/// The room that each panel of a plan asks for.
pub open spec fn asked(plan: Seq<(Panel, Room)>) -> Seq<Room> {
    Seq::new(plan.len(), |i: int| plan[i].1)
}

/// The parts of the screen, from top to bottom.
pub fn plan(app: &App, height: u16) -> (r: Vec<(Panel, Room)>)
    ensures
        r@ == app@.plan(height),
{
    let mut r: Vec<(Panel, Room)> = Vec::new();
    r.push((Panel::Header, Room::Length(3)));
    r.push((Panel::Insights, Room::Length(5)));
    r.push((Panel::Latency, Room::Length(9)));
    if app.primaries.len() > 0 {
        r.push((Panel::Targets, Room::Length(rows(app.primaries.len(), 4))));
    }
    if height >= 36 {
        r.push((Panel::Heatmap, Room::Length(5)));
    }
    r.push((Panel::Loss, Room::Length(6)));
    r.push((Panel::Jitter, Room::Length(6)));
    r.push((Panel::Dns, Room::Length(rows(app.dns.resolvers.len(), 3))));
    if app.extras.len() > 0 && height >= 30 {
        r.push((Panel::Extras, Room::Length(rows(app.extras.len(), 2))));
    }
    if height >= 26 {
        r.push((Panel::Stats, Room::Length(5)));
    }
    r.push((Panel::Events, Room::Min(4)));
    r.push((Panel::Footer, Room::Length(2)));
    proof {
        assert(r@ =~= app@.plan(height));
    }
    r
}

/// The room that each panel of a plan asks for.
pub fn rooms_of(plan: &Vec<(Panel, Room)>) -> (r: Vec<Room>)
    ensures
        r@ == asked(plan@),
{
    let mut r: Vec<Room> = Vec::new();
    let mut i: usize = 0;
    while i < plan.len()
        invariant
            i <= plan.len(),
            r@.len() == i,
            forall|k: int| 0 <= k < i ==> #[trigger] r@[k] == plan@[k].1,
        decreases plan.len() - i,
    {
        r.push(plan[i].1);
        i = i + 1;
    }
    proof {
        assert(r@ =~= asked(plan@));
    }
    r
}

/// Each panel with the part of the screen that it got.
pub fn placed(plan: &Vec<(Panel, Room)>, parts: &Vec<Area>) -> (r: Vec<(Panel, Area)>)
    requires
        plan@.len() == parts@.len(),
    ensures
        r@ == Seq::new(plan@.len(), |i: int| (plan@[i].0, parts@[i])),
{
    let mut r: Vec<(Panel, Area)> = Vec::new();
    let mut i: usize = 0;
    while i < plan.len()
        invariant
            i <= plan.len(),
            plan@.len() == parts@.len(),
            r@.len() == i,
            forall|k: int| 0 <= k < i ==> #[trigger] r@[k] == (plan@[k].0, parts@[k]),
        decreases plan.len() - i,
    {
        r.push((plan[i].0, parts[i]));
        i = i + 1;
    }
    proof {
        assert(r@ =~= Seq::new(plan@.len(), |i: int| (plan@[i].0, parts@[i])));
    }
    r
}

proof fn lemma_one_panel_grows(a: AppV, height: u16)
    ensures
        one_grows(asked(a.plan(height))),
{
    let rooms = asked(a.plan(height));
    let k = rooms.len() - 2;
    assert(rooms[k] == Room::Min(4));
    assert forall|i: int| 0 <= i < rooms.len() && i != k implies (#[trigger] rooms[i]) is Length by {
    }
}

proof fn lemma_shares(rooms: Seq<Room>, spare: int)
    ensures
        (forall|i: int| 0 <= i < rooms.len() ==> (#[trigger] rooms[i]) is Length) ==> shares(
            rooms,
            spare,
        ) == shares(rooms, 0),
        one_grows(rooms) ==> shares(rooms, spare) == shares(rooms, 0) + spare,
    decreases rooms.len(),
{
    if rooms.len() > 0 {
        let head = rooms.drop_last();
        lemma_shares(head, spare);
        assert forall|i: int| 0 <= i < head.len() implies #[trigger] head[i] == rooms[i] by {
        }
        if one_grows(rooms) {
            let k = choose|k: int|
                0 <= k < rooms.len() && (#[trigger] rooms[k]) is Min && forall|i: int|
                    0 <= i < rooms.len() && i != k ==> (#[trigger] rooms[i]) is Length;
            if k < head.len() {
                assert(head[k] is Min);
                assert(one_grows(head));
                assert(rooms[rooms.len() - 1] is Length);
            }
        }
    }
}

/// Where they all fit, the panels fill the screen from top to bottom.
pub proof fn law_panels_fill_the_screen(a: AppV, size: Area)
    requires
        spare(asked(a.plan(size.height)), extent(size.y, size.height)) >= 0,
    ensures
        shares(
            asked(a.plan(size.height)),
            spare(asked(a.plan(size.height)), extent(size.y, size.height)),
        ) == extent(size.y, size.height),
{
    lemma_one_panel_grows(a, size.height);
    lemma_shares(
        asked(a.plan(size.height)),
        spare(asked(a.plan(size.height)), extent(size.y, size.height)),
    );
}

/// Lays out the screen: every panel of the plan in its order, inside the screen and
/// over its full width. Where they all fit, each follows the one above and has the
/// height that it asks for; the events take the rest.
pub fn draw(app: &App, size: Area) -> (r: Vec<(Panel, Area)>)
    ensures
        panels_of(r@) == panels_of(app@.plan(size.height)),
        forall|i: int|
            0 <= i < r@.len() ==> (#[trigger] r@[i]).1.x == size.x && r@[i].1.width == size.width
                && lies_inside(r@[i].1, size),
        spare(asked(app@.plan(size.height)), extent(size.y, size.height)) >= 0 ==> forall|i: int|
            0 <= i < r@.len() ==> is_slice(
                true,
                (#[trigger] r@[i]).1,
                size,
                shares(
                    asked(app@.plan(size.height)).take(i),
                    spare(asked(app@.plan(size.height)), extent(size.y, size.height)),
                ),
                share(
                    app@.plan(size.height)[i].1,
                    spare(asked(app@.plan(size.height)), extent(size.y, size.height)),
                ),
            ),
{
    let p = plan(app, size.height);
    let rooms = rooms_of(&p);
    proof {
        lemma_one_panel_grows(app@, size.height);
    }
    let parts = split_area(true, size, &rooms);
    let r = placed(&p, &parts);
    proof {
        assert(panels_of(r@) =~= panels_of(p@));
    }
    r
}

/// The area of a header, cut into the part of the title and that of the score.
pub fn header_areas(area: Area) -> (r: (Area, Area))
    ensures
        ({
            let cells = extent(area.x, area.width);
            let cut = per_cent(70, cells);
            &&& r.0 == Area { width: cut as u16, ..area }
            &&& r.1 == Area { x: (area.x + cut) as u16, width: (cells - cut) as u16, ..area }
        }),
{
    let mut rooms: Vec<Room> = Vec::new();
    rooms.push(Room::Percentage(70));
    rooms.push(Room::Percentage(30));
    let parts = split_area(false, area, &rooms);
    (parts[0], parts[1])
}

/// The inside of a frame.
pub open spec fn inside(area: Area) -> Area {
    Area {
        x: if area.width == 0 || area.x == u16::MAX {
            area.x
        } else {
            (area.x + 1) as u16
        },
        y: if area.height == 0 || area.y == u16::MAX {
            area.y
        } else {
            (area.y + 1) as u16
        },
        width: if area.width >= 2 {
            (area.width - 2) as u16
        } else {
            0
        },
        height: if area.height >= 2 {
            (area.height - 2) as u16
        } else {
            0
        },
    }
}

pub fn inner(area: Area) -> (r: Area)
    ensures
        r == inside(area),
{
    Area {
        x: if area.width == 0 || area.x == u16::MAX {
            area.x
        } else {
            area.x + 1
        },
        y: if area.height == 0 || area.y == u16::MAX {
            area.y
        } else {
            area.y + 1
        },
        width: if area.width >= 2 {
            area.width - 2
        } else {
            0
        },
        height: if area.height >= 2 {
            area.height - 2
        } else {
            0
        },
    }
}

/// The columns inside a frame, one at least.
pub open spec fn inside_width(width: u16) -> u16 {
    if width >= 3 {
        (width - 2) as u16
    } else {
        1
    }
}

pub fn inner_w(width: u16) -> (w: u16)
    ensures
        w == inside_width(width),
{
    if width >= 3 {
        width - 2
    } else {
        1
    }
}

// --------------------------------------------------------------------- spark

/// `data` stretched or thinned to `width` bars.
pub open spec fn spark(data: Seq<u64>, width: nat) -> Seq<u64> {
    Seq::new(
        width,
        |i: int|
            if data.len() == 0 {
                0
            } else {
                data[i * data.len() / width as int]
            },
    )
}

pub fn fit_spark(data: &[u64], width: u16) -> (r: Vec<u64>)
    ensures
        r@ == spark(data@, width as nat),
{
    let w: usize = width as usize;
    let n: usize = data.len();
    let mut r: Vec<u64> = Vec::new();
    let mut i: usize = 0;
    while i < w
        invariant
            i <= w,
            w == width,
            n == data@.len(),
            r@.len() == i,
            forall|k: int| 0 <= k < i ==> #[trigger] r@[k] == spark(data@, width as nat)[k],
        decreases w - i,
    {
        if n == 0 {
            r.push(0);
        } else {
            proof {
                assert(i * n <= u64::MAX * u64::MAX) by (nonlinear_arith)
                    requires
                        i <= u64::MAX,
                        n <= u64::MAX,
                ;
                let q = i * n / w as int;
                assert(0 <= q < n) by (nonlinear_arith)
                    requires
                        q == i * n / w as int,
                        0 <= i < w,
                        n > 0,
                ;
            }
            let at: u128 = (i as u128) * (n as u128) / (w as u128);
            r.push(data[at as usize]);
        }
        i = i + 1;
    }
    proof {
        assert(r@ =~= spark(data@, width as nat));
    }
    r
}

// ---------------------------------------------------------------------- runs

/// The values that are present, cut into runs without a gap; each with its place.
pub open spec fn runs<T>(data: Seq<Option<T>>) -> Seq<Seq<(usize, T)>>
    decreases data.len(),
{
    if data.len() == 0 {
        Seq::empty()
    } else {
        let before = runs(data.drop_last());
        let i = data.len() - 1;
        match data.last() {
            None => before,
            Some(v) => if i > 0 && data[i - 1] is Some {
                before.drop_last().push(before.last().push((i as usize, v)))
            } else {
                before.push(seq![(i as usize, v)])
            },
        }
    }
}

pub open spec fn runs_view<T>(v: Seq<Vec<(usize, T)>>) -> Seq<Seq<(usize, T)>> {
    Seq::new(v.len(), |i: int| v[i]@)
}

/// Cuts a series into its runs.
pub fn segment_runs<T: Copy>(data: &[Option<T>]) -> (r: Vec<Vec<(usize, T)>>)
    ensures
        runs_view(r@) == runs(data@),
{
    let mut r: Vec<Vec<(usize, T)>> = Vec::new();
    let mut i: usize = 0;
    let mut open = false;
    proof {
        assert(runs_view(r@) =~= runs(data@.take(0)));
    }
    while i < data.len()
        invariant
            i <= data@.len(),
            runs_view(r@) == runs(data@.take(i as int)),
            open == (i > 0 && data@[i - 1] is Some),
            open ==> r@.len() > 0,
        decreases data@.len() - i,
    {
        let ghost before = r@;
        proof {
            assert(data@.take(i + 1).drop_last() =~= data@.take(i as int));
        }
        match data[i] {
            None => {
                open = false;
            },
            Some(v) => {
                if open {
                    if let Some(run) = r.pop() {
                        let mut run = run;
                        run.push((i, v));
                        r.push(run);
                    }
                    proof {
                        assert(runs_view(r@) =~= runs_view(before).drop_last().push(
                            runs_view(before).last().push((i, v)),
                        ));
                    }
                } else {
                    let mut run: Vec<(usize, T)> = Vec::new();
                    run.push((i, v));
                    r.push(run);
                    proof {
                        assert(run@ =~= seq![(i, v)]);
                        assert(runs_view(r@) =~= runs_view(before).push(seq![(i, v)]));
                    }
                }
                open = true;
            },
        }
        i = i + 1;
    }
    proof {
        assert(data@.take(i as int) =~= data@);
    }
    r
}

/// A stretch of the series without a gap.
pub open spec fn is_run<T>(run: Seq<(usize, T)>, data: Seq<Option<T>>) -> bool {
    &&& run.len() > 0
    &&& forall|k: int|
        0 <= k < run.len() ==> (#[trigger] run[k]).0 == run[0].0 + k && run[k].0 < data.len()
            && data[run[k].0 as int] == Some(run[k].1)
}

proof fn lemma_run_grows<T>(run: Seq<(usize, T)>, data: Seq<Option<T>>)
    requires
        data.len() > 0,
        is_run(run, data.drop_last()),
    ensures
        is_run(run, data),
{
    assert forall|k: int| 0 <= k < run.len() implies (#[trigger] run[k]).0 == run[0].0 + k
        && run[k].0 < data.len() && data[run[k].0 as int] == Some(run[k].1) by {
        assert(data.drop_last()[run[k].0 as int] == data[run[k].0 as int]);
    }
}

/// Every run is a stretch of the series without a gap, and the last one ends where
/// the series does, if that ends with a value.
pub proof fn law_runs_have_no_gap<T>(data: Seq<Option<T>>)
    requires
        data.len() <= usize::MAX,
    ensures
        forall|r: int| 0 <= r < runs(data).len() ==> is_run(#[trigger] runs(data)[r], data),
        data.len() > 0 && data.last() is Some ==> runs(data).len() > 0 && runs(data).last().last().0
            == data.len() - 1,
    decreases data.len(),
{
    if data.len() > 0 {
        let d = data.drop_last();
        law_runs_have_no_gap(d);
        let before = runs(d);
        let all = runs(data);
        let i = data.len() - 1;
        assert forall|r: int| 0 <= r < all.len() implies is_run(#[trigger] all[r], data) by {
            if r < before.len() {
                assert(is_run(before[r], d));
                lemma_run_grows(before[r], data);
            }
            if data.last() is Some && r == all.len() - 1 {
                let v = data.last()->0;
                if i > 0 && data[i - 1] is Some {
                    assert(d.last() == data[i - 1]);
                    let run = before.last();
                    assert(all[r] == run.push((i as usize, v)));
                    assert(run[run.len() - 1].0 == i - 1);
                    assert(run.push((i as usize, v))[0] == run[0]);
                } else {
                    assert(all[r] == seq![(i as usize, v)]);
                }
            }
        }
    }
}

/// Position `i` stands in some run.
pub open spec fn in_some_run<T>(rs: Seq<Seq<(usize, T)>>, i: int) -> bool {
    exists|r: int, k: int|
        0 <= r < rs.len() && 0 <= k < rs[r].len() && (#[trigger] rs[r][k]).0 == i
}

/// No value is left out of the runs.
pub proof fn law_runs_are_complete<T>(data: Seq<Option<T>>, i: int)
    requires
        data.len() <= usize::MAX,
        0 <= i < data.len(),
        data[i] is Some,
    ensures
        in_some_run(runs(data), i),
    decreases data.len(),
{
    let d = data.drop_last();
    let before = runs(d);
    let all = runs(data);
    law_runs_have_no_gap(data);
    if i < data.len() - 1 {
        law_runs_are_complete(d, i);
        let (r, k) = choose|r: int, k: int|
            0 <= r < before.len() && 0 <= k < before[r].len() && (#[trigger] before[r][k]).0 == i;
        assert(all[r][k] == before[r][k]);
    } else {
        let r = all.len() - 1;
        assert(is_run(all[r], data));
        assert(all[r][all[r].len() - 1].0 == i);
    }
}

// -------------------------------------------------------------------- charts

/// A chart of a window of times. The time axis ends at `span`, the other at
/// `y_max_ms`; `warn` is the level of the reference line, where it is shown.
pub struct ChartView {
    pub title: String,
    pub tone: Tone,
    pub runs: Vec<Vec<(usize, u64)>>,
    pub warn: Option<u64>,
    pub span: usize,
    pub y_max_ms: u64,
}

/// The largest value present.
pub open spec fn highest(s: Seq<Option<u64>>) -> u64
    decreases s.len(),
{
    if s.len() == 0 {
        0
    } else {
        let h = highest(s.drop_last());
        match s.last() {
            Some(v) => if v > h {
                v
            } else {
                h
            },
            None => h,
        }
    }
}

/// The end of the value axis in milliseconds: `tenths / 10` times the largest
/// value, or half the limit if that is more, up to the next multiple of ten.
pub open spec fn axis_end(high: nat, tenths: nat, warn: nat) -> nat {
    let want = if high * tenths >= 5 * warn {
        high * tenths
    } else {
        5 * warn
    };
    10 * ((want + 99_999_999) / 100_000_000)
}

/// A chart of `samples` that leaves `tenths / 10` of its highest value as room.
pub open spec fn is_chart(
    c: ChartView,
    samples: Seq<Option<u64>>,
    tenths: nat,
    warn: u64,
) -> bool {
    let end = axis_end(highest(samples) as nat, tenths, warn as nat);
    &&& runs_view(c.runs@) == runs(samples)
    &&& c.y_max_ms == end
    &&& c.warn == (if warn <= end * 1_000_000 {
        Some(warn)
    } else {
        None
    })
    &&& c.span == (if samples.len() == 0 {
        1
    } else {
        samples.len()
    })
}

fn chart(samples: &Vec<Option<u64>>, tenths: u128, warn: u64, title: String, tone: Tone) -> (c:
    ChartView)
    requires
        tenths <= 20,
    ensures
        is_chart(c, samples@, tenths as nat, warn),
        c.title@ == title@,
        c.tone == tone,
{
    let mut high: u64 = 0;
    let mut i: usize = 0;
    while i < samples.len()
        invariant
            i <= samples.len(),
            high == highest(samples@.take(i as int)),
        decreases samples.len() - i,
    {
        proof {
            assert(samples@.take(i + 1).drop_last() =~= samples@.take(i as int));
        }
        if let Some(v) = samples[i] {
            if v > high {
                high = v;
            }
        }
        i = i + 1;
    }
    proof {
        assert(samples@.take(i as int) =~= samples@);
        assert(high * tenths <= u64::MAX * 20) by (nonlinear_arith)
            requires
                high <= u64::MAX,
                tenths <= 20,
        ;
    }
    let grown: u128 = (high as u128) * tenths;
    let floor: u128 = 5 * (warn as u128);
    let want: u128 = if grown >= floor {
        grown
    } else {
        floor
    };
    let end: u128 = 10 * ((want + 99_999_999) / 100_000_000);
    ChartView {
        title,
        tone,
        runs: segment_runs(samples.as_slice()),
        warn: if warn as u128 <= end * 1_000_000 {
            Some(warn)
        } else {
            None
        },
        span: if samples.len() == 0 {
            1
        } else {
            samples.len()
        },
        y_max_ms: end as u64,
    }
}

impl AppV {
    pub open spec fn latency_title(self) -> Seq<char> {
        let stat = pooled_stat(self.primaries);
        "Latency  pooled  cur "@ + ms_text(or_else(self.last_value(), 0) as nat, 1)
            + " ms   avg "@ + ratio_ms_text(or_else(stat.mean(), Ratio { num: 0, den: 1 }), 1)
            + "   min "@ + ms_text(
            stat.min as nat,
            1,
        ) + "   max "@ + ms_text(stat.max as nat, 1) + "   (median of "@ + digits(
            self.primaries.len(),
        ) + " targets)"@
    }

    /// The tone of the latest latency, against the configured limits.
    pub open spec fn latency_tone(self) -> Tone {
        limit_tone(
            or_else(self.last_value(), 0) as nat,
            self.cfg.latency_warn_ns as nat,
            self.cfg.latency_bad_ns as nat,
        )
    }

    /// The tone of the latest jitter: bad from twice the limit on.
    pub open spec fn jitter_tone(self) -> Tone {
        limit_tone(
            or_else(self.jitter(), 0) as nat,
            self.cfg.jitter_warn_ns as nat,
            2 * self.cfg.jitter_warn_ns as nat,
        )
    }

    pub open spec fn jitter_title(self) -> Seq<char> {
        "Jitter  pooled  cur "@ + ms_text(or_else(self.jitter(), 0) as nat, 1)
            + " ms  (median of "@ + digits(self.primaries.len()) + " targets)"@ + (
        match self.jitter_tone() {
            Tone::Bad => "  ⚠ HIGH"@,
            Tone::Warn => "  ◐ elevated"@,
            _ => Seq::empty(),
        })
    }
}

/// The chart of the pooled latency.
pub fn draw_latency(app: &App) -> (c: ChartView)
    requires
        app.wf(),
    ensures
        is_chart(c, app@.lat_hist.items, 12, app.cfg.latency_warn_ns),
        c.title@ == app@.latency_title(),
        c.tone == app@.latency_tone(),
{
    let stat = app.pooled_ping_stat();
    let cur: u64 = match app.last_value_view() {
        Some(v) => v,
        None => 0,
    };
    let avg = match stat.avg() {
        Some(v) => v,
        None => Ratio { num: 0, den: 1 },
    };
    let tone = if cur > app.cfg.latency_bad_ns {
        Tone::Bad
    } else if cur > app.cfg.latency_warn_ns {
        Tone::Warn
    } else {
        Tone::Good
    };
    let mut title = String::from_str("Latency  pooled  cur ");
    title.append(ms(cur as u128, 1).as_str());
    title.append(" ms   avg ");
    title.append(ratio_ms(avg, 1).as_str());
    title.append("   min ");
    title.append(ms(stat.min as u128, 1).as_str());
    title.append("   max ");
    title.append(ms(stat.max as u128, 1).as_str());
    title.append("   (median of ");
    title.append(dec(app.primaries.len() as u128).as_str());
    title.append(" targets)");
    chart(&app.lat_hist.as_vec(), 12, app.cfg.latency_warn_ns, title, tone)
}

/// The chart of the pooled jitter.
pub fn draw_jitter(app: &App) -> (c: ChartView)
    ensures
        is_chart(c, app@.jit_hist.items, 13, app.cfg.jitter_warn_ns),
        c.title@ == app@.jitter_title(),
        c.tone == app@.jitter_tone(),
{
    let cur: u64 = match app.jitter_view() {
        Some(v) => v,
        None => 0,
    };
    let warn: u64 = app.cfg.jitter_warn_ns;
    let mut title = String::from_str("Jitter  pooled  cur ");
    title.append(ms(cur as u128, 1).as_str());
    title.append(" ms  (median of ");
    title.append(dec(app.primaries.len() as u128).as_str());
    title.append(" targets)");
    let tone = if cur as u128 > 2 * (warn as u128) {
        title.append("  ⚠ HIGH");
        Tone::Bad
    } else if cur > warn {
        title.append("  ◐ elevated");
        Tone::Warn
    } else {
        Tone::Good
    };
    proof {
        assert(title@ =~= app@.jitter_title());
    }
    chart(&app.jit_hist.as_vec(), 13, warn, title, tone)
}

/// The labels of the value axis: nothing, half and all of it.
pub fn axis_labels(y_max_ms: u64) -> (r: (String, String, String))
    ensures
        r.0@ == "0"@,
        r.1@ == digits(y_max_ms as nat / 2),
        r.2@ == digits(y_max_ms as nat),
{
    (String::from_str("0"), dec((y_max_ms / 2) as u128), dec(y_max_ms as u128))
}

// ------------------------------------------------------------ header, footer

/// The header: a line of spans, and the score as a gauge.
pub struct HeaderView {
    pub line: Vec<Span>,
    pub percent: u16,
    pub label: String,
    pub tone: Tone,
}

/// "label:host:port" of the targets, a comma between two.
pub open spec fn targets_text(ps: Seq<ProbeV>) -> Seq<char>
    decreases ps.len(),
{
    if ps.len() == 0 {
        Seq::empty()
    } else {
        let p = ps.last();
        let here = p.label + ":"@ + p.host + ":"@ + digits(p.port as nat);
        if ps.len() == 1 {
            here
        } else {
            targets_text(ps.drop_last()) + ", "@ + here
        }
    }
}

impl AppV {
    pub open spec fn header_line(self) -> Seq<SpanV> {
        seq![
            bold(" ping_monitor "@, Tone::Accent),
            toned(
                " ["@ + targets_text(self.primaries) + "] dns "@ + digits(self.dns.resolvers.len())
                    + "×"@ + digits(self.dns.names.len()) + " remind "@ + digits(
                    self.cfg.reminder_interval.ns as nat / 1_000_000_000,
                ) + "s "@,
                Tone::Plain,
            ),
            toned(" "@, Tone::Plain),
            bold(state_label_text(self.state), state_tone_of(self.state)),
        ]
    }

    pub open spec fn footer_line(self) -> Seq<SpanV> {
        seq![
            toned(" ["@, Tone::Muted),
            bold("m"@, Tone::Accent),
            toned("] "@, Tone::Muted),
            if self.muted {
                toned("muted"@, Tone::Muted)
            } else {
                toned("sound on"@, Tone::Good)
            },
            toned("   "@, Tone::Plain),
            toned("["@, Tone::Muted),
            bold("r"@, Tone::Accent),
            toned("] reset   "@, Tone::Muted),
            toned("["@, Tone::Muted),
            bold("e"@, Tone::Accent),
            toned("] export   "@, Tone::Muted),
            toned("["@, Tone::Muted),
            bold("t"@, Tone::Accent),
            toned("] traceroute   "@, Tone::Muted),
            toned("["@, Tone::Muted),
            bold("q"@, Tone::Accent),
            toned("] quit"@, Tone::Muted),
            toned("   "@, Tone::Plain),
            toned(
                digits(total_of(self.primaries)) + " pings, "@ + digits(
                    lost_of(self.primaries),
                ) + " lost  cadence "@ + digits(self.interval_ms as nat) + "ms"@,
                Tone::Gray,
            ),
        ]
    }
}

fn target_list(app: &App) -> (s: String)
    ensures
        s@ == targets_text(app@.primaries),
{
    let mut s = String::new();
    let mut i: usize = 0;
    let ghost ps = app@.primaries;
    while i < app.primaries.len()
        invariant
            i <= app.primaries.len(),
            ps == app@.primaries,
            s@ == targets_text(ps.take(i as int)),
        decreases app.primaries.len() - i,
    {
        proof {
            assert(ps.take(i + 1).drop_last() =~= ps.take(i as int));
        }
        if i > 0 {
            s.append(", ");
        }
        let ghost before = s@;
        s.append(app.primaries[i].label.as_str());
        s.append(":");
        s.append(app.primaries[i].host.as_str());
        s.append(":");
        s.append(dec(app.primaries[i].port as u128).as_str());
        proof {
            let p = ps[i as int];
            assert(s@ =~= before + (p.label + ":"@ + p.host + ":"@ + digits(p.port as nat)));
            assert(s@ =~= targets_text(ps.take(i + 1)));
        }
        i = i + 1;
    }
    proof {
        assert(ps.take(i as int) =~= ps);
    }
    s
}

/// The title with the targets and the state, and the score.
pub fn draw_header(app: &App) -> (h: HeaderView)
    requires
        app.wf(),
    ensures
        spans(h.line@) == app@.header_line(),
        h.percent == app@.quality().num / app@.quality().den,
        h.percent <= 100,
        h.label@ == pad_left(
            fixed_text(app@.quality().num as nat, app@.quality().den as nat, 0),
            3,
            ' ',
        ) + "/100"@,
        h.tone == score_tone(app@.quality()),
{
    let mut text = String::from_str(" [");
    text.append(target_list(app).as_str());
    text.append("] dns ");
    text.append(dec(app.dns.resolvers.len() as u128).as_str());
    text.append("×");
    text.append(dec(app.dns.names.len() as u128).as_str());
    text.append(" remind ");
    text.append(dec(app.cfg.reminder_interval.as_secs()).as_str());
    text.append("s ");
    let mut line: Vec<Span> = Vec::new();
    put_bold(&mut line, " ping_monitor ", Tone::Accent);
    put(&mut line, text.as_str(), Tone::Plain);
    put(&mut line, " ", Tone::Plain);
    put_bold(&mut line, state_label(app.state), state_color(app.state));
    proof {
        assert(spans(line@) =~= app@.header_line());
    }
    let score = app.score();
    let mut label = padded_left(fixed(score.num, score.den, 0).as_str(), 3, ' ');
    label.append("/100");
    proof {
        assert(score.num / score.den <= 100) by (nonlinear_arith)
            requires
                score.num <= 100 * score.den,
                score.den > 0,
        ;
    }
    HeaderView {
        line,
        percent: (score.num / score.den) as u16,
        label,
        tone: score_color(score),
    }
}

/// The keys, whether there is sound, and the counters.
pub fn draw_footer(app: &App) -> (line: Vec<Span>)
    requires
        app.wf(),
    ensures
        spans(line@) == app@.footer_line(),
{
    let mut text = dec(app.pooled_total() as u128);
    text.append(" pings, ");
    text.append(dec(app.pooled_lost() as u128).as_str());
    text.append(" lost  cadence ");
    text.append(dec(app.interval_ms as u128).as_str());
    text.append("ms");
    let mut line: Vec<Span> = Vec::new();
    put(&mut line, " [", Tone::Muted);
    put_bold(&mut line, "m", Tone::Accent);
    put(&mut line, "] ", Tone::Muted);
    if app.muted {
        put(&mut line, "muted", Tone::Muted);
    } else {
        put(&mut line, "sound on", Tone::Good);
    }
    put(&mut line, "   ", Tone::Plain);
    put(&mut line, "[", Tone::Muted);
    put_bold(&mut line, "r", Tone::Accent);
    put(&mut line, "] reset   ", Tone::Muted);
    put(&mut line, "[", Tone::Muted);
    put_bold(&mut line, "e", Tone::Accent);
    put(&mut line, "] export   ", Tone::Muted);
    put(&mut line, "[", Tone::Muted);
    put_bold(&mut line, "t", Tone::Accent);
    put(&mut line, "] traceroute   ", Tone::Muted);
    put(&mut line, "[", Tone::Muted);
    put_bold(&mut line, "q", Tone::Accent);
    put(&mut line, "] quit", Tone::Muted);
    put(&mut line, "   ", Tone::Plain);
    put(&mut line, text.as_str(), Tone::Gray);
    proof {
        assert(spans(line@) =~= app@.footer_line());
    }
    line
}

// ------------------------------------------------------------------ insights

pub open spec fn level_tone(l: Level) -> Tone {
    match l {
        Level::Info => Tone::Gray,
        Level::Warn => Tone::Warn,
        Level::Bad => Tone::Bad,
        Level::Good => Tone::Good,
    }
}

pub fn level_color(l: Level) -> (t: Tone)
    ensures
        t == level_tone(l),
{
    match l {
        Level::Info => Tone::Gray,
        Level::Warn => Tone::Warn,
        Level::Bad => Tone::Bad,
        Level::Good => Tone::Good,
    }
}

/// Probable cause, evidence and suggested action.
pub open spec fn insight_line(i: InsightV) -> Seq<SpanV> {
    seq![
        bold(" "@ + i.cause, level_tone(i.severity)),
        toned(" · "@ + i.evidence, Tone::Gray),
        toned(" → "@ + i.action, Tone::Muted),
    ]
}

/// The diagnosis, one line each.
pub fn draw_insights(app: &App, now: Instant) -> (lines: Vec<Vec<Span>>)
    requires
        app.wf(),
    ensures
        lines_view(lines@) == Seq::new(
            app@.diagnosis(now).len(),
            |i: int| insight_line(app@.diagnosis(now)[i]),
        ),
{
    let found = diagnose(app, now);
    let ghost d = app@.diagnosis(now);
    let mut lines: Vec<Vec<Span>> = Vec::new();
    let mut i: usize = 0;
    while i < found.len()
        invariant
            i <= found.len(),
            insights_view(found@) == d,
            lines@.len() == i,
            forall|k: int| 0 <= k < i ==> spans((#[trigger] lines@[k])@) == insight_line(d[k]),
        decreases found.len() - i,
    {
        let ghost v = d[i as int];
        proof {
            assert(found@[i as int]@ == v);
        }
        let mut cause = String::from_str(" ");
        cause.append(found[i].cause.as_str());
        let mut evidence = String::from_str(" · ");
        evidence.append(found[i].evidence.as_str());
        let mut action = String::from_str(" → ");
        action.append(found[i].action.as_str());
        let mut line: Vec<Span> = Vec::new();
        put_bold(&mut line, cause.as_str(), level_color(found[i].severity));
        put(&mut line, evidence.as_str(), Tone::Gray);
        put(&mut line, action.as_str(), Tone::Muted);
        proof {
            assert(spans(line@) =~= insight_line(v));
        }
        lines.push(line);
        i = i + 1;
    }
    proof {
        assert(lines_view(lines@) =~= Seq::new(d.len(), |i: int| insight_line(d[i])));
    }
    lines
}

// ---------------------------------------------------------------------- laws

/// The tone of a value: bad above the second limit, a warning above the first, good at or
/// below both. A larger value never looks better.
pub proof fn law_tones_follow_the_limits(v: nat, more: nat, warn: nat, bad: nat)
    requires
        v <= more,
    ensures
        limit_tone(v, warn, bad) == Tone::Bad <==> v > bad,
        limit_tone(v, warn, bad) == Tone::Good <==> v <= warn && v <= bad,
        limit_tone(v, warn, bad) == Tone::Bad ==> limit_tone(more, warn, bad) == Tone::Bad,
        limit_tone(more, warn, bad) == Tone::Good ==> limit_tone(v, warn, bad) == Tone::Good,
{
}

/// The tone of a score: good from 75 points on, a warning from 40 on, bad below.
pub proof fn law_score_tones(score: Ratio)
    ensures
        score_tone(score) == Tone::Good <==> score.num >= 75 * score.den,
        score_tone(score) == Tone::Bad <==> score.num < 40 * score.den && score.num < 75
            * score.den,
{
}

/// The latency and the jitter that are shown are judged by the configured limits, the jitter
/// as bad from more than twice its limit on; a value that is missing looks good.
pub proof fn law_shown_values_are_judged(a: AppV)
    ensures
        a.latency_tone() == Tone::Bad <==> (a.last_value() matches Some(v) && v
            > a.cfg.latency_bad_ns),
        a.last_value() matches Some(v) ==> (v > a.cfg.latency_warn_ns && v <= a.cfg.latency_bad_ns
            ==> a.latency_tone() == Tone::Warn),
        a.last_value() is None ==> a.latency_tone() == Tone::Good,
        a.jitter_tone() == Tone::Bad <==> (a.jitter() matches Some(j) && j > 2
            * a.cfg.jitter_warn_ns),
        a.jitter_tone() == Tone::Warn <==> (a.jitter() matches Some(j) && a.cfg.jitter_warn_ns < j
            <= 2 * a.cfg.jitter_warn_ns),
        a.jitter() is None ==> a.jitter_tone() == Tone::Good,
{
}

/// A frame takes one cell off each side, as far as there are any; what is inside never leaves
/// the frame.
pub proof fn law_inside_of_a_frame(area: Area)
    ensures
        ({
            let i = inside(area);
            &&& area.width >= 2 && area.x < u16::MAX ==> i.x == area.x + 1 && i.width + 2
                == area.width
            &&& area.height >= 2 && area.y < u16::MAX ==> i.y == area.y + 1 && i.height + 2
                == area.height
            &&& area.width < 2 ==> i.width == 0
            &&& area.height < 2 ==> i.height == 0
            &&& i.x >= area.x && i.y >= area.y
            &&& inside_width(area.width) >= 1
            &&& i.width >= 1 ==> inside_width(area.width) == i.width
        }),
{
}

/// Bars show the data in order, stretched or thinned evenly: bar `i` of `width` shows the
/// value that stands at the same share of the data, and nothing is shown of no data.
pub proof fn law_bars_follow_the_data(data: Seq<u64>, width: nat, i: int)
    requires
        0 <= i < width,
    ensures
        spark(data, width).len() == width,
        data.len() == 0 ==> spark(data, width)[i] == 0,
        data.len() > 0 ==> exists|k: int|
            0 <= k < data.len() && spark(data, width)[i] == #[trigger] data[k] && k * width <= i
                * data.len() < (k + 1) * width,
        data.len() == width ==> spark(data, width)[i] == data[i],
        width > 0 && data.len() > 0 ==> spark(data, width)[0] == data[0],
{
    if data.len() > 0 {
        let n = data.len() as int;
        let w = width as int;
        let k = i * n / w;
        vstd::arithmetic::div_mod::lemma_fundamental_div_mod(i * n, w);
        vstd::arithmetic::div_mod::lemma_mod_bound(i * n, w);
        assert(w * k == k * w && (k + 1) * w == k * w + w) by (nonlinear_arith);
        assert(0 <= k < n) by (nonlinear_arith)
            requires
                k * w <= i * n < (k + 1) * w,
                0 <= i < w,
                n > 0,
        ;
        assert(spark(data, width)[i] == data[k]);
        if n == w {
            assert(k == i) by (nonlinear_arith)
                requires
                    k * w <= i * w < (k + 1) * w,
                    w > 0,
            ;
        }
        assert(0 * n / w == 0) by (nonlinear_arith)
            requires
                w > 0,
        ;
        assert(spark(data, width)[0] == data[0]);
    }
}

/// The highest value is one of those present, and none of them is higher; without any it is
/// zero.
pub proof fn law_highest_value(s: Seq<Option<u64>>)
    ensures
        forall|i: int| 0 <= i < s.len() && (#[trigger] s[i]) is Some ==> s[i]->0 <= highest(s),
        highest(s) == 0 || s.contains(Some(highest(s))),
    decreases s.len(),
{
    if s.len() > 0 {
        let d = s.drop_last();
        law_highest_value(d);
        assert forall|i: int| 0 <= i < s.len() && (#[trigger] s[i]) is Some implies s[i]->0
            <= highest(s) by {
            if i < d.len() {
                assert(d[i] == s[i]);
            }
        }
        if highest(s) == highest(d) {
            if highest(d) != 0 {
                let i = choose|i: int| 0 <= i < d.len() && d[i] == Some(highest(d));
                assert(s[i] == Some(highest(s)));
            }
        } else {
            assert(s[s.len() - 1] == Some(highest(s)));
        }
    }
}

/// The value axis ends at a multiple of ten milliseconds, the first that leaves the room asked
/// for above the highest value and is not below half the limit.
pub proof fn law_axis_leaves_room(high: nat, tenths: nat, warn: nat)
    ensures
        ({
            let end = axis_end(high, tenths, warn);
            &&& end % 10 == 0
            &&& 10_000_000 * end >= high * tenths
            &&& 2_000_000 * end >= warn
            &&& end > 0 ==> 10_000_000 * (end - 10) < high * tenths || 2_000_000 * (end - 10)
                < warn
        }),
{
    let want = if high * tenths >= 5 * warn {
        high * tenths
    } else {
        5 * warn
    };
    let q = (want + 99_999_999) / 100_000_000;
    assert(100_000_000 * q >= want && 100_000_000 * (q - 1) < want);
}

/// The limit is drawn in a chart exactly where it lies below the end of the axis; the axis has
/// a place for each sample, and one where there is none.
pub proof fn law_charts(c: ChartView, samples: Seq<Option<u64>>, tenths: nat, warn: u64)
    requires
        is_chart(c, samples, tenths, warn),
    ensures
        c.warn is Some <==> warn <= c.y_max_ms * 1_000_000,
        c.warn matches Some(v) ==> v == warn,
        samples.len() > 0 ==> c.span == samples.len(),
        samples.len() == 0 ==> c.span == 1,
        forall|i: int|
            0 <= i < samples.len() && (#[trigger] samples[i]) is Some ==> samples[i]->0 * tenths
                <= 10_000_000 * c.y_max_ms,
{
    law_highest_value(samples);
    law_axis_leaves_room(highest(samples) as nat, tenths, warn as nat);
    let h = highest(samples);
    assert forall|i: int| 0 <= i < samples.len() && (#[trigger] samples[i]) is Some implies
        samples[i]->0 * tenths <= 10_000_000 * c.y_max_ms by {
        let v = samples[i]->0;
        assert(v * tenths <= h * tenths) by (nonlinear_arith)
            requires
                v <= h,
                tenths >= 0,
        ;
    }
}

/// Runs do not touch: a gap lies between the end of one and the start of the next, so no two
/// of them could be one.
pub proof fn law_runs_lie_apart<T>(data: Seq<Option<T>>)
    requires
        data.len() <= usize::MAX,
    ensures
        forall|r: int|
            0 < r < runs(data).len() ==> runs(data)[r - 1].last().0 + 1 < (#[trigger] runs(
                data,
            )[r])[0].0,
    decreases data.len(),
{
    if data.len() > 0 {
        let d = data.drop_last();
        let i = data.len() - 1;
        law_runs_lie_apart(d);
        law_runs_have_no_gap(d);
        law_runs_have_no_gap(data);
        let before = runs(d);
        let after = runs(data);
        assert forall|r: int| 0 < r < after.len() implies after[r - 1].last().0 + 1 < (
        #[trigger] after[r])[0].0 by {
            if data.last() is None {
                assert(after == before);
            } else if i > 0 && data[i - 1] is Some {
                assert(d.last() == data[i - 1]);
                let last = before.len() - 1;
                assert(is_run(before[last], d));
                if r < last {
                    assert(after[r] == before[r] && after[r - 1] == before[r - 1]);
                } else {
                    assert(after[r - 1] == before[r - 1]);
                    assert(after[r][0] == before[r][0]);
                }
            } else {
                let n = before.len();
                if r < n {
                    assert(after[r] == before[r] && after[r - 1] == before[r - 1]);
                } else {
                    assert(after[r - 1] == before[n - 1]);
                    assert(is_run(before[n - 1], d));
                    let run = before[n - 1];
                    let e = run[run.len() - 1].0;
                    assert(d[e as int] is Some);
                    assert(e < i);
                    if e == i - 1 {
                        assert(data[i - 1] is Some);
                    }
                    assert(after[r][0].0 == i);
                }
            }
        }
    }
}

/// Every screen has its header, the diagnosis, latency, loss, jitter, DNS, the log and the
/// footer. The targets and the extra probes are shown where there are any; the extra probes
/// need 30 rows, the streaks 26 and the heatmap 36.
pub proof fn law_panels_of_a_screen(a: AppV, height: u16)
    ensures
        ({
            let ps = panels_of(a.plan(height));
            &&& ps.len() >= 8
            &&& ps[0] == Panel::Header && ps[1] == Panel::Insights && ps[2] == Panel::Latency
            &&& ps[ps.len() - 2] == Panel::Events && ps[ps.len() - 1] == Panel::Footer
            &&& ps.contains(Panel::Loss) && ps.contains(Panel::Jitter) && ps.contains(Panel::Dns)
            &&& ps.contains(Panel::Targets) <==> a.primaries.len() > 0
            &&& ps.contains(Panel::Heatmap) <==> height >= 36
            &&& ps.contains(Panel::Extras) <==> a.extras.len() > 0 && height >= 30
            &&& ps.contains(Panel::Stats) <==> height >= 26
        }),
{
    let ps = panels_of(a.plan(height));
    let t = if a.primaries.len() > 0 {
        1int
    } else {
        0
    };
    let h = if height >= 36 {
        1int
    } else {
        0
    };
    let x = if a.extras.len() > 0 && height >= 30 {
        1int
    } else {
        0
    };
    let s = if height >= 26 {
        1int
    } else {
        0
    };
    assert(ps.len() == 8 + t + h + x + s);
    assert(t == 1 ==> ps[3] == Panel::Targets);
    assert(h == 1 ==> ps[3 + t] == Panel::Heatmap);
    assert(ps[3 + t + h] == Panel::Loss);
    assert(ps[4 + t + h] == Panel::Jitter);
    assert(ps[5 + t + h] == Panel::Dns);
    assert(x == 1 ==> ps[6 + t + h] == Panel::Extras);
    assert(s == 1 ==> ps[6 + t + h + x] == Panel::Stats);
}

/// A list of `n` lines gets a row for each and `extra` more, as far as a screen can have them.
pub proof fn law_rows_for_a_list(n: nat, extra: nat)
    ensures
        n + extra <= 65_535 ==> rows_for(n, extra) == n + extra,
        n + extra > 65_535 ==> rows_for(n, extra) == 65_535,
{
}

/// A share in per cent is rounded to the nearest whole number of cells, a half upwards, and
/// never exceeds the cells.
pub proof fn law_per_cent_is_rounded(p: u16, cells: int)
    requires
        p <= 100,
        cells >= 0,
    ensures
        ({
            let r = per_cent(p, cells);
            0 <= r <= cells && 100 * r <= p * cells + 50 < 100 * r + 100
        }),
{
    assert(0 <= p * cells <= 100 * cells) by (nonlinear_arith)
        requires
            0 <= p <= 100,
            cells >= 0,
    ;
}

/// Every state has its tone and its word: up is good, degraded a warning, down bad; and
/// entries of the log look as grave as they are.
pub proof fn law_states_have_their_tones(s: LinkState, t: LinkState, l: Level)
    ensures
        state_tone_of(s) == Tone::Good <==> s == LinkState::Up,
        state_tone_of(s) == Tone::Bad <==> s == LinkState::Down,
        state_label_text(s) == state_label_text(t) ==> s == t,
        level_tone(l) == Tone::Bad <==> l == Level::Bad,
        level_tone(l) == Tone::Warn <==> l == Level::Warn,
        level_tone(l) == Tone::Good <==> l == Level::Good,
{
    reveal_strlit("● Online");
    reveal_strlit("◐ Degraded");
    reveal_strlit("○ Down");
    assert(state_label_text(LinkState::Up)[0] == '●');
    assert(state_label_text(LinkState::Degraded)[0] == '◐');
    assert(state_label_text(LinkState::Down)[0] == '○');
}

/// The header shows the state of the connection, and the footer whether the sound is on.
pub proof fn law_header_and_footer(a: AppV)
    ensures
        a.header_line()[3].text == state_label_text(a.state),
        a.header_line()[3].tone == state_tone_of(a.state),
        a.muted ==> a.footer_line()[3].text == "muted"@,
        !a.muted ==> a.footer_line()[3].text == "sound on"@ && a.footer_line()[3].tone
            == Tone::Good,
{
}

/// The title of the jitter warns where the jitter exceeds its limit, and more so where it
/// exceeds twice that.
pub proof fn law_jitter_title_warns(a: AppV)
    ensures
        ({
            let plain = "Jitter  pooled  cur "@ + ms_text(or_else(a.jitter(), 0) as nat, 1)
                + " ms  (median of "@ + digits(a.primaries.len()) + " targets)"@;
            let jit = or_else(a.jitter(), 0);
            &&& jit > 2 * a.cfg.jitter_warn_ns ==> a.jitter_title() == plain + "  ⚠ HIGH"@
            &&& a.cfg.jitter_warn_ns < jit <= 2 * a.cfg.jitter_warn_ns ==> a.jitter_title() == plain
                + "  ◐ elevated"@
            &&& jit <= a.cfg.jitter_warn_ns ==> a.jitter_title() == plain + Seq::<char>::empty()
        }),
{
}

/// A finding is shown with its cause in the tone of its gravity, its evidence and what to do.
pub proof fn law_findings_are_shown(i: InsightV)
    ensures
        insight_line(i).len() == 3,
        insight_line(i)[0].text == " "@ + i.cause,
        insight_line(i)[0].tone == level_tone(i.severity),
        insight_line(i)[1].text == " · "@ + i.evidence,
        insight_line(i)[2].text == " → "@ + i.action,
{
}

} // verus!
