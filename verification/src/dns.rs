//! The matrix of resolvers and names that tells a broken resolver from a site
//! that is down.
use vstd::prelude::*;
use crate::exact::in_range;
use crate::probe::WIN;
use crate::state::LinkState;
use crate::stats::{
    below, law_percentile_has_its_rank, opt_text, percentile, percentile_of, present, present_values,
    stat_zero, LatStat, Ratio, Ring, RingV,
};

verus! {

/// The answers of one resolver for one name.
#[derive(Clone)]
pub struct DnsCell {
    pub ring: Ring<Option<u64>>,
    pub stat: LatStat,
    pub last: Option<u64>,
    pub state: LinkState,
}

/// What a [`DnsCell`] holds.
#[verifier::ext_equal]
pub struct CellV {
    pub ring: RingV<Option<u64>>,
    pub stat: LatStat,
    pub last: Option<u64>,
    pub state: LinkState,
}

impl View for DnsCell {
    type V = CellV;

    open spec fn view(&self) -> CellV {
        CellV { ring: self.ring@, stat: self.stat, last: self.last, state: self.state }
    }
}

/// A cell that has seen nothing yet.
pub open spec fn cell_new() -> CellV {
    CellV {
        ring: RingV::empty(WIN as nat),
        stat: stat_zero(),
        last: None,
        state: LinkState::Up,
    }
}

/// How an answer is judged: too slow or missing is Down, slow is Degraded.
pub open spec fn answer_state(ns: Option<u64>, warn: nat, bad: nat) -> LinkState {
    match ns {
        None => LinkState::Down,
        Some(v) => if v > bad {
            LinkState::Down
        } else if v > warn {
            LinkState::Degraded
        } else {
            LinkState::Up
        },
    }
}

impl CellV {
    /// The cell after one more answer.
    pub open spec fn answered(self, ns: Option<u64>, warn: nat, bad: nat) -> CellV {
        CellV {
            ring: self.ring.pushed(ns),
            stat: match ns {
                Some(v) => self.stat.added(v),
                None => self.stat,
            },
            last: ns,
            state: answer_state(ns, warn, bad),
        }
    }

    /// What nine of ten answers stay below, where there are enough of them.
    pub open spec fn p90(self) -> Option<u64> {
        if self.ring.items.len() >= 50 {
            percentile_of(present(self.ring.items), 90)
        } else {
            None
        }
    }
}

impl DnsCell {
    pub fn new() -> (c: Self)
        ensures
            c@ == cell_new(),
    {
        DnsCell {
            ring: Ring::new(WIN),
            stat: LatStat::default(),
            last: None,
            state: LinkState::Up,
        }
    }

    pub fn reset(&mut self)
        ensures
            final(self)@ == cell_new(),
    {
        self.ring = Ring::new(WIN);
        self.stat = LatStat::default();
        self.last = None;
        self.state = LinkState::Up;
    }

    /// Takes in one answer and judges it.
    pub fn answer(&mut self, ns: Option<u64>, warn: u128, bad: u128)
        requires
            old(self).stat.wf(),
            old(self).stat.count < u64::MAX,
        ensures
            final(self)@ == old(self)@.answered(ns, warn as nat, bad as nat),
            final(self).stat.wf(),
    {
        self.ring.push(ns);
        self.last = ns;
        match ns {
            Some(v) => {
                self.stat.add(v);
                if v as u128 > bad {
                    self.state = LinkState::Down;
                } else if v as u128 > warn {
                    self.state = LinkState::Degraded;
                } else {
                    self.state = LinkState::Up;
                }
            },
            None => {
                self.state = LinkState::Down;
            },
        }
    }

    pub fn p90(&self) -> (r: Option<u64>)
        ensures
            r == self@.p90(),
    {
        if self.ring.len() < 50 {
            return None;
        }
        let vals = present_values(&self.ring.as_vec());
        percentile(&vals, 90)
    }
}

/// Resolvers (label and, where it is not the system's, address) against names.
pub struct DnsMatrix {
    pub resolvers: Vec<(String, Option<String>)>,
    pub names: Vec<String>,
    pub cells: Vec<Vec<DnsCell>>,
}

/// What a [`DnsMatrix`] holds.
#[verifier::ext_equal]
pub struct MatrixV {
    pub resolvers: Seq<(Seq<char>, Option<Seq<char>>)>,
    pub names: Seq<Seq<char>>,
    pub cells: Seq<Seq<CellV>>,
}

pub open spec fn row_view(row: Vec<DnsCell>) -> Seq<CellV> {
    Seq::new(row@.len(), |j: int| row@[j]@)
}

pub open spec fn cells_view(cells: Seq<Vec<DnsCell>>) -> Seq<Seq<CellV>> {
    Seq::new(cells.len(), |i: int| row_view(cells[i]))
}

pub open spec fn names_view(names: Seq<String>) -> Seq<Seq<char>> {
    Seq::new(names.len(), |i: int| names[i]@)
}

pub open spec fn resolvers_view(rs: Seq<(String, Option<String>)>) -> Seq<
    (Seq<char>, Option<Seq<char>>),
> {
    Seq::new(rs.len(), |i: int| (rs[i].0@, opt_text(rs[i].1)))
}

impl View for DnsMatrix {
    type V = MatrixV;

    open spec fn view(&self) -> MatrixV {
        MatrixV {
            resolvers: resolvers_view(self.resolvers@),
            names: names_view(self.names@),
            cells: cells_view(self.cells@),
        }
    }
}

/// A row of fresh cells.
pub open spec fn row_new(n: nat) -> Seq<CellV> {
    Seq::new(n, |j: int| cell_new())
}

impl MatrixV {
    /// Every resolver has a row, every row has a cell for each name.
    pub open spec fn wf(self) -> bool {
        &&& self.cells.len() == self.resolvers.len()
        &&& forall|i: int|
            0 <= i < self.cells.len() ==> (#[trigger] self.cells[i]).len() == self.names.len()
        &&& forall|i: int, j: int|
            0 <= i < self.cells.len() && 0 <= j < self.cells[i].len()
                ==> (#[trigger] self.cells[i][j]).stat.wf()
    }

    pub open spec fn fresh(
        resolvers: Seq<(Seq<char>, Option<Seq<char>>)>,
        names: Seq<Seq<char>>,
    ) -> MatrixV {
        MatrixV {
            resolvers,
            names,
            cells: Seq::new(resolvers.len(), |i: int| row_new(names.len())),
        }
    }

    /// The matrix with one cell replaced.
    pub open spec fn with_cell(self, r: int, d: int, c: CellV) -> MatrixV {
        MatrixV { cells: self.cells.update(r, self.cells[r].update(d, c)), ..self }
    }

    /// The matrix with every cell as at the start.
    pub open spec fn cleared(self) -> MatrixV {
        MatrixV {
            cells: Seq::new(self.cells.len(), |i: int| row_new(self.cells[i].len())),
            ..self
        }
    }
}

/// `n` fresh cells.
fn fresh_row(n: usize) -> (row: Vec<DnsCell>)
    ensures
        row_view(row) == row_new(n as nat),
{
    let mut row: Vec<DnsCell> = Vec::new();
    while row.len() < n
        invariant
            row.len() <= n,
            row_view(row) == row_new(row@.len()),
        decreases n - row.len(),
    {
        let ghost before = row;
        row.push(DnsCell::new());
        proof {
            assert forall|j: int| 0 <= j < row@.len() implies row@[j]@ == cell_new() by {
                if j < before@.len() {
                    assert(row_view(before)[j] == row_new(before@.len())[j]);
                }
            }
            assert(row_view(row) =~= row_new(row@.len()));
        }
    }
    row
}

impl DnsMatrix {
    pub fn new(resolvers: Vec<(String, Option<String>)>, names: Vec<String>) -> (m: Self)
        ensures
            m@ == MatrixV::fresh(resolvers_view(resolvers@), names_view(names@)),
            m@.wf(),
    {
        let mut cells: Vec<Vec<DnsCell>> = Vec::new();
        while cells.len() < resolvers.len()
            invariant
                cells.len() <= resolvers.len(),
                forall|i: int|
                    0 <= i < cells@.len() ==> row_view(#[trigger] cells@[i]) == row_new(
                        names@.len(),
                    ),
            decreases resolvers.len() - cells.len(),
        {
            cells.push(fresh_row(names.len()));
        }
        let m = DnsMatrix { resolvers, names, cells };
        proof {
            assert(m@ =~= MatrixV::fresh(resolvers_view(resolvers@), names_view(names@)));
            assert forall|i: int, j: int|
                0 <= i < m@.cells.len() && 0 <= j < m@.cells[i].len() implies (
            #[trigger] m@.cells[i][j]).stat.wf() by {
                assert(m@.cells[i] == row_new(names@.len()));
            }
        }
        m
    }

    /// Every cell starts again.
    pub fn clear(&mut self)
        requires
            old(self)@.wf(),
        ensures
            final(self)@ == old(self)@.cleared(),
            final(self)@.wf(),
    {
        let rows: usize = self.cells.len();
        let mut cells: Vec<Vec<DnsCell>> = Vec::new();
        let mut i: usize = 0;
        while i < rows
            invariant
                i <= rows,
                rows == self.cells@.len(),
                *self == *old(self),
                cells@.len() == i,
                forall|k: int|
                    0 <= k < i ==> row_view(#[trigger] cells@[k]) == row_new(
                        old(self).cells@[k]@.len(),
                    ),
            decreases rows - i,
        {
            let n: usize = self.cells[i].len();
            cells.push(fresh_row(n));
            i = i + 1;
        }
        self.cells = cells;
        proof {
            assert(self@ =~= old(self)@.cleared());
            assert forall|k: int| 0 <= k < self@.cells.len() implies (
            #[trigger] self@.cells[k]).len() == self@.names.len() by {
                assert(old(self)@.cells[k].len() == old(self)@.names.len());
            }
            assert forall|k: int, j: int|
                0 <= k < self@.cells.len() && 0 <= j < self@.cells[k].len() implies (
            #[trigger] self@.cells[k][j]).stat.wf() by {
                assert(self@.cells[k] == row_new(old(self)@.cells[k].len()));
            }
        }
    }

    /// Enters an answer of resolver `r` for name `d`.
    pub fn answer(&mut self, r: usize, d: usize, ns: Option<u64>, warn: u128, bad: u128)
        requires
            old(self)@.wf(),
            r < old(self)@.cells.len(),
            d < old(self)@.cells[r as int].len(),
            old(self)@.cells[r as int][d as int].stat.count < u64::MAX,
        ensures
            final(self)@.wf(),
            final(self)@ == old(self)@.with_cell(
                r as int,
                d as int,
                old(self)@.cells[r as int][d as int].answered(ns, warn as nat, bad as nat),
            ),
    {
        let ghost c = old(self)@.cells[r as int][d as int].answered(ns, warn as nat, bad as nat);
        proof {
            assert(old(self)@.cells[r as int][d as int].stat.wf());
        }
        self.cells[r][d].answer(ns, warn, bad);
        proof {
            let want = old(self)@.with_cell(r as int, d as int, c);
            assert(self.cells@[r as int]@ == old(self).cells@[r as int]@.update(
                d as int,
                self.cells@[r as int]@[d as int],
            ));
            assert(row_view(self.cells@[r as int]) =~= old(self)@.cells[r as int].update(
                d as int,
                c,
            ));
            assert forall|i: int| 0 <= i < self@.cells.len() implies self@.cells[i]
                == want.cells[i] by {
                if i != r {
                    assert(self.cells@[i] == old(self).cells@[i]);
                }
            }
            assert(self@ =~= want);
            assert forall|i: int| 0 <= i < self@.cells.len() implies (
            #[trigger] self@.cells[i]).len() == self@.names.len() by {
                assert(old(self)@.cells[i].len() == old(self)@.names.len());
            }
            assert forall|i: int, j: int|
                0 <= i < self@.cells.len() && 0 <= j < self@.cells[i].len() implies (
            #[trigger] self@.cells[i][j]).stat.wf() by {
                assert(old(self)@.cells[i][j].stat.wf());
            }
        }
    }
}

// -------------------------------------------------------------------- views

/// The larger of two optional values; an absent one does not count.
pub open spec fn larger(a: Option<u64>, b: Option<u64>) -> Option<u64> {
    match (a, b) {
        (Some(x), Some(y)) => if x >= y {
            a
        } else {
            b
        },
        (Some(x), None) => a,
        (None, _) => b,
    }
}

pub fn larger_of(a: Option<u64>, b: Option<u64>) -> (r: Option<u64>)
    ensures
        r == larger(a, b),
{
    match (a, b) {
        (Some(x), Some(y)) => if x >= y {
            a
        } else {
            b
        },
        (Some(x), None) => a,
        (None, _) => b,
    }
}

/// The highest latest answer in a row.
pub open spec fn worst_last(row: Seq<CellV>) -> Option<u64>
    decreases row.len(),
{
    if row.len() == 0 {
        None
    } else {
        larger(worst_last(row.drop_last()), row.last().last)
    }
}

/// The highest [`CellV::p90`] of a row.
pub open spec fn row_p90(row: Seq<CellV>) -> Option<u64>
    decreases row.len(),
{
    if row.len() == 0 {
        None
    } else {
        larger(row_p90(row.drop_last()), row.last().p90())
    }
}

/// The highest [`CellV::p90`] of the matrix.
pub open spec fn matrix_p90(rows: Seq<Seq<CellV>>) -> Option<u64>
    decreases rows.len(),
{
    if rows.len() == 0 {
        None
    } else {
        larger(matrix_p90(rows.drop_last()), row_p90(rows.last()))
    }
}

/// The means of the cells of a row that have any answer.
pub open spec fn row_means(row: Seq<CellV>) -> Seq<Ratio>
    decreases row.len(),
{
    if row.len() == 0 {
        Seq::empty()
    } else {
        match row.last().stat.mean() {
            Some(m) => row_means(row.drop_last()).push(m),
            None => row_means(row.drop_last()),
        }
    }
}

/// The means of all cells that have any answer, row by row.
pub open spec fn matrix_means(rows: Seq<Seq<CellV>>) -> Seq<Ratio>
    decreases rows.len(),
{
    if rows.len() == 0 {
        Seq::empty()
    } else {
        matrix_means(rows.drop_last()) + row_means(rows.last())
    }
}

proof fn lemma_row_means(row: Seq<CellV>)
    requires
        forall|j: int| 0 <= j < row.len() ==> (#[trigger] row[j]).stat.wf(),
    ensures
        forall|k: int| 0 <= k < row_means(row).len() ==> in_range(#[trigger] row_means(row)[k]),
    decreases row.len(),
{
    if row.len() > 0 {
        let s = row[row.len() - 1].stat;
        let head = row_means(row.drop_last());
        lemma_row_means(row.drop_last());
        assert(s.count * s.max <= s.count * u64::MAX) by (nonlinear_arith)
            requires
                s.max <= u64::MAX,
        ;
        assert forall|k: int| 0 <= k < row_means(row).len() implies in_range(
            #[trigger] row_means(row)[k],
        ) by {
            if k < head.len() {
                assert(row_means(row)[k] == head[k]);
            }
        }
    }
}

/// The means of a matrix stay in the range of the samples.
pub proof fn lemma_matrix_means(rows: Seq<Seq<CellV>>)
    requires
        forall|i: int, j: int|
            0 <= i < rows.len() && 0 <= j < rows[i].len() ==> (#[trigger] rows[i][j]).stat.wf(),
    ensures
        forall|k: int|
            0 <= k < matrix_means(rows).len() ==> in_range(#[trigger] matrix_means(rows)[k]),
    decreases rows.len(),
{
    if rows.len() > 0 {
        let last = rows[rows.len() - 1];
        assert forall|j: int| 0 <= j < last.len() implies (#[trigger] last[j]).stat.wf() by {
            assert(rows[rows.len() - 1][j].stat.wf());
        }
        let head = matrix_means(rows.drop_last());
        lemma_row_means(last);
        lemma_matrix_means(rows.drop_last());
        assert forall|k: int| 0 <= k < matrix_means(rows).len() implies in_range(
            #[trigger] matrix_means(rows)[k],
        ) by {
            if k < head.len() {
                assert(matrix_means(rows)[k] == head[k]);
            } else {
                assert(matrix_means(rows)[k] == row_means(last)[k - head.len()]);
            }
        }
    }
}

fn worst_in_row(row: &Vec<DnsCell>) -> (r: Option<u64>)
    ensures
        r == worst_last(row_view(*row)),
{
    let mut worst: Option<u64> = None;
    let mut i: usize = 0;
    while i < row.len()
        invariant
            i <= row.len(),
            worst == worst_last(row_view(*row).take(i as int)),
        decreases row.len() - i,
    {
        proof {
            assert(row_view(*row).take(i + 1).drop_last() =~= row_view(*row).take(i as int));
        }
        worst = larger_of(worst, row[i].last);
        i = i + 1;
    }
    proof {
        assert(row_view(*row).take(i as int) =~= row_view(*row));
    }
    worst
}

fn p90_in_row(row: &Vec<DnsCell>) -> (r: Option<u64>)
    ensures
        r == row_p90(row_view(*row)),
{
    let mut worst: Option<u64> = None;
    let mut i: usize = 0;
    while i < row.len()
        invariant
            i <= row.len(),
            worst == row_p90(row_view(*row).take(i as int)),
        decreases row.len() - i,
    {
        proof {
            assert(row_view(*row).take(i + 1).drop_last() =~= row_view(*row).take(i as int));
        }
        worst = larger_of(worst, row[i].p90());
        i = i + 1;
    }
    proof {
        assert(row_view(*row).take(i as int) =~= row_view(*row));
    }
    worst
}

fn means_in_row(row: &Vec<DnsCell>) -> (r: Vec<Ratio>)
    requires
        forall|j: int| 0 <= j < row@.len() ==> (#[trigger] row@[j]).stat.wf(),
    ensures
        r@ == row_means(row_view(*row)),
        forall|k: int| 0 <= k < r@.len() ==> in_range(#[trigger] r@[k]),
{
    let mut means: Vec<Ratio> = Vec::new();
    let mut i: usize = 0;
    while i < row.len()
        invariant
            i <= row.len(),
            means@ == row_means(row_view(*row).take(i as int)),
            forall|k: int| 0 <= k < means@.len() ==> in_range(#[trigger] means@[k]),
            forall|j: int| 0 <= j < row@.len() ==> (#[trigger] row@[j]).stat.wf(),
        decreases row.len() - i,
    {
        proof {
            assert(row_view(*row).take(i + 1).drop_last() =~= row_view(*row).take(i as int));
        }
        if let Some(m) = row[i].stat.avg() {
            proof {
                let s = row@[i as int].stat;
                assert(s.count * s.max <= s.count * u64::MAX) by (nonlinear_arith)
                    requires
                        s.max <= u64::MAX,
                ;
            }
            means.push(m);
        }
        i = i + 1;
    }
    proof {
        assert(row_view(*row).take(i as int) =~= row_view(*row));
    }
    means
}

impl DnsMatrix {
    /// The highest latest answer of the first resolver, the system's own.
    pub fn first_row_worst(&self) -> (r: Option<u64>)
        ensures
            r == (if self@.cells.len() == 0 {
                None
            } else {
                worst_last(self@.cells[0])
            }),
    {
        if self.cells.len() == 0 {
            None
        } else {
            worst_in_row(&self.cells[0])
        }
    }

    /// The highest latency that nine of ten answers of some cell stay below.
    pub fn p90(&self) -> (r: Option<u64>)
        ensures
            r == matrix_p90(self@.cells),
    {
        let mut worst: Option<u64> = None;
        let mut i: usize = 0;
        while i < self.cells.len()
            invariant
                i <= self.cells.len(),
                worst == matrix_p90(self@.cells.take(i as int)),
            decreases self.cells.len() - i,
        {
            proof {
                assert(self@.cells.take(i + 1).drop_last() =~= self@.cells.take(i as int));
            }
            worst = larger_of(worst, p90_in_row(&self.cells[i]));
            i = i + 1;
        }
        proof {
            assert(self@.cells.take(i as int) =~= self@.cells);
        }
        worst
    }

    /// The means of all cells that have any answer.
    pub fn means(&self) -> (r: Vec<Ratio>)
        requires
            self@.wf(),
        ensures
            r@ == matrix_means(self@.cells),
            forall|k: int| 0 <= k < r@.len() ==> in_range(#[trigger] r@[k]),
    {
        let mut means: Vec<Ratio> = Vec::new();
        let mut i: usize = 0;
        while i < self.cells.len()
            invariant
                i <= self.cells.len(),
                self@.wf(),
                means@ == matrix_means(self@.cells.take(i as int)),
                forall|k: int| 0 <= k < means@.len() ==> in_range(#[trigger] means@[k]),
            decreases self.cells.len() - i,
        {
            proof {
                assert(self@.cells.take(i + 1).drop_last() =~= self@.cells.take(i as int));
                assert forall|j: int| 0 <= j < self.cells@[i as int]@.len() implies (
                #[trigger] self.cells@[i as int]@[j]).stat.wf() by {
                    assert(self@.cells[i as int][j].stat.wf());
                }
            }
            let mut row = means_in_row(&self.cells[i]);
            means.append(&mut row);
            i = i + 1;
        }
        proof {
            assert(self@.cells.take(i as int) =~= self@.cells);
        }
        means
    }
}

/// The worst latest answer of a row is the slowest: one of its cells has it, and none has
/// a slower one. Only a row without any answer has none.
pub proof fn law_worst_is_the_slowest(row: Seq<CellV>)
    ensures
        worst_last(row) is None <==> forall|j: int|
            0 <= j < row.len() ==> (#[trigger] row[j]).last is None,
        worst_last(row) matches Some(w) ==> (exists|j: int|
            0 <= j < row.len() && (#[trigger] row[j]).last == worst_last(row)) && (forall|j: int|
            0 <= j < row.len() && (#[trigger] row[j]).last is Some ==> row[j].last->0 <= w),
    decreases row.len(),
{
    if row.len() > 0 {
        let d = row.drop_last();
        let last = row.len() - 1;
        law_worst_is_the_slowest(d);
        assert(row[last] == row.last());
        assert forall|j: int| 0 <= j < d.len() implies #[trigger] row[j] == d[j] by {}
        if worst_last(d) is Some {
            let j = choose|j: int| 0 <= j < d.len() && (#[trigger] d[j]).last == worst_last(d);
            assert(row[j].last == worst_last(d));
        } else {
            assert forall|j: int| 0 <= j < d.len() implies (#[trigger] row[j]).last is None by {
                assert(d[j].last is None);
            }
        }
        if worst_last(row) is Some {
            assert forall|j: int|
                0 <= j < row.len() && (#[trigger] row[j]).last is Some implies row[j].last->0
                <= worst_last(row)->0 by {
                if j < last {
                    assert(d[j].last is Some);
                }
            }
        }
        if worst_last(row) is None {
            assert forall|j: int| 0 <= j < row.len() implies (#[trigger] row[j]).last is None by {
                if j < last {
                    assert(d[j].last is None);
                }
            }
        }
    }
}

/// An answer is Down where it is missing or slower than the bad limit, Degraded where it is
/// slower than the warning limit only, and Up otherwise; a slower one is never judged
/// better.
pub proof fn law_answers_are_judged_by_their_time(v: u64, slower: u64, warn: nat, bad: nat)
    requires
        v <= slower,
    ensures
        answer_state(None, warn, bad) == LinkState::Down,
        answer_state(Some(v), warn, bad) == LinkState::Down <==> v > bad,
        answer_state(Some(v), warn, bad) == LinkState::Degraded <==> warn < v <= bad,
        answer_state(Some(v), warn, bad) == LinkState::Down ==> answer_state(
            Some(slower),
            warn,
            bad,
        ) == LinkState::Down,
        answer_state(Some(slower), warn, bad) == LinkState::Up ==> answer_state(
            Some(v),
            warn,
            bad,
        ) == LinkState::Up,
{
}

/// What is usual for a cell is known once its window holds fifty results: the 90th
/// percentile of its answers.
pub proof fn law_usual_time_needs_fifty(c: CellV)
    ensures
        c.ring.items.len() < 50 ==> c.p90() is None,
        c.ring.items.len() >= 50 && present(c.ring.items).len() == 0 ==> c.p90() is None,
        c.ring.items.len() >= 50 && present(c.ring.items).len() > 0 ==> (c.p90() matches Some(v)
            && below(present(c.ring.items), v as int) <= 90 * present(c.ring.items).len() / 100
            < below(present(c.ring.items), v + 1)),
{
    law_percentile_has_its_rank(present(c.ring.items), 90);
}

/// The usual time of the matrix is the largest of its cells.
pub proof fn law_matrix_takes_the_largest(rows: Seq<Seq<CellV>>)
    ensures
        forall|i: int, j: int|
            0 <= i < rows.len() && 0 <= j < rows[i].len() && (#[trigger] rows[i][j]).p90() is Some
                ==> matrix_p90(rows) is Some && rows[i][j].p90()->0 <= matrix_p90(rows)->0,
        matrix_p90(rows) is Some ==> exists|i: int, j: int|
            0 <= i < rows.len() && 0 <= j < rows[i].len() && (#[trigger] rows[i][j]).p90()
                == matrix_p90(rows),
    decreases rows.len(),
{
    if rows.len() > 0 {
        let d = rows.drop_last();
        let last = rows.len() - 1;
        law_matrix_takes_the_largest(d);
        lemma_row_takes_the_largest(rows.last());
        assert(rows[last] == rows.last());
        assert forall|i: int| 0 <= i < d.len() implies #[trigger] rows[i] == d[i] by {}
        assert forall|i: int, j: int|
            0 <= i < rows.len() && 0 <= j < rows[i].len() && (#[trigger] rows[i][j]).p90()
                is Some implies matrix_p90(rows) is Some && rows[i][j].p90()->0 <= matrix_p90(
            rows,
        )->0 by {
            if i < last {
                assert(d[i][j].p90() is Some);
            } else {
                assert(rows.last()[j].p90() is Some);
            }
        }
        if matrix_p90(rows) is Some {
            if matrix_p90(rows) == row_p90(rows.last()) {
                let j = choose|j: int|
                    0 <= j < rows.last().len() && (#[trigger] rows.last()[j]).p90() == row_p90(
                        rows.last(),
                    );
                assert(rows[last][j].p90() == matrix_p90(rows));
            } else {
                let (i, j) = choose|i: int, j: int|
                    0 <= i < d.len() && 0 <= j < d[i].len() && (#[trigger] d[i][j]).p90()
                        == matrix_p90(d);
                assert(rows[i][j].p90() == matrix_p90(rows));
            }
        }
    }
}

proof fn lemma_row_takes_the_largest(row: Seq<CellV>)
    ensures
        forall|j: int|
            0 <= j < row.len() && (#[trigger] row[j]).p90() is Some ==> row_p90(row) is Some
                && row[j].p90()->0 <= row_p90(row)->0,
        row_p90(row) is Some ==> exists|j: int|
            0 <= j < row.len() && (#[trigger] row[j]).p90() == row_p90(row),
    decreases row.len(),
{
    if row.len() > 0 {
        let d = row.drop_last();
        let last = row.len() - 1;
        lemma_row_takes_the_largest(d);
        assert(row[last] == row.last());
        assert forall|j: int| 0 <= j < d.len() implies #[trigger] row[j] == d[j] by {}
        assert forall|j: int| 0 <= j < row.len() && (#[trigger] row[j]).p90() is Some implies
            row_p90(row) is Some && row[j].p90()->0 <= row_p90(row)->0 by {
            if j < last {
                assert(d[j].p90() is Some);
            }
        }
        if row_p90(row) is Some {
            if row_p90(row) == row.last().p90() {
                assert(row[last].p90() == row_p90(row));
            } else {
                let j = choose|j: int| 0 <= j < d.len() && (#[trigger] d[j]).p90() == row_p90(d);
                assert(row[j].p90() == row_p90(row));
            }
        }
    }
}

/// The means of a matrix are those of its cells, row by row: each row adds the means of its
/// cells behind those of the rows before, a cell without an answer adds none.
pub proof fn law_means_row_by_row(rows: Seq<Seq<CellV>>, row: Seq<CellV>, c: CellV)
    ensures
        matrix_means(Seq::empty()) == Seq::<Ratio>::empty(),
        matrix_means(rows.push(row)) == matrix_means(rows) + row_means(row),
        row_means(Seq::empty()) == Seq::<Ratio>::empty(),
        c.stat.count == 0 ==> row_means(row.push(c)) == row_means(row),
        c.stat.count > 0 ==> row_means(row.push(c)).len() == row_means(row).len() + 1 && row_means(
            row.push(c),
        ).drop_last() == row_means(row) && row_means(row.push(c)).last().num == c.stat.sum
            && row_means(row.push(c)).last().den == c.stat.count,
{
    assert(rows.push(row).drop_last() =~= rows);
    assert(row.push(c).drop_last() =~= row);
    if c.stat.count > 0 {
        assert(row_means(row.push(c)).drop_last() =~= row_means(row));
    }
}

/// A matrix that is cleared keeps its resolvers and names and has nothing in its cells, as
/// a new one of them.
pub proof fn law_cleared_matrix_is_fresh(m: MatrixV)
    requires
        m.wf(),
    ensures
        m.cleared() == MatrixV::fresh(m.resolvers, m.names),
        forall|i: int, j: int|
            0 <= i < m.resolvers.len() && 0 <= j < m.names.len() ==> ({
                let c = #[trigger] m.cleared().cells[i][j];
                c.last is None && c.stat.count == 0 && c.ring.items.len() == 0 && c.ring.cap == 120
                    && c.state == LinkState::Up
            }),
{
    assert(m.cleared().cells =~= MatrixV::fresh(m.resolvers, m.names).cells);
}

} // verus!
