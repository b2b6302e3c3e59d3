//! Sample windows and the statistics that the monitor keeps of them.
//!
//! All measured values are whole nanoseconds.
use std::collections::VecDeque;
use vstd::prelude::*;
use crate::text::{fixed, fixed_text};

verus! {

pub const BASELINE_CAP: usize = 300;

// ---------------------------------------------------------------------- ring

/// The latest `cap` values, oldest first.
#[derive(Clone)]
pub struct Ring<T: Copy + Default> {
    pub buf: VecDeque<T>,
    pub cap: usize,
}

/// What a [`Ring`] holds.
#[verifier::ext_equal]
pub struct RingV<T> {
    pub items: Seq<T>,
    pub cap: nat,
}

impl<T> RingV<T> {
    pub open spec fn empty(cap: nat) -> RingV<T> {
        RingV { items: Seq::empty(), cap }
    }

    /// The window after one more value: a full one gives up its oldest.
    pub open spec fn pushed(self, v: T) -> RingV<T> {
        RingV { items: push_capped(self.items, self.cap, v), ..self }
    }
}

/// `s` with `v` at its end; at length `cap` the first element makes room.
pub open spec fn push_capped<T>(s: Seq<T>, cap: nat, v: T) -> Seq<T> {
    if s.len() == cap && cap > 0 {
        s.drop_first().push(v)
    } else {
        s.push(v)
    }
}

impl<T: Copy + Default> View for Ring<T> {
    type V = RingV<T>;

    open spec fn view(&self) -> RingV<T> {
        RingV { items: self.buf@, cap: self.cap as nat }
    }
}

impl<T: Copy + Default> Ring<T> {
    pub fn new(cap: usize) -> (r: Self)
        ensures
            r@ == RingV::<T>::empty(cap as nat),
    {
        let r = Ring { buf: VecDeque::with_capacity(cap), cap };
        proof {
            assert(r@ =~= RingV::<T>::empty(cap as nat));
        }
        r
    }

    pub fn push(&mut self, v: T)
        ensures
            final(self)@ == old(self)@.pushed(v),
    {
        if self.buf.len() == self.cap {
            self.buf.pop_front();
        }
        self.buf.push_back(v);
        proof {
            assert(self@ =~= old(self)@.pushed(v));
        }
    }

    pub fn as_vec(&self) -> (v: Vec<T>)
        ensures
            v@ == self@.items,
    {
        let mut v: Vec<T> = Vec::new();
        let mut i: usize = 0;
        while i < self.buf.len()
            invariant
                i <= self.buf.len(),
                v@ == self.buf@.take(i as int),
            decreases self.buf.len() - i,
        {
            v.push(self.buf[i]);
            i = i + 1;
            proof {
                assert(v@ =~= self.buf@.take(i as int));
            }
        }
        proof {
            assert(v@ =~= self.buf@);
        }
        v
    }

    pub fn len(&self) -> (n: usize)
        ensures
            n == self@.items.len(),
    {
        self.buf.len()
    }
}

/// A window never grows beyond its capacity, and the value pushed last is the
/// newest in it.
pub proof fn law_ring_is_bounded<T>(r: RingV<T>, v: T)
    requires
        r.cap > 0,
        r.items.len() <= r.cap,
    ensures
        r.pushed(v).items.len() <= r.cap,
        r.pushed(v).items.last() == v,
        r.pushed(v).items.len() >= r.items.len(),
{
}

/// `n` pushes into a window.
pub open spec fn pushed_all<T>(r: RingV<T>, vs: Seq<T>) -> RingV<T>
    decreases vs.len(),
{
    if vs.len() == 0 {
        r
    } else {
        pushed_all(r, vs.drop_last()).pushed(vs.last())
    }
}

/// A window holds exactly the latest values, in the order in which they came.
pub proof fn law_ring_holds_the_latest<T>(cap: nat, vs: Seq<T>)
    requires
        cap > 0,
    ensures
        pushed_all(RingV::<T>::empty(cap), vs).items == (if vs.len() <= cap {
            vs
        } else {
            vs.skip(vs.len() - cap)
        }),
        pushed_all(RingV::<T>::empty(cap), vs).cap == cap,
    decreases vs.len(),
{
    if vs.len() > 0 {
        law_ring_holds_the_latest(cap, vs.drop_last());
        let before = pushed_all(RingV::<T>::empty(cap), vs.drop_last());
        if vs.len() <= cap {
            assert(before.pushed(vs.last()).items =~= vs);
        } else {
            assert(before.pushed(vs.last()).items =~= vs.skip(vs.len() - cap));
        }
    } else {
        assert(RingV::<T>::empty(cap).items =~= vs);
    }
}

// ------------------------------------------------------------------ ordering

/// `v` put into `s` behind every trailing element that is not greater.
pub open spec fn insert_ordered(s: Seq<u64>, v: u64) -> Seq<u64>
    decreases s.len(),
{
    if s.len() == 0 || s.last() <= v {
        s.push(v)
    } else {
        insert_ordered(s.drop_last(), v).push(s.last())
    }
}

/// The elements of `s` from the smallest to the largest.
pub open spec fn ordered(s: Seq<u64>) -> Seq<u64>
    decreases s.len(),
{
    if s.len() == 0 {
        s
    } else {
        insert_ordered(ordered(s.drop_last()), s.last())
    }
}

proof fn lemma_insert_ordered(s: Seq<u64>, v: u64)
    requires
        forall|i: int, j: int| 0 <= i <= j < s.len() ==> s[i] <= s[j],
    ensures
        insert_ordered(s, v).to_multiset() == s.to_multiset().insert(v),
        insert_ordered(s, v).len() == s.len() + 1,
        forall|i: int, j: int|
            0 <= i <= j < insert_ordered(s, v).len() ==> insert_ordered(s, v)[i]
                <= insert_ordered(s, v)[j],
    decreases s.len(),
{
    broadcast use vstd::seq_lib::group_to_multiset_ensures;

    s.to_multiset_ensures();
    if s.len() == 0 || s.last() <= v {
    } else {
        let d = s.drop_last();
        lemma_insert_ordered(d, v);
        let t = insert_ordered(d, v);
        t.to_multiset_ensures();
        d.to_multiset_ensures();
        assert(s =~= d.push(s.last()));
        assert(t.push(s.last()).to_multiset() =~= s.to_multiset().insert(v));
        assert forall|i: int| 0 <= i < t.len() implies t[i] <= s.last() by {
            assert(t.to_multiset().count(t[i]) > 0);
            assert(d.to_multiset().insert(v).count(t[i]) > 0);
            if t[i] != v {
                assert(d.to_multiset().count(t[i]) > 0);
                assert(d.contains(t[i]));
            }
        }
    }
}

/// Ordering rearranges: nothing is lost, nothing added, and no element stands
/// before a smaller one.
pub proof fn law_ordered(s: Seq<u64>)
    ensures
        ordered(s).to_multiset() == s.to_multiset(),
        ordered(s).len() == s.len(),
        forall|i: int, j: int| 0 <= i <= j < s.len() ==> ordered(s)[i] <= ordered(s)[j],
    decreases s.len(),
{
    broadcast use vstd::seq_lib::group_to_multiset_ensures;

    if s.len() > 0 {
        law_ordered(s.drop_last());
        lemma_insert_ordered(ordered(s.drop_last()), s.last());
        s.drop_last().to_multiset_ensures();
        assert(s =~= s.drop_last().push(s.last()));
    }
}

proof fn lemma_insert_position(s: Seq<u64>, v: u64, pos: int)
    requires
        0 <= pos <= s.len(),
        forall|i: int| pos <= i < s.len() ==> s[i] > v,
        pos == 0 || s[pos - 1] <= v,
    ensures
        insert_ordered(s, v) == s.insert(pos, v),
    decreases s.len(),
{
    if pos == s.len() {
        assert(s.insert(pos, v) =~= s.push(v));
    } else {
        lemma_insert_position(s.drop_last(), v, pos);
        assert(s.drop_last().insert(pos, v).push(s.last()) =~= s.insert(pos, v));
    }
}

/// A sorted copy of `s`.
pub fn sorted(s: &Vec<u64>) -> (r: Vec<u64>)
    ensures
        r@ == ordered(s@),
        r.len() == s.len(),
{
    let mut r: Vec<u64> = Vec::new();
    let mut i: usize = 0;
    proof {
        assert(r@ =~= ordered(s@.take(0)));
    }
    while i < s.len()
        invariant
            i <= s.len(),
            r.len() == i,
            r@ == ordered(s@.take(i as int)),
        decreases s.len() - i,
    {
        let v: u64 = s[i];
        let mut pos: usize = r.len();
        while pos > 0 && r[pos - 1] > v
            invariant
                pos <= r.len(),
                forall|k: int| pos <= k < r.len() ==> r@[k] > v,
            decreases pos,
        {
            pos = pos - 1;
        }
        proof {
            lemma_insert_position(r@, v, pos as int);
            assert(s@.take(i + 1).drop_last() =~= s@.take(i as int));
        }
        r.insert(pos, v);
        i = i + 1;
    }
    proof {
        assert(s@.take(i as int) =~= s@);
    }
    r
}

/// The value at `p` percent of the ordered sample; nothing of an empty one.
pub open spec fn percentile_of(s: Seq<u64>, p: nat) -> Option<u64> {
    if s.len() == 0 {
        None
    } else {
        let at = p * s.len() / 100;
        Some(ordered(s)[if at < s.len() { at as int } else { s.len() - 1 }])
    }
}

pub fn percentile(s: &Vec<u64>, p: u64) -> (r: Option<u64>)
    requires
        p <= 100,
    ensures
        r == percentile_of(s@, p as nat),
{
    if s.len() == 0 {
        return None;
    }
    let v = sorted(s);
    let n: usize = v.len();
    proof {
        assert(p * n <= 100 * n) by (nonlinear_arith)
            requires
                p <= 100,
        ;
    }
    let at: u128 = (p as u128) * (n as u128) / 100;
    if at < n as u128 {
        Some(v[at as usize])
    } else {
        Some(v[n - 1])
    }
}

/// The middle of the ordered sample, the upper one of two.
pub open spec fn median_of(s: Seq<u64>) -> Option<u64> {
    if s.len() == 0 {
        None
    } else {
        Some(ordered(s)[(s.len() / 2) as int])
    }
}

pub fn median(s: &Vec<u64>) -> (r: Option<u64>)
    ensures
        r == median_of(s@),
{
    if s.len() == 0 {
        return None;
    }
    let v = sorted(s);
    Some(v[v.len() / 2])
}

/// The median is one of the values, and it does not depend on their order.
pub proof fn law_median(a: Seq<u64>, b: Seq<u64>)
    requires
        a.len() > 0,
        a.to_multiset() == b.to_multiset(),
    ensures
        median_of(a) is Some,
        a.contains(median_of(a)->0),
        median_of(a) == median_of(b),
{
    broadcast use vstd::seq_lib::group_to_multiset_ensures;

    a.to_multiset_ensures();
    b.to_multiset_ensures();
    law_ordered(a);
    law_ordered(b);
    let leq = |x: u64, y: u64| x <= y;
    vstd::seq_lib::lemma_sorted_unique(ordered(a), ordered(b), leq);
    ordered(a).to_multiset_ensures();
    let m = ordered(a)[(a.len() / 2) as int];
    assert(ordered(a).contains(m));
    assert(ordered(a).to_multiset().count(m) > 0);
    assert(a.to_multiset().count(m) > 0);
}

/// The values that are present, in order.
pub open spec fn present(s: Seq<Option<u64>>) -> Seq<u64>
    decreases s.len(),
{
    if s.len() == 0 {
        Seq::empty()
    } else {
        match s.last() {
            Some(v) => present(s.drop_last()).push(v),
            None => present(s.drop_last()),
        }
    }
}

pub fn present_values(s: &Vec<Option<u64>>) -> (r: Vec<u64>)
    ensures
        r@ == present(s@),
        r.len() <= s.len(),
{
    let mut r: Vec<u64> = Vec::new();
    let mut i: usize = 0;
    proof {
        assert(r@ =~= present(s@.take(0)));
    }
    while i < s.len()
        invariant
            i <= s.len(),
            r.len() <= i,
            r@ == present(s@.take(i as int)),
        decreases s.len() - i,
    {
        proof {
            assert(s@.take(i + 1).drop_last() =~= s@.take(i as int));
        }
        if let Some(v) = s[i] {
            r.push(v);
        }
        i = i + 1;
    }
    proof {
        assert(s@.take(i as int) =~= s@);
    }
    r
}

/// The latest `n` elements, or all of them.
pub open spec fn latest<T>(s: Seq<T>, n: nat) -> Seq<T> {
    if n < s.len() {
        s.skip(s.len() - n)
    } else {
        s
    }
}

pub fn latest_of(s: &Vec<Option<u64>>, n: usize) -> (r: Vec<Option<u64>>)
    ensures
        r@ == latest(s@, n as nat),
{
    let start: usize = if n < s.len() {
        s.len() - n
    } else {
        0
    };
    let mut r: Vec<Option<u64>> = Vec::new();
    let mut i: usize = start;
    while i < s.len()
        invariant
            start <= i <= s.len(),
            r@ == s@.subrange(start as int, i as int),
        decreases s.len() - i,
    {
        r.push(s[i]);
        i = i + 1;
        proof {
            assert(r@ =~= s@.subrange(start as int, i as int));
        }
    }
    proof {
        assert(r@ =~= latest(s@, n as nat));
    }
    r
}

/// The sum of the values.
pub open spec fn total(s: Seq<u64>) -> nat
    decreases s.len(),
{
    if s.len() == 0 {
        0
    } else {
        total(s.drop_last()) + s.last() as nat
    }
}

pub fn sum(s: &Vec<u64>) -> (r: u128)
    ensures
        r == total(s@),
        r <= s.len() * u64::MAX,
{
    let mut r: u128 = 0;
    let mut i: usize = 0;
    while i < s.len()
        invariant
            i <= s.len(),
            r == total(s@.take(i as int)),
            r <= i * u64::MAX,
        decreases s.len() - i,
    {
        proof {
            assert(s@.take(i + 1).drop_last() =~= s@.take(i as int));
            assert(i * u64::MAX <= usize::MAX * u64::MAX) by (nonlinear_arith)
                requires
                    i <= usize::MAX,
            ;
            assert((i + 1) * u64::MAX == i * u64::MAX + u64::MAX) by (nonlinear_arith);
        }
        r = r + s[i] as u128;
        i = i + 1;
    }
    proof {
        assert(s@.take(i as int) =~= s@);
    }
    r
}

// ------------------------------------------------------------------ baseline

/// What a healthy target measures: the latest latencies and jitters.
#[derive(Clone)]
pub struct Baseline {
    pub latencies: VecDeque<u64>,
    pub jitters: VecDeque<u64>,
}

/// What a [`Baseline`] holds.
#[verifier::ext_equal]
pub struct BaselineV {
    pub latencies: Seq<u64>,
    pub jitters: Seq<u64>,
}

impl BaselineV {
    pub open spec fn empty() -> BaselineV {
        BaselineV { latencies: Seq::empty(), jitters: Seq::empty() }
    }

    pub open spec fn with_latency(self, v: u64) -> BaselineV {
        BaselineV { latencies: push_capped(self.latencies, BASELINE_CAP as nat, v), ..self }
    }

    pub open spec fn with_jitter(self, v: u64) -> BaselineV {
        BaselineV { jitters: push_capped(self.jitters, BASELINE_CAP as nat, v), ..self }
    }
}

impl View for Baseline {
    type V = BaselineV;

    open spec fn view(&self) -> BaselineV {
        BaselineV { latencies: self.latencies@, jitters: self.jitters@ }
    }
}

fn deque_values(d: &VecDeque<u64>) -> (v: Vec<u64>)
    ensures
        v@ == d@,
{
    let mut v: Vec<u64> = Vec::new();
    let mut i: usize = 0;
    while i < d.len()
        invariant
            i <= d.len(),
            v@ == d@.take(i as int),
        decreases d.len() - i,
    {
        v.push(d[i]);
        i = i + 1;
        proof {
            assert(v@ =~= d@.take(i as int));
        }
    }
    proof {
        assert(v@ =~= d@);
    }
    v
}

impl Baseline {
    pub fn new() -> (b: Self)
        ensures
            b@ == BaselineV::empty(),
    {
        let b = Baseline {
            latencies: VecDeque::with_capacity(BASELINE_CAP),
            jitters: VecDeque::with_capacity(BASELINE_CAP),
        };
        proof {
            assert(b@ =~= BaselineV::empty());
        }
        b
    }

    pub fn push_latency(&mut self, v: u64)
        ensures
            final(self)@ == old(self)@.with_latency(v),
    {
        if self.latencies.len() == BASELINE_CAP {
            self.latencies.pop_front();
        }
        self.latencies.push_back(v);
        proof {
            assert(self@ =~= old(self)@.with_latency(v));
        }
    }

    pub fn push_jitter(&mut self, v: u64)
        ensures
            final(self)@ == old(self)@.with_jitter(v),
    {
        if self.jitters.len() == BASELINE_CAP {
            self.jitters.pop_front();
        }
        self.jitters.push_back(v);
        proof {
            assert(self@ =~= old(self)@.with_jitter(v));
        }
    }

    pub fn latency_len(&self) -> (n: usize)
        ensures
            n == self@.latencies.len(),
    {
        self.latencies.len()
    }

    pub fn jitter_len(&self) -> (n: usize)
        ensures
            n == self@.jitters.len(),
    {
        self.jitters.len()
    }

    pub fn lat_p90(&self) -> (r: Option<u64>)
        ensures
            r == percentile_of(self@.latencies, 90),
    {
        percentile(&deque_values(&self.latencies), 90)
    }

    pub fn jit_p90(&self) -> (r: Option<u64>)
        ensures
            r == percentile_of(self@.jitters, 90),
    {
        percentile(&deque_values(&self.jitters), 90)
    }
}

// ---------------------------------------------------------------- statistics

/// Count, sum and extremes of a stream of values.
#[derive(Clone, Copy, PartialEq, Eq, Structural, Debug)]
pub struct LatStat {
    pub count: u64,
    pub sum: u128,
    pub min: u64,
    pub max: u64,
    pub last: Option<u64>,
}

pub open spec fn stat_zero() -> LatStat {
    LatStat { count: 0, sum: 0, min: 0, max: 0, last: None }
}

impl LatStat {
    /// The sum lies between `count` times the least and the greatest value.
    pub open spec fn wf(self) -> bool {
        &&& self.min <= self.max
        &&& self.count * self.min <= self.sum <= self.count * self.max
    }

    /// The statistics with one more value.
    pub open spec fn added(self, v: u64) -> LatStat {
        LatStat {
            count: (self.count + 1) as u64,
            sum: (self.sum + v) as u128,
            min: if self.count == 0 || v < self.min {
                v
            } else {
                self.min
            },
            max: if self.count == 0 || v > self.max {
                v
            } else {
                self.max
            },
            last: Some(v),
        }
    }

    /// The mean.
    pub open spec fn mean(self) -> Option<Ratio> {
        if self.count == 0 {
            None
        } else {
            Some(Ratio { num: self.sum, den: self.count as u128 })
        }
    }

    pub fn add(&mut self, v: u64)
        requires
            old(self).wf(),
            old(self).count < u64::MAX,
        ensures
            final(self).wf(),
            *final(self) == old(self).added(v),
    {
        proof {
            lemma_stat_bound(*self);
            lemma_stat_added(*self, v);
        }
        self.count = self.count + 1;
        self.sum = self.sum + v as u128;
        self.last = Some(v);
        if self.count == 1 {
            self.min = v;
            self.max = v;
        } else {
            if v < self.min {
                self.min = v;
            }
            if v > self.max {
                self.max = v;
            }
        }
    }

    pub fn avg(&self) -> (r: Option<Ratio>)
        ensures
            r == self.mean(),
    {
        if self.count == 0 {
            None
        } else {
            Some(Ratio { num: self.sum, den: self.count as u128 })
        }
    }
}

impl Default for LatStat {
    fn default() -> (r: Self)
        ensures
            r == stat_zero(),
    {
        LatStat { count: 0, sum: 0, min: 0, max: 0, last: None }
    }
}

pub proof fn lemma_stat_bound(s: LatStat)
    requires
        s.wf(),
    ensures
        s.sum <= u64::MAX * u64::MAX,
        s.sum + u64::MAX <= u128::MAX,
{
    assert(s.count * s.max <= u64::MAX * u64::MAX) by (nonlinear_arith)
        requires
            s.count <= u64::MAX,
            s.max <= u64::MAX,
    ;
}

proof fn lemma_stat_added(s: LatStat, v: u64)
    requires
        s.wf(),
        s.count < u64::MAX,
    ensures
        s.added(v).wf(),
{
    lemma_stat_bound(s);
    let n = s.added(v);
    if s.count == 0 {
        assert(s.sum == 0) by (nonlinear_arith)
            requires
                s.sum <= s.count * s.max,
                s.count == 0,
        ;
        assert(n.count * n.min == v && n.count * n.max == v) by (nonlinear_arith)
            requires
                n.count == 1,
                n.min == v,
                n.max == v,
        ;
    } else {
        assert(n.count * n.min <= n.sum && n.sum <= n.count * n.max) by (nonlinear_arith)
            requires
                n.count == s.count + 1,
                n.sum == s.sum + v,
                n.min <= s.min,
                n.min <= v,
                n.max >= s.max,
                n.max >= v,
                s.count * s.min <= s.sum <= s.count * s.max,
        ;
    }
}

/// The mean lies between the extremes.
pub proof fn law_mean_between_extremes(s: LatStat)
    requires
        s.wf(),
        s.count > 0,
    ensures
        s.mean() matches Some(m) && m.den > 0 && s.min * m.den <= m.num <= s.max * m.den,
{
    assert(s.count * s.min == s.min * s.count && s.count * s.max == s.max * s.count)
        by (nonlinear_arith);
}

/// `num / den`, exactly.
#[derive(Clone, Copy, PartialEq, Eq, Structural, Debug)]
pub struct Ratio {
    pub num: u128,
    pub den: u128,
}

/// A ratio that can be a time: something is divided by a count.
pub open spec fn is_mean(r: Ratio) -> bool {
    0 < r.den <= u64::MAX
}

/// A time in nanoseconds as milliseconds with `places` places.
pub open spec fn ratio_ms_text(r: Ratio, places: nat) -> Seq<char> {
    fixed_text(r.num as nat, (r.den * 1_000_000) as nat, places)
}

pub fn ratio_ms(r: Ratio, places: usize) -> (s: String)
    requires
        is_mean(r),
        places <= 4,
    ensures
        s@ == ratio_ms_text(r, places as nat),
{
    fixed(r.num, r.den * 1_000_000, places)
}

/// What happened in one slice of time.
#[derive(Clone)]
pub struct HistBucket {
    pub peak_rtt: Option<u64>,
    pub peak_primary: Option<String>,
    pub count: u32,
    pub loss: u32,
}

/// What a [`HistBucket`] holds.
#[verifier::ext_equal]
pub struct HistV {
    pub peak_rtt: Option<u64>,
    pub peak_primary: Option<Seq<char>>,
    pub count: u32,
    pub loss: u32,
}

/// The text of an optional string.
pub open spec fn opt_text(s: Option<String>) -> Option<Seq<char>> {
    match s {
        Some(t) => Some(t@),
        None => None,
    }
}

impl HistV {
    pub open spec fn empty() -> HistV {
        HistV { peak_rtt: None, peak_primary: None, count: 0, loss: 0 }
    }

    /// The slice with one more probe of the target `label`: a loss is counted, a
    /// round trip longer than all before becomes the peak.
    pub open spec fn pushed(self, rtt: Option<u64>, label: Seq<char>) -> HistV {
        let counted = HistV { count: (self.count + 1) as u32, ..self };
        match rtt {
            None => HistV { loss: (self.loss + 1) as u32, ..counted },
            Some(v) => if self.peak_rtt is None || v > self.peak_rtt->0 {
                HistV { peak_rtt: Some(v), peak_primary: Some(label), ..counted }
            } else {
                counted
            },
        }
    }
}

impl View for HistBucket {
    type V = HistV;

    open spec fn view(&self) -> HistV {
        HistV {
            peak_rtt: self.peak_rtt,
            peak_primary: opt_text(self.peak_primary),
            count: self.count,
            loss: self.loss,
        }
    }
}

impl Default for HistBucket {
    fn default() -> (b: Self)
        ensures
            b@ == HistV::empty(),
    {
        HistBucket { peak_rtt: None, peak_primary: None, count: 0, loss: 0 }
    }
}

impl HistBucket {
    pub fn push(&mut self, rtt: Option<u64>, label: &str)
        requires
            old(self).count < u32::MAX,
            old(self).loss < u32::MAX,
        ensures
            final(self)@ == old(self)@.pushed(rtt, label@),
    {
        self.count = self.count + 1;
        match rtt {
            Some(v) => {
                let new_peak = match self.peak_rtt {
                    Some(p) => v > p,
                    None => true,
                };
                if new_peak {
                    self.peak_rtt = Some(v);
                    self.peak_primary = Some(String::from_str(label));
                }
            },
            None => {
                self.loss = self.loss + 1;
            },
        }
    }
}

// -------------------------------------------------------------------- spikes

/// `e` put into `s` behind every trailing element whose value is not smaller.
pub open spec fn insert_spike(s: Seq<(u64, u64)>, e: (u64, u64)) -> Seq<(u64, u64)>
    decreases s.len(),
{
    if s.len() == 0 || s.last().0 >= e.0 {
        s.push(e)
    } else {
        insert_spike(s.drop_last(), e).push(s.last())
    }
}

/// The elements of `s` from the largest value to the smallest; equal values keep
/// their order.
pub open spec fn ranked(s: Seq<(u64, u64)>) -> Seq<(u64, u64)>
    decreases s.len(),
{
    if s.len() == 0 {
        s
    } else {
        insert_spike(ranked(s.drop_last()), s.last())
    }
}

/// The `cap` largest of the spikes in `s` and the new one.
pub open spec fn top_spikes(s: Seq<(u64, u64)>, value: u64, unix_ms: u64, cap: nat) -> Seq<
    (u64, u64),
> {
    let all = ranked(s.push((value, unix_ms)));
    if all.len() <= cap {
        all
    } else {
        all.take(cap as int)
    }
}

proof fn lemma_spike_position(s: Seq<(u64, u64)>, e: (u64, u64), pos: int)
    requires
        0 <= pos <= s.len(),
        forall|i: int| pos <= i < s.len() ==> (#[trigger] s[i]).0 < e.0,
        pos == 0 || s[pos - 1].0 >= e.0,
    ensures
        insert_spike(s, e) == s.insert(pos, e),
    decreases s.len(),
{
    if pos == s.len() {
        assert(s.insert(pos, e) =~= s.push(e));
    } else {
        assert(s[s.len() - 1].0 < e.0);
        assert forall|i: int| pos <= i < s.drop_last().len() implies (
        #[trigger] s.drop_last()[i]).0 < e.0 by {
            assert(s[i].0 < e.0);
        }
        lemma_spike_position(s.drop_last(), e, pos);
        assert(s.drop_last().insert(pos, e).push(s.last()) =~= s.insert(pos, e));
    }
}

proof fn lemma_insert_spike(s: Seq<(u64, u64)>, e: (u64, u64))
    requires
        forall|i: int, j: int| 0 <= i <= j < s.len() ==> s[i].0 >= s[j].0,
    ensures
        insert_spike(s, e).to_multiset() == s.to_multiset().insert(e),
        insert_spike(s, e).len() == s.len() + 1,
        forall|i: int, j: int|
            0 <= i <= j < insert_spike(s, e).len() ==> insert_spike(s, e)[i].0 >= insert_spike(
                s,
                e,
            )[j].0,
    decreases s.len(),
{
    broadcast use vstd::seq_lib::group_to_multiset_ensures;

    s.to_multiset_ensures();
    if s.len() == 0 || s.last().0 >= e.0 {
    } else {
        let d = s.drop_last();
        lemma_insert_spike(d, e);
        let t = insert_spike(d, e);
        t.to_multiset_ensures();
        d.to_multiset_ensures();
        assert(s =~= d.push(s.last()));
        assert(t.push(s.last()).to_multiset() =~= s.to_multiset().insert(e));
        assert forall|i: int| 0 <= i < t.len() implies (#[trigger] t[i]).0 >= s.last().0 by {
            assert(t.to_multiset().count(t[i]) > 0);
            assert(d.to_multiset().insert(e).count(t[i]) > 0);
            if t[i] != e {
                assert(d.to_multiset().count(t[i]) > 0);
                assert(d.contains(t[i]));
            }
        }
    }
}

/// Ranking rearranges: nothing is lost, nothing added, and no spike stands
/// before a larger one.
pub proof fn law_ranked(s: Seq<(u64, u64)>)
    ensures
        ranked(s).to_multiset() == s.to_multiset(),
        ranked(s).len() == s.len(),
        forall|i: int, j: int| 0 <= i <= j < s.len() ==> ranked(s)[i].0 >= ranked(s)[j].0,
    decreases s.len(),
{
    broadcast use vstd::seq_lib::group_to_multiset_ensures;

    if s.len() > 0 {
        law_ranked(s.drop_last());
        lemma_insert_spike(ranked(s.drop_last()), s.last());
        s.drop_last().to_multiset_ensures();
        assert(s =~= s.drop_last().push(s.last()));
    }
}

/// The list of spikes is never longer than its cap, runs from the largest value
/// down, and drops nothing that is larger than what it keeps.
pub proof fn law_top_spikes(s: Seq<(u64, u64)>, value: u64, unix_ms: u64, cap: nat)
    ensures
        top_spikes(s, value, unix_ms, cap).len() <= cap,
        forall|i: int, j: int|
            0 <= i <= j < top_spikes(s, value, unix_ms, cap).len() ==> top_spikes(
                s,
                value,
                unix_ms,
                cap,
            )[i].0 >= top_spikes(s, value, unix_ms, cap)[j].0,
        forall|i: int, j: int|
            0 <= i < cap <= j < s.len() + 1 ==> ranked(s.push((value, unix_ms)))[i].0 >= ranked(
                s.push((value, unix_ms)),
            )[j].0,
{
    law_ranked(s.push((value, unix_ms)));
}

/// The spikes that are kept of `values`, entered one after the other.
pub open spec fn spikes_of(values: Seq<(u64, u64)>, cap: nat) -> Seq<(u64, u64)>
    decreases values.len(),
{
    if values.len() == 0 {
        Seq::empty()
    } else {
        top_spikes(
            spikes_of(values.drop_last(), cap),
            values.last().0,
            values.last().1,
            cap,
        )
    }
}

proof fn lemma_spike_is_kept_or_small(
    l: Seq<(u64, u64)>,
    e: (u64, u64),
    cap: nat,
    v: (u64, u64),
)
    requires
        l.len() <= cap,
    ensures
        top_spikes(l, e.0, e.1, cap).len() == (if l.len() < cap {
            l.len() + 1
        } else {
            cap
        }),
        top_spikes(l, e.0, e.1, cap).contains(v) ==> l.contains(v) || v == e,
        l.contains(v) || v == e ==> top_spikes(l, e.0, e.1, cap).contains(v) || (l.len() == cap
            && forall|i: int|
            0 <= i < cap ==> (#[trigger] top_spikes(l, e.0, e.1, cap)[i]).0 >= v.0),
{
    broadcast use vstd::seq_lib::group_to_multiset_ensures;

    let s = l.push(e);
    let all = ranked(s);
    let r = top_spikes(l, e.0, e.1, cap);
    law_ranked(s);
    all.to_multiset_ensures();
    s.to_multiset_ensures();
    assert(all.contains(v) <==> all.to_multiset().count(v) > 0);
    assert(s.contains(v) <==> s.to_multiset().count(v) > 0);
    assert(s.contains(v) <==> l.contains(v) || v == e) by {
        assert(s[l.len() as int] == e);
        if l.contains(v) {
            let j = choose|j: int| 0 <= j < l.len() && l[j] == v;
            assert(s[j] == v);
        }
        if s.contains(v) {
            let j = choose|j: int| 0 <= j < s.len() && s[j] == v;
            if j < l.len() {
                assert(l[j] == v);
            }
        }
    }
    if r.contains(v) {
        let j = choose|j: int| 0 <= j < r.len() && r[j] == v;
        assert(all[j] == v);
    }
    if all.contains(v) {
        let j = choose|j: int| 0 <= j < all.len() && all[j] == v;
        if j < r.len() {
            assert(r[j] == v);
        }
    }
}

proof fn lemma_spikes_stay_large(l: Seq<(u64, u64)>, e: (u64, u64), cap: nat, v: u64)
    requires
        l.len() == cap,
        forall|i: int| 0 <= i < l.len() ==> (#[trigger] l[i]).0 >= v,
    ensures
        forall|i: int|
            0 <= i < cap ==> (#[trigger] top_spikes(l, e.0, e.1, cap)[i]).0 >= v,
{
    broadcast use vstd::seq_lib::group_to_multiset_ensures;

    let s = l.push(e);
    let all = ranked(s);
    let r = top_spikes(l, e.0, e.1, cap);
    let x = all[cap as int];
    law_ranked(s);
    l.to_multiset_ensures();
    r.to_multiset_ensures();
    assert(all =~= r.push(x));
    assert(r.to_multiset().insert(x) == l.to_multiset().insert(e));
    assert forall|i: int| 0 <= i < cap implies (#[trigger] r[i]).0 >= v by {
        assert(r.to_multiset().count(r[i]) > 0);
        if x == e {
            assert(r.to_multiset() =~= r.to_multiset().insert(x).remove(x));
            assert(l.to_multiset() =~= l.to_multiset().insert(e).remove(e));
            assert(l.to_multiset().count(r[i]) > 0);
            assert(l.contains(r[i]));
        } else {
            assert(l.to_multiset().insert(e).count(x) > 0);
            assert(l.to_multiset().count(x) > 0);
            assert(l.contains(x));
            assert(all[i].0 >= all[cap as int].0);
        }
    }
}

/// The list of spikes holds the largest of all values that were ever entered: what
/// it does not hold is no larger than anything that it holds.
pub proof fn law_spikes_are_the_largest(values: Seq<(u64, u64)>, cap: nat, k: int)
    requires
        0 <= k < values.len(),
    ensures
        spikes_of(values, cap).len() == (if values.len() < cap {
            values.len()
        } else {
            cap
        }),
        spikes_of(values, cap).contains(values[k]) || (spikes_of(values, cap).len() == cap
            && forall|i: int|
            0 <= i < cap ==> (#[trigger] spikes_of(values, cap)[i]).0 >= values[k].0),
    decreases values.len(),
{
    let d = values.drop_last();
    let e = values.last();
    let l = spikes_of(d, cap);
    if d.len() > 0 {
        law_spikes_are_the_largest(d, cap, if k < d.len() {
            k
        } else {
            0
        });
    }
    lemma_spike_is_kept_or_small(l, e, cap, values[k]);
    if k < d.len() && !l.contains(d[k]) {
        lemma_spikes_stay_large(l, e, cap, d[k].0);
    }
}

/// Enters a spike and keeps the `cap` largest, largest first.
pub fn push_spike(list: &mut Vec<(u64, u64)>, value: u64, unix_ms: u64, cap: usize)
    ensures
        final(list)@ == top_spikes(old(list)@, value, unix_ms, cap as nat),
{
    list.push((value, unix_ms));
    let ghost all = list@;
    let mut r: Vec<(u64, u64)> = Vec::new();
    let mut i: usize = 0;
    proof {
        assert(r@ =~= ranked(all.take(0)));
    }
    while i < list.len()
        invariant
            i <= list.len(),
            all == list@,
            r@ == ranked(all.take(i as int)),
        decreases list.len() - i,
    {
        let e: (u64, u64) = list[i];
        let mut pos: usize = r.len();
        while pos > 0 && r[pos - 1].0 < e.0
            invariant
                pos <= r.len(),
                forall|k: int| pos <= k < r.len() ==> (#[trigger] r@[k]).0 < e.0,
            decreases pos,
        {
            pos = pos - 1;
        }
        proof {
            lemma_spike_position(r@, e, pos as int);
            assert(all.take(i + 1).drop_last() =~= all.take(i as int));
        }
        r.insert(pos, e);
        i = i + 1;
    }
    proof {
        assert(all.take(i as int) =~= all);
    }
    r.truncate(cap);
    *list = r;
}

// ---------------------------------------------------------------------- laws

/// How many of the values are below `v`.
pub open spec fn below(s: Seq<u64>, v: int) -> nat
    decreases s.len(),
{
    if s.len() == 0 {
        0
    } else {
        below(s.drop_last(), v) + (if s.last() < v {
            1nat
        } else {
            0
        })
    }
}

proof fn lemma_below_insert(s: Seq<u64>, x: u64, v: int)
    ensures
        below(insert_ordered(s, x), v) == below(s, v) + (if x < v {
            1nat
        } else {
            0
        }),
    decreases s.len(),
{
    let t = insert_ordered(s, x);
    if s.len() == 0 || s.last() <= x {
        assert(t.drop_last() =~= s);
    } else {
        lemma_below_insert(s.drop_last(), x, v);
        assert(t.drop_last() =~= insert_ordered(s.drop_last(), x));
    }
}

proof fn lemma_below_ordered(s: Seq<u64>, v: int)
    ensures
        below(ordered(s), v) == below(s, v),
    decreases s.len(),
{
    if s.len() > 0 {
        lemma_below_ordered(s.drop_last(), v);
        lemma_below_insert(ordered(s.drop_last()), s.last(), v);
    }
}

proof fn lemma_below_bounds(t: Seq<u64>, k: int, v: int)
    requires
        0 <= k <= t.len(),
    ensures
        (forall|i: int| 0 <= i < k ==> #[trigger] t[i] < v) ==> below(t, v) >= k,
        (forall|i: int| k <= i < t.len() ==> #[trigger] t[i] >= v) ==> below(t, v) <= k,
        below(t, v) <= t.len(),
    decreases t.len(),
{
    if t.len() > 0 {
        let d = t.drop_last();
        assert forall|i: int| 0 <= i < d.len() implies #[trigger] d[i] == t[i] by {}
        if k == t.len() {
            lemma_below_bounds(d, k - 1, v);
            if forall|i: int| 0 <= i < k ==> #[trigger] t[i] < v {
                assert(t[k - 1] < v);
            }
        } else {
            lemma_below_bounds(d, k, v);
            if forall|i: int| k <= i < t.len() ==> #[trigger] t[i] >= v {
                assert(t[t.len() - 1] >= v);
            }
        }
    }
}

proof fn lemma_rank(s: Seq<u64>, k: int)
    requires
        0 <= k < s.len(),
    ensures
        below(s, ordered(s)[k] as int) <= k < below(s, ordered(s)[k] + 1),
{
    law_ordered(s);
    let t = ordered(s);
    let v = t[k];
    lemma_below_ordered(s, v as int);
    lemma_below_ordered(s, v + 1);
    lemma_below_bounds(t, k, v as int);
    lemma_below_bounds(t, k + 1, v + 1);
    assert forall|i: int| k <= i < t.len() implies #[trigger] t[i] >= v by {}
    assert forall|i: int| 0 <= i < k + 1 implies #[trigger] t[i] < v + 1 by {}
}

/// A percentile has its rank among the values: `p` percent of them (in whole values)
/// are at most those that are smaller, and fewer than those that are no larger. From
/// a hundred percent on it is the largest. Of nothing there is none.
pub proof fn law_percentile_has_its_rank(s: Seq<u64>, p: nat)
    ensures
        s.len() == 0 ==> percentile_of(s, p) is None,
        s.len() > 0 ==> (percentile_of(s, p) matches Some(v) && if p >= 100 {
            below(s, v + 1) == s.len() && below(s, v as int) < s.len()
        } else {
            below(s, v as int) <= p * s.len() / 100 < below(s, v + 1)
        }),
{
    if s.len() > 0 {
        let n = s.len() as int;
        let at = p * n / 100;
        if p >= 100 {
            assert(p * n >= 100 * n) by (nonlinear_arith)
                requires
                    p >= 100,
                    n > 0,
            ;
            lemma_rank(s, n - 1);
            lemma_below_bounds(s, n, percentile_of(s, p)->0 + 1);
        } else {
            assert(0 <= p * n < 100 * n) by (nonlinear_arith)
                requires
                    0 <= p < 100,
                    n > 0,
            ;
            lemma_rank(s, at);
        }
    }
}

/// The median stands in the middle: at most half of the values are smaller, and more
/// than half (in whole values) are no larger.
pub proof fn law_median_is_the_middle(s: Seq<u64>)
    ensures
        s.len() == 0 ==> median_of(s) is None,
        s.len() > 0 ==> (median_of(s) matches Some(m) && below(s, m as int) <= s.len() / 2
            < below(s, m + 1)),
{
    if s.len() > 0 {
        lemma_rank(s, s.len() as int / 2);
    }
}

/// Of two stretches, one behind the other, the values that are present are those of the
/// first and then those of the second. A value is present, a gap is not.
pub proof fn law_present_goes_in_order(a: Seq<Option<u64>>, b: Seq<Option<u64>>, v: u64)
    ensures
        present(a + b) == present(a) + present(b),
        present(seq![Some(v)]) == seq![v],
        present(seq![None]) == Seq::<u64>::empty(),
        present(Seq::empty()) == Seq::<u64>::empty(),
    decreases b.len(),
{
    assert(seq![Some(v)].drop_last() =~= Seq::empty());
    assert(present(seq![Some(v)]) =~= present(Seq::empty()).push(v));
    assert(seq![None::<u64>].drop_last() =~= Seq::empty());
    if b.len() == 0 {
        assert(a + b =~= a);
        assert(present(a) + present(b) =~= present(a));
    } else {
        law_present_goes_in_order(a, b.drop_last(), v);
        assert((a + b).drop_last() =~= a + b.drop_last());
        assert((a + b).last() == b.last());
        assert(present(a + b) =~= present(a) + present(b));
    }
}

/// The total of two stretches is the sum of their totals, that of one value the value.
pub proof fn law_total_adds_up(a: Seq<u64>, b: Seq<u64>, v: u64)
    ensures
        total(a + b) == total(a) + total(b),
        total(seq![v]) == v,
        total(Seq::empty()) == 0,
    decreases b.len(),
{
    assert(seq![v].drop_last() =~= Seq::empty());
    assert(total(seq![v]) == total(Seq::empty()) + v);
    if b.len() == 0 {
        assert(a + b =~= a);
    } else {
        law_total_adds_up(a, b.drop_last(), v);
        assert((a + b).drop_last() =~= a + b.drop_last());
        assert((a + b).last() == b.last());
    }
}

/// The latest values are the end of the list: `n` of them, or all where there are not
/// more.
pub proof fn law_latest_is_the_end<T>(s: Seq<T>, n: nat)
    ensures
        latest(s, n).len() == (if n < s.len() {
            n
        } else {
            s.len()
        }),
        forall|i: int|
            0 <= i < latest(s, n).len() ==> #[trigger] latest(s, n)[i] == s[s.len() - latest(
                s,
                n,
            ).len() + i],
{
}

/// One more value in a window: it stands last, and the others keep their order. Where
/// the window was full the oldest is gone, else none is.
pub proof fn law_window_slides<T>(r: RingV<T>, v: T)
    requires
        r.cap > 0,
        r.items.len() <= r.cap,
    ensures
        ({
            let next = r.pushed(v).items;
            let gone = if r.items.len() < r.cap {
                0int
            } else {
                1int
            };
            &&& r.pushed(v).cap == r.cap
            &&& next.len() == r.items.len() + 1 - gone
            &&& next[next.len() - 1] == v
            &&& forall|i: int| 0 <= i < next.len() - 1 ==> #[trigger] next[i] == r.items[i + gone]
        }),
{
}

/// The statistics of values that came in one after the other.
pub open spec fn stat_of(vs: Seq<u64>) -> LatStat
    decreases vs.len(),
{
    if vs.len() == 0 {
        stat_zero()
    } else {
        stat_of(vs.drop_last()).added(vs.last())
    }
}

/// The statistics are those of all values that ever came in: their number, their sum,
/// their least, their greatest and their last. Their mean is the sum over the number.
pub proof fn law_statistics_of_all_values(vs: Seq<u64>)
    requires
        vs.len() <= u64::MAX,
    ensures
        ({
            let s = stat_of(vs);
            &&& s.count == vs.len()
            &&& s.sum == total(vs)
            &&& forall|i: int| 0 <= i < vs.len() ==> s.min <= #[trigger] vs[i] <= s.max
            &&& vs.len() > 0 ==> vs.contains(s.min) && vs.contains(s.max)
            &&& vs.len() > 0 ==> s.last == Some(vs[vs.len() - 1])
            &&& vs.len() == 0 ==> s.last is None && s.mean() is None
            &&& vs.len() > 0 ==> (s.mean() matches Some(m) && m.den > 0 && m.num * vs.len()
                == total(vs) * m.den)
            &&& s.wf()
        }),
    decreases vs.len(),
{
    if vs.len() > 0 {
        let d = vs.drop_last();
        law_statistics_of_all_values(d);
        lemma_stat_bound(stat_of(d));
        lemma_stat_added(stat_of(d), vs.last());
        let s = stat_of(vs);
        assert forall|i: int| 0 <= i < vs.len() implies s.min <= #[trigger] vs[i] <= s.max by {
            if i < d.len() {
                assert(d[i] == vs[i]);
            }
        }
        if d.len() > 0 {
            let a = choose|i: int| 0 <= i < d.len() && d[i] == stat_of(d).min;
            let b = choose|i: int| 0 <= i < d.len() && d[i] == stat_of(d).max;
            assert(vs[a] == stat_of(d).min && vs[b] == stat_of(d).max);
        }
        assert(vs[vs.len() - 1] == vs.last());
    }
}

/// The slice of probes that came in one after the other, each with its target.
pub open spec fn slice_of(probes: Seq<(Option<u64>, Seq<char>)>) -> HistV
    decreases probes.len(),
{
    if probes.len() == 0 {
        HistV::empty()
    } else {
        slice_of(probes.drop_last()).pushed(probes.last().0, probes.last().1)
    }
}

/// How many of the probes were lost.
pub open spec fn unanswered(probes: Seq<(Option<u64>, Seq<char>)>) -> nat
    decreases probes.len(),
{
    if probes.len() == 0 {
        0
    } else {
        unanswered(probes.drop_last()) + (if probes.last().0 is None {
            1nat
        } else {
            0
        })
    }
}

/// A slice of the history counts all its probes and the lost ones among them, and keeps
/// the longest round trip with the target that had it first. Without an answer it has
/// no peak.
pub proof fn law_slice_keeps_the_peak(probes: Seq<(Option<u64>, Seq<char>)>)
    requires
        probes.len() <= u32::MAX,
    ensures
        ({
            let h = slice_of(probes);
            &&& h.count == probes.len()
            &&& h.loss == unanswered(probes) <= probes.len()
            &&& forall|i: int|
                0 <= i < probes.len() && (#[trigger] probes[i]).0 is Some ==> h.peak_rtt is Some
                    && probes[i].0->0 <= h.peak_rtt->0
            &&& h.peak_rtt is Some ==> exists|i: int|
                0 <= i < probes.len() && (#[trigger] probes[i]).0 == h.peak_rtt
                    && h.peak_primary == Some(probes[i].1) && forall|j: int|
                    0 <= j < i && (#[trigger] probes[j]).0 is Some ==> probes[j].0->0
                        < h.peak_rtt->0
            &&& h.peak_rtt is None ==> h.peak_primary is None
        }),
    decreases probes.len(),
{
    if probes.len() > 0 {
        let d = probes.drop_last();
        law_slice_keeps_the_peak(d);
        let h = slice_of(probes);
        let g = slice_of(d);
        let last = probes.len() - 1;
        assert forall|i: int|
            0 <= i < probes.len() && (#[trigger] probes[i]).0 is Some implies h.peak_rtt is Some
            && probes[i].0->0 <= h.peak_rtt->0 by {
            if i < d.len() {
                assert(d[i] == probes[i]);
            }
        }
        if h.peak_rtt is Some {
            if g.peak_rtt is Some && h.peak_rtt == g.peak_rtt && h.peak_primary == g.peak_primary {
                let i = choose|i: int|
                    0 <= i < d.len() && (#[trigger] d[i]).0 == g.peak_rtt && g.peak_primary == Some(
                        d[i].1,
                    ) && forall|j: int|
                        0 <= j < i && (#[trigger] d[j]).0 is Some ==> d[j].0->0 < g.peak_rtt->0;
                assert(probes[i] == d[i]);
                assert forall|j: int| 0 <= j < i && (#[trigger] probes[j]).0 is Some implies
                    probes[j].0->0 < h.peak_rtt->0 by {
                    assert(d[j] == probes[j]);
                }
            } else {
                assert(probes[last] == probes.last());
                assert forall|j: int| 0 <= j < last && (#[trigger] probes[j]).0 is Some implies
                    probes[j].0->0 < h.peak_rtt->0 by {
                    assert(d[j] == probes[j]);
                }
            }
        }
    }
}

proof fn lemma_ranked_is_kept(s: Seq<(u64, u64)>)
    requires
        forall|i: int, j: int| 0 <= i <= j < s.len() ==> s[i].0 >= s[j].0,
    ensures
        ranked(s) == s,
    decreases s.len(),
{
    if s.len() > 0 {
        let d = s.drop_last();
        lemma_ranked_is_kept(d);
        assert(d.len() > 0 ==> d.last() == s[s.len() - 2]);
        assert(ranked(s) =~= s);
    }
}

/// A spike takes its place among those that are remembered: behind every one that is
/// not smaller, before the smaller ones. What then stands beyond the cap is forgotten.
pub proof fn law_spike_takes_its_place(
    s: Seq<(u64, u64)>,
    value: u64,
    unix_ms: u64,
    cap: nat,
    place: int,
)
    requires
        0 <= place <= s.len() <= cap,
        forall|i: int, j: int| 0 <= i <= j < s.len() ==> s[i].0 >= s[j].0,
        forall|i: int| 0 <= i < place ==> (#[trigger] s[i]).0 >= value,
        forall|i: int| place <= i < s.len() ==> (#[trigger] s[i]).0 < value,
    ensures
        ({
            let t = top_spikes(s, value, unix_ms, cap);
            &&& t.len() == (if s.len() < cap {
                s.len() + 1
            } else {
                cap
            })
            &&& place < t.len() ==> t[place] == (value, unix_ms)
            &&& forall|i: int| 0 <= i < place && i < t.len() ==> #[trigger] t[i] == s[i]
            &&& forall|i: int| place < i < t.len() ==> #[trigger] t[i] == s[i - 1]
        }),
{
    let e = (value, unix_ms);
    lemma_ranked_is_kept(s);
    assert(s.push(e).drop_last() =~= s);
    assert(ranked(s.push(e)) == insert_spike(s, e));
    lemma_spike_position(s, e, place);
}

} // verus!
