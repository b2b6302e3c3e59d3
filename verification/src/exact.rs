//! Exact sums of fractions.
//!
//! The sum of many fractions has a denominator that no machine word holds. It is
//! kept in limbs of 64 bits, the least significant first, until its mean is rounded
//! to a double.
use vstd::prelude::*;
use crate::stats::Ratio;
use crate::text::{
    double, double_of, grown, is_sound_double, lemma_grown, Double, FINEST, SIGNIFICAND,
};

verus! {

/// The base of the limbs.
pub const LIMB: u128 = 0x1_0000_0000_0000_0000;

/// The weight of limb `n`.
pub open spec fn weight(n: nat) -> nat
    decreases n,
{
    if n == 0 {
        1
    } else {
        LIMB as nat * weight((n - 1) as nat)
    }
}

/// The number that limbs stand for.
pub open spec fn value(v: Seq<u64>) -> nat
    decreases v.len(),
{
    if v.len() == 0 {
        0
    } else {
        value(v.drop_last()) + v.last() as nat * weight((v.len() - 1) as nat)
    }
}

proof fn lemma_push(v: Seq<u64>, x: u64)
    ensures
        value(v.push(x)) == value(v) + x as nat * weight(v.len()),
{
    assert(v.push(x).drop_last() =~= v);
}

proof fn lemma_take(v: Seq<u64>, i: int)
    requires
        0 <= i < v.len(),
    ensures
        value(v.take(i + 1)) == value(v.take(i)) + v[i] as nat * weight(i as nat),
{
    assert(v.take(i + 1).drop_last() =~= v.take(i));
}

proof fn lemma_value_bound(v: Seq<u64>)
    ensures
        value(v) < weight(v.len()),
    decreases v.len(),
{
    if v.len() > 0 {
        lemma_value_bound(v.drop_last());
        let w = weight((v.len() - 1) as nat);
        let x = v.last() as nat;
        assert(x * w + w <= LIMB as nat * w) by (nonlinear_arith)
            requires
                x + 1 <= LIMB as nat,
        ;
    }
}

/// One limb of a product or a sum: `t` splits into what stays and what is carried.
proof fn lemma_carry(t: nat, low: nat, high: nat, n: nat)
    requires
        t == high * LIMB + low,
    ensures
        low * weight(n) + high * weight(n + 1) == t * weight(n),
{
    let w = weight(n);
    assert(weight(n + 1) == LIMB as nat * w);
    assert(low * w + high * (LIMB as nat * w) == t * w) by (nonlinear_arith)
        requires
            t == high * LIMB + low,
    ;
}

/// `v` times `c`, one limb longer.
fn scaled(v: &Vec<u64>, c: u64) -> (r: Vec<u64>)
    ensures
        value(r@) == value(v@) * c,
        r@.len() == v@.len() + 1,
{
    let mut r: Vec<u64> = Vec::new();
    let mut carry: u64 = 0;
    let mut i: usize = 0;
    proof {
        assert(v@.take(0) =~= Seq::empty());
        assert(value(v@.take(0)) * c == 0) by (nonlinear_arith)
            requires
                value(v@.take(0)) == 0,
        ;
    }
    while i < v.len()
        invariant
            i <= v.len(),
            r.len() == i,
            value(r@) + carry as nat * weight(i as nat) == value(v@.take(i as int)) * c,
        decreases v.len() - i,
    {
        proof {
            assert(v@[i as int] * c + carry <= (LIMB - 1) * (LIMB - 1) + (LIMB - 1))
                by (nonlinear_arith)
                requires
                    v@[i as int] <= LIMB - 1,
                    c <= LIMB - 1,
                    carry <= LIMB - 1,
            ;
        }
        let t: u128 = (v[i] as u128) * (c as u128) + carry as u128;
        let low: u64 = (t % LIMB) as u64;
        let high: u64 = (t / LIMB) as u64;
        proof {
            let w = weight(i as nat);
            let before = value(v@.take(i as int));
            lemma_push(r@, low);
            lemma_take(v@, i as int);
            lemma_carry(t as nat, low as nat, high as nat, i as nat);
            assert(t as nat * w == v@[i as int] as nat * w * c as nat + carry as nat * w)
                by (nonlinear_arith)
                requires
                    t as nat == v@[i as int] as nat * c as nat + carry as nat,
            ;
            assert((before + v@[i as int] as nat * w) * c == before * c + v@[i as int] as nat * w
                * c as nat) by (nonlinear_arith);
        }
        r.push(low);
        carry = high;
        i = i + 1;
    }
    proof {
        assert(v@.take(i as int) =~= v@);
        lemma_push(r@, carry);
    }
    r.push(carry);
    r
}

/// `a` plus `b`, one limb longer.
fn added(a: &Vec<u64>, b: &Vec<u64>) -> (r: Vec<u64>)
    requires
        a@.len() == b@.len(),
    ensures
        value(r@) == value(a@) + value(b@),
        r@.len() == a@.len() + 1,
{
    let mut r: Vec<u64> = Vec::new();
    let mut carry: u64 = 0;
    let mut i: usize = 0;
    while i < a.len()
        invariant
            i <= a.len(),
            a.len() == b.len(),
            r.len() == i,
            carry <= 1,
            value(r@) + carry as nat * weight(i as nat) == value(a@.take(i as int)) + value(
                b@.take(i as int),
            ),
        decreases a.len() - i,
    {
        let t: u128 = a[i] as u128 + b[i] as u128 + carry as u128;
        let low: u64 = (t % LIMB) as u64;
        let high: u64 = (t / LIMB) as u64;
        proof {
            let w = weight(i as nat);
            lemma_push(r@, low);
            lemma_take(a@, i as int);
            lemma_take(b@, i as int);
            lemma_carry(t as nat, low as nat, high as nat, i as nat);
            assert(t as nat * w == a@[i as int] as nat * w + b@[i as int] as nat * w + carry as nat
                * w) by (nonlinear_arith)
                requires
                    t as nat == a@[i as int] as nat + b@[i as int] as nat + carry as nat,
            ;
        }
        r.push(low);
        carry = high;
        i = i + 1;
    }
    proof {
        assert(a@.take(i as int) =~= a@);
        assert(b@.take(i as int) =~= b@);
        lemma_push(r@, carry);
    }
    r.push(carry);
    r
}

/// `a` minus `b`, where that is not negative.
fn less(a: &Vec<u64>, b: &Vec<u64>) -> (r: Option<Vec<u64>>)
    requires
        a.len() == b.len(),
    ensures
        match r {
            Some(d) => value(d@) + value(b@) == value(a@) && d.len() == a.len(),
            None => value(a@) < value(b@),
        },
{
    let mut r: Vec<u64> = Vec::new();
    let mut borrow: u64 = 0;
    let mut i: usize = 0;
    while i < a.len()
        invariant
            i <= a.len(),
            a.len() == b.len(),
            r.len() == i,
            borrow <= 1,
            value(r@) + value(b@.take(i as int)) == value(a@.take(i as int)) + borrow as nat
                * weight(i as nat),
        decreases a.len() - i,
    {
        let t: u128 = LIMB + a[i] as u128 - b[i] as u128 - borrow as u128;
        let low: u64 = (t % LIMB) as u64;
        let high: u64 = (t / LIMB) as u64;
        proof {
            let w = weight(i as nat);
            lemma_push(r@, low);
            lemma_take(a@, i as int);
            lemma_take(b@, i as int);
            lemma_carry(t as nat, low as nat, high as nat, i as nat);
            assert(weight((i + 1) as nat) == LIMB as nat * w);
            assert(t as nat * w + b@[i as int] as nat * w + borrow as nat * w == LIMB as nat * w
                + a@[i as int] as nat * w) by (nonlinear_arith)
                requires
                    t as nat + b@[i as int] as nat + borrow as nat == LIMB as nat
                        + a@[i as int] as nat,
            ;
            assert(high <= 1);
            assert((1 - high) as nat * weight((i + 1) as nat) + high as nat * weight(
                (i + 1) as nat,
            ) == weight((i + 1) as nat)) by (nonlinear_arith)
                requires
                    high <= 1,
            ;
        }
        r.push(low);
        borrow = 1 - high;
        i = i + 1;
    }
    proof {
        assert(a@.take(i as int) =~= a@);
        assert(b@.take(i as int) =~= b@);
        lemma_value_bound(r@);
        assert(0 * weight(i as nat) == 0 && 1 * weight(i as nat) == weight(i as nat));
    }
    if borrow == 0 {
        Some(r)
    } else {
        None
    }
}

fn is_zero(v: &Vec<u64>) -> (r: bool)
    ensures
        r == (value(v@) == 0),
{
    let mut i: usize = 0;
    while i < v.len()
        invariant
            i <= v.len(),
            value(v@.take(i as int)) == 0,
        decreases v.len() - i,
    {
        proof {
            lemma_take(v@, i as int);
        }
        if v[i] != 0 {
            proof {
                lemma_weight(i as nat);
                lemma_grows(v@, i + 1);
                assert(v@[i as int] as nat * weight(i as nat) > 0) by (nonlinear_arith)
                    requires
                        v@[i as int] > 0,
                        weight(i as nat) > 0,
                ;
            }
            return false;
        }
        i = i + 1;
    }
    proof {
        assert(v@.take(i as int) =~= v@);
    }
    true
}

proof fn lemma_weight(n: nat)
    ensures
        weight(n) > 0,
    decreases n,
{
    if n > 0 {
        lemma_weight((n - 1) as nat);
        assert(LIMB as nat * weight((n - 1) as nat) > 0) by (nonlinear_arith)
            requires
                weight((n - 1) as nat) > 0,
        ;
    }
}

proof fn lemma_grows(v: Seq<u64>, i: int)
    requires
        0 <= i <= v.len(),
    ensures
        value(v.take(i)) <= value(v),
    decreases v.len(),
{
    if i < v.len() {
        assert(v.drop_last().take(i) =~= v.take(i));
        lemma_grows(v.drop_last(), i);
    } else {
        assert(v.take(i) =~= v);
    }
}

// ----------------------------------------------------------------- fractions

/// The denominator of a sum: the product of all denominators.
pub open spec fn sum_den(s: Seq<Ratio>) -> nat
    decreases s.len(),
{
    if s.len() == 0 {
        1
    } else {
        sum_den(s.drop_last()) * s.last().den as nat
    }
}

/// The numerator of a sum.
pub open spec fn sum_num(s: Seq<Ratio>) -> nat
    decreases s.len(),
{
    if s.len() == 0 {
        0
    } else {
        sum_num(s.drop_last()) * s.last().den as nat + s.last().num as nat * sum_den(
            s.drop_last(),
        )
    }
}

/// A fraction of whole counts that stays in the range of the samples.
pub open spec fn in_range(r: Ratio) -> bool {
    0 < r.den <= u64::MAX && r.num <= r.den * u64::MAX
}

/// What the mean of fractions of nanoseconds has as its denominator in
/// milliseconds; that of none is zero.
pub open spec fn mean_den(s: Seq<Ratio>) -> nat {
    sum_den(s) * ((if s.len() == 0 {
        1
    } else {
        s.len()
    }) * 1_000_000)
}

/// The mean of fractions of nanoseconds, in milliseconds.
pub open spec fn mean_of(s: Seq<Ratio>) -> Double {
    double(sum_num(s), mean_den(s))
}

proof fn lemma_den_positive(s: Seq<Ratio>)
    requires
        forall|i: int| 0 <= i < s.len() ==> in_range(#[trigger] s[i]),
    ensures
        sum_den(s) > 0,
    decreases s.len(),
{
    if s.len() > 0 {
        assert(in_range(s[s.len() - 1]));
        lemma_den_positive(s.drop_last());
        assert(sum_den(s.drop_last()) * s.last().den as nat > 0) by (nonlinear_arith)
            requires
                sum_den(s.drop_last()) > 0,
                s.last().den > 0,
        ;
    }
}

proof fn lemma_sum_in_range(s: Seq<Ratio>)
    requires
        forall|i: int| 0 <= i < s.len() ==> in_range(#[trigger] s[i]),
    ensures
        sum_num(s) <= s.len() * u64::MAX * sum_den(s),
    decreases s.len(),
{
    if s.len() > 0 {
        let d = s.drop_last();
        let x = s.last();
        assert(in_range(s[s.len() - 1]));
        lemma_sum_in_range(d);
        let (n, m, c) = (sum_num(d), sum_den(d), x.den as nat);
        let top = u64::MAX as nat;
        let k = d.len();
        assert(n * c + x.num as nat * m <= (k + 1) * top * (m * c)) by (nonlinear_arith)
            requires
                n <= k * top * m,
                x.num as nat <= c * top,
        {
            assert(n * c <= k * top * m * c);
            assert(x.num as nat * m <= c * top * m);
            assert((k + 1) * top * (m * c) == k * top * m * c + c * top * m);
        }
    }
}

/// The mean of fractions in the range of the samples can be printed.
pub proof fn lemma_mean_is_sound(s: Seq<Ratio>)
    requires
        forall|i: int| 0 <= i < s.len() ==> in_range(#[trigger] s[i]),
    ensures
        is_sound_double(mean_of(s)),
{
    let p = sum_den(s);
    let all = mean_den(s);
    let n = s.len();
    lemma_den_positive(s);
    lemma_sum_in_range(s);
    let c = (if n == 0 {
        1
    } else {
        n
    }) * 1_000_000;
    assert(0 < all && n * u64::MAX * p < 2 * SIGNIFICAND * all) by (nonlinear_arith)
        requires
            all == p * c,
            c >= n * 1_000_000,
            c > 0,
            p > 0,
            n >= 0,
    ;
    lemma_grown(sum_num(s), all, 0);
}

/// A sum of fractions: its whole part, and the numerator and the denominator of the
/// rest in limbs.
struct Sum {
    whole: u128,
    num: Vec<u64>,
    den: Vec<u64>,
}

impl Sum {
    spec fn is_of(self, s: Seq<Ratio>) -> bool {
        &&& self.num@.len() == self.den@.len()
        &&& value(self.den@) == sum_den(s)
        &&& self.whole * value(self.den@) + value(self.num@) == sum_num(s)
        &&& value(self.num@) < value(self.den@)
    }
}

/// The sum of fractions.
fn sum_of(s: &Vec<Ratio>) -> (r: Sum)
    requires
        forall|i: int| 0 <= i < s@.len() ==> in_range(#[trigger] s@[i]),
    ensures
        r.is_of(s@),
{
    let mut whole: u128 = 0;
    let mut num: Vec<u64> = Vec::new();
    let mut den: Vec<u64> = Vec::new();
    num.push(0);
    den.push(1);
    proof {
        lemma_push(Seq::empty(), 0u64);
        lemma_push(Seq::empty(), 1u64);
        assert(num@ =~= Seq::empty().push(0u64));
        assert(den@ =~= Seq::empty().push(1u64));
        assert(s@.take(0) =~= Seq::empty());
        assert(0 * weight(0) == 0 && 1 * weight(0) == 1);
    }
    let mut i: usize = 0;
    while i < s.len()
        invariant
            i <= s.len(),
            forall|k: int| 0 <= k < s@.len() ==> in_range(#[trigger] s@[k]),
            den@.len() == num@.len(),
            whole <= i * LIMB,
            value(den@) == sum_den(s@.take(i as int)),
            whole * value(den@) + value(num@) == sum_num(s@.take(i as int)),
            value(num@) < value(den@),
        decreases s.len() - i,
    {
        let ghost before = s@.take(i as int);
        proof {
            assert(s@.take(i + 1).drop_last() =~= before);
            assert(in_range(s@[i as int]));
        }
        let c: u64 = s[i].den as u64;
        let q: u128 = s[i].num / s[i].den;
        let r: u64 = (s[i].num % s[i].den) as u64;
        proof {
            assert(q <= u64::MAX && s@[i as int].num == q * c + r && r < c) by (nonlinear_arith)
                requires
                    q == s@[i as int].num / s@[i as int].den,
                    r == s@[i as int].num % s@[i as int].den,
                    c == s@[i as int].den,
                    c > 0,
                    s@[i as int].num <= c * u64::MAX,
            ;
        }
        let top = added(&scaled(&num, c), &scaled(&den, r));
        let mut bottom = scaled(&den, c);
        let ghost p = value(den@);
        let ghost n = value(num@);
        proof {
            lemma_push(bottom@, 0u64);
            assert(0 * weight(bottom@.len()) == 0);
            assert(n * c + p * r < 2 * (p * c)) by (nonlinear_arith)
                requires
                    n < p,
                    r < c,
            ;
            assert(sum_num(s@.take(i + 1)) == (whole + q) * (p * c) + (n * c + p * r))
                by (nonlinear_arith)
                requires
                    sum_num(s@.take(i + 1)) == (whole * p + n) * c + (q * c + r) * p,
            ;
            assert((whole + q + 1) * (p * c) == (whole + q) * (p * c) + p * c)
                by (nonlinear_arith);
            assert((i + 1) * LIMB == i * LIMB + LIMB) by (nonlinear_arith);
            assert((i + 1) * LIMB <= u64::MAX * LIMB) by (nonlinear_arith)
                requires
                    i + 1 <= u64::MAX,
            ;
        }
        bottom.push(0);
        den = bottom;
        match less(&top, &den) {
            Some(d) => {
                num = d;
                whole = whole + q + 1;
            },
            None => {
                num = top;
                whole = whole + q;
            },
        }
        i = i + 1;
    }
    proof {
        assert(s@.take(i as int) =~= s@);
    }
    Sum { whole, num, den }
}

/// Doubles the rest of a sum. Returns whether the whole part gains one by that.
fn double_rest(num: &mut Vec<u64>, den: &mut Vec<u64>) -> (up: bool)
    requires
        old(num)@.len() == old(den)@.len(),
        value(old(num)@) < value(old(den)@),
    ensures
        final(num)@.len() == final(den)@.len(),
        value(final(den)@) == value(old(den)@),
        value(final(num)@) < value(final(den)@),
        2 * value(old(num)@) == value(final(num)@) + (if up {
            value(old(den)@)
        } else {
            0
        }),
{
    let twice = added(num, num);
    proof {
        lemma_push(den@, 0u64);
        assert(0 * weight(den@.len()) == 0);
    }
    den.push(0);
    match less(&twice, den) {
        Some(d) => {
            *num = d;
            true
        },
        None => {
            *num = twice;
            false
        },
    }
}

proof fn lemma_rest(m: nat, c: nat, p: nat, rem: nat, n: nat, cur: nat)
    requires
        cur == m * (p * c) + (rem * p + n),
        rem < c,
        n < p,
        c % 2 == 0,
    ensures
        rem * p + n < p * c,
        cur / (p * c) == m,
        cur % (p * c) == rem * p + n,
        2 * rem > c ==> 2 * (rem * p + n) > p * c,
        2 * rem < c ==> 2 * (rem * p + n) < p * c,
        2 * rem == c ==> 2 * (rem * p + n) == p * c + 2 * n,
{
    assert(rem * p + n < p * c) by (nonlinear_arith)
        requires
            rem + 1 <= c,
            n < p,
    ;
    assert(2 * rem > c ==> 2 * (rem * p + n) > p * c) by (nonlinear_arith)
        requires
            n >= 0,
            p > 0,
    ;
    assert(2 * rem + 2 <= c ==> 2 * (rem * p + n) < p * c) by (nonlinear_arith)
        requires
            n < p,
    ;
    assert(2 * rem == c ==> 2 * (rem * p + n) == p * c + 2 * n) by (nonlinear_arith);
    vstd::arithmetic::div_mod::lemma_fundamental_div_mod_converse(
        cur as int,
        (p * c) as int,
        m as int,
        (rem * p + n) as int,
    );
}

/// The mean of fractions of nanoseconds, in milliseconds: the double nearest to it.
pub fn mean(s: &Vec<Ratio>) -> (r: Double)
    requires
        forall|i: int| 0 <= i < s@.len() ==> in_range(#[trigger] s@[i]),
    ensures
        r == mean_of(s@),
{
    let sum = sum_of(s);
    let c: u128 = 1_000_000 * (if s.len() == 0 {
        1
    } else {
        s.len() as u128
    });
    let mut num = sum.num;
    let mut den = sum.den;
    let ghost p = value(den@);
    let ghost all = mean_den(s@);
    let mut m: u128 = sum.whole / c;
    let mut rem: u128 = sum.whole % c;
    let ghost mut cur: nat = sum_num(s@);
    let mut k: u32 = 0;
    proof {
        let whole = sum.whole;
        let n = value(num@);
        lemma_den_positive(s@);
        lemma_sum_in_range(s@);
        assert(all == p * c);
        assert(whole == m * c + rem && 0 <= rem < c) by (nonlinear_arith)
            requires
                m == whole / c,
                rem == whole % c,
                c > 0,
        ;
        assert(cur == m * (p * c) + (rem * p + n)) by (nonlinear_arith)
            requires
                cur == (m * c + rem) * p + n,
        ;
        lemma_rest(m as nat, c as nat, p, rem as nat, n, cur);
        assert(whole <= s@.len() * u64::MAX) by (nonlinear_arith)
            requires
                whole * p <= s@.len() * u64::MAX * p,
                p > 0,
        ;
        assert(m < SIGNIFICAND) by (nonlinear_arith)
            requires
                m * c <= s@.len() * u64::MAX,
                c >= 1_000_000 * s@.len(),
                c > 0,
                m >= 0,
        ;
        assert(cur < SIGNIFICAND * all && SIGNIFICAND * all <= 2 * SIGNIFICAND * all)
            by (nonlinear_arith)
            requires
                cur == m * all + (rem * p + n),
                rem * p + n < all,
                m + 1 <= SIGNIFICAND,
        ;
    }
    while m < SIGNIFICAND && k < FINEST
        invariant
            k <= FINEST,
            m < 2 * SIGNIFICAND,
            1_000_000 <= c <= 1_000_000 * u64::MAX,
            c % 2 == 0,
            rem < c,
            num@.len() == den@.len(),
            value(den@) == p,
            value(num@) < p,
            all == p * c,
            cur == m * (p * c) + (rem * p + value(num@)),
            double_of(sum_num(s@), all) == grown(cur, all, k as nat),
        decreases FINEST - k,
    {
        let ghost n = value(num@);
        let ghost (m0, rem0) = (m as nat, rem as nat);
        proof {
            lemma_rest(m as nat, c as nat, p, rem as nat, n, cur);
            assert(cur < SIGNIFICAND * all) by (nonlinear_arith)
                requires
                    cur == m * all + (rem * p + n),
                    rem * p + n < all,
                    m + 1 <= SIGNIFICAND,
            ;
            cur = 2 * cur;
        }
        let up = double_rest(&mut num, &mut den);
        rem = 2 * rem;
        if up {
            rem = rem + 1;
        }
        m = 2 * m;
        proof {
            let n1 = value(num@);
            let bit: nat = if up {
                1
            } else {
                0
            };
            assert(bit * p == (if up {
                p
            } else {
                0
            }));
            assert(cur == m * (p * c) + (rem * p + n1)) by (nonlinear_arith)
                requires
                    cur == 2 * (m0 * (p * c) + (rem0 * p + n)),
                    m == 2 * m0,
                    rem == 2 * rem0 + bit,
                    2 * n == n1 + bit * p,
            ;
            assert((m + 1) * (p * c) + ((rem - c) * p + n1) == m * (p * c) + (rem * p + n1))
                by (nonlinear_arith);
        }
        if rem >= c {
            rem = rem - c;
            m = m + 1;
        }
        k = k + 1;
    }
    let more = !is_zero(&num);
    proof {
        lemma_rest(m as nat, c as nat, p, rem as nat, value(num@), cur);
        assert(cur >= SIGNIFICAND * all <==> m >= SIGNIFICAND) by (nonlinear_arith)
            requires
                cur == m * all + (rem * p + value(num@)),
                0 <= rem * p + value(num@) < all,
        ;
    }
    if m < SIGNIFICAND {
        Double { num: 0, halvings: k }
    } else if 2 * rem > c || (2 * rem == c && (more || m % 2 == 1)) {
        Double { num: m + 1, halvings: k }
    } else {
        Double { num: m, halvings: k }
    }
}

/// A sum of fractions is built one by one: adding a fraction adds its value, on a common
/// denominator.
pub proof fn law_fractions_add_up(s: Seq<Ratio>, r: Ratio)
    ensures
        sum_num(Seq::empty()) == 0,
        sum_den(Seq::empty()) == 1,
        sum_den(s.push(r)) == sum_den(s) * r.den,
        sum_num(s.push(r)) == sum_num(s) * r.den + r.num * sum_den(s),
{
    assert(s.push(r).drop_last() =~= s);
}

/// The mean of fractions lies between their bounds: where each of them lies between `lo` and
/// `hi`, so does their sum over their number.
pub proof fn law_mean_lies_between(s: Seq<Ratio>, lo: nat, hi: nat)
    requires
        forall|i: int|
            0 <= i < s.len() ==> lo * (#[trigger] s[i]).den <= s[i].num <= hi * s[i].den,
    ensures
        lo * (s.len() * sum_den(s)) <= sum_num(s) <= hi * (s.len() * sum_den(s)),
    decreases s.len(),
{
    if s.len() == 0 {
        let e = s.len() * sum_den(s);
        assert(lo * e == 0 && hi * e == 0) by (nonlinear_arith)
            requires
                e == 0,
        ;
    } else {
        let d = s.drop_last();
        assert forall|i: int| 0 <= i < d.len() implies lo * (#[trigger] d[i]).den <= d[i].num
            <= hi * d[i].den by {
            assert(d[i] == s[i]);
        }
        law_mean_lies_between(d, lo, hi);
        let x = s[s.len() - 1];
        let (n, m, c, k, v) = (sum_num(d), sum_den(d), x.den as nat, d.len(), x.num as nat);
        assert(lo * ((k + 1) * (m * c)) <= n * c + v * m) by (nonlinear_arith)
            requires
                lo * (k * m) <= n,
                lo * c <= v,
        {
            assert(lo * (k * m) * c <= n * c);
            assert(lo * c * m <= v * m);
            assert(lo * ((k + 1) * (m * c)) == lo * (k * m) * c + lo * c * m);
        }
        assert(n * c + v * m <= hi * ((k + 1) * (m * c))) by (nonlinear_arith)
            requires
                n <= hi * (k * m),
                v <= hi * c,
        {
            assert(n * c <= hi * (k * m) * c);
            assert(v * m <= hi * c * m);
            assert(hi * ((k + 1) * (m * c)) == hi * (k * m) * c + hi * c * m);
        }
        assert(s.len() * sum_den(s) == (k + 1) * (m * c));
    }
}

/// The mean is taken over the number of the fractions and shown in milliseconds; without any
/// it is zero.
pub proof fn law_mean_in_milliseconds(s: Seq<Ratio>)
    ensures
        s.len() > 0 ==> mean_of(s) == double(sum_num(s), sum_den(s) * (s.len() * 1_000_000)),
        s.len() == 0 ==> mean_of(s).num == 0,
{
    if s.len() == 0 {
        assert(mean_den(s) == 1_000_000);
        lemma_nothing_grows(1_000_000, 0);
        assert(double_of(sum_num(s), mean_den(s)) == grown(0, 1_000_000, 0));
    }
}

proof fn lemma_nothing_grows(den: nat, k: nat)
    requires
        den > 0,
        k <= FINEST,
    ensures
        grown(0, den, k).0 == 0,
    decreases FINEST - k,
{
    assert(SIGNIFICAND * den > 0) by (nonlinear_arith)
        requires
            den > 0,
    ;
    if k < FINEST {
        lemma_nothing_grows(den, k + 1);
    }
}

} // verus!
