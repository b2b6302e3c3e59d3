//! Building and taking apart text, one character at a time.
//!
//! The grammar helpers work on character vectors; every one of them is stated
//! over plain sequences of characters.
use vstd::prelude::*;

verus! {

/// `String::push` puts one character at the end of the string.
pub assume_specification[ String::push ](s: &mut String, c: char)
    ensures
        final(s)@ == old(s)@.push(c),
;

/// What `str::to_lowercase` makes of a string: its Unicode lower case, which needs
/// the Unicode tables to write down.
pub uninterp spec fn lowercase_of(s: Seq<char>) -> Seq<char>;

/// Calls `str::to_lowercase`. Claimed: the result is the lower case of `s` and
/// depends on `s` alone.
#[verifier::external_body]
pub(crate) fn to_lowercase(s: &str) -> (r: String)
    ensures
        r@ == lowercase_of(s@),
{
    s.to_lowercase()
}

// ---------------------------------------------------------------- characters

/// The characters with the Unicode property White_Space.
pub open spec fn is_space(c: char) -> bool {
    ||| '\u{9}' <= c <= '\u{D}'
    ||| c == ' '
    ||| c == '\u{85}'
    ||| c == '\u{A0}'
    ||| c == '\u{1680}'
    ||| '\u{2000}' <= c <= '\u{200A}'
    ||| c == '\u{2028}'
    ||| c == '\u{2029}'
    ||| c == '\u{202F}'
    ||| c == '\u{205F}'
    ||| c == '\u{3000}'
}

pub fn space(c: char) -> (r: bool)
    ensures
        r == is_space(c),
{
    ('\u{9}' <= c && c <= '\u{D}') || c == ' ' || c == '\u{85}' || c == '\u{A0}' || c == '\u{1680}'
        || ('\u{2000}' <= c && c <= '\u{200A}') || c == '\u{2028}' || c == '\u{2029}' || c
        == '\u{202F}' || c == '\u{205F}' || c == '\u{3000}'
}

/// The value of a digit of the given radix (10 or 16), if `c` is one.
pub open spec fn digit_value(c: char, radix: nat) -> Option<nat> {
    if '0' <= c <= '9' {
        Some((c as u32 - '0' as u32) as nat)
    } else if radix == 16 && 'a' <= c <= 'f' {
        Some((c as u32 - 'a' as u32 + 10) as nat)
    } else if radix == 16 && 'A' <= c <= 'F' {
        Some((c as u32 - 'A' as u32 + 10) as nat)
    } else {
        None
    }
}

fn digit(c: char, radix: u64) -> (r: Option<u64>)
    ensures
        match r {
            Some(v) => digit_value(c, radix as nat) == Some(v as nat) && v < 16 && (radix == 10
                ==> v < 10),
            None => digit_value(c, radix as nat) is None,
        },
{
    if '0' <= c && c <= '9' {
        Some((c as u32 - '0' as u32) as u64)
    } else if radix == 16 && 'a' <= c && c <= 'f' {
        Some((c as u32 - 'a' as u32 + 10) as u64)
    } else if radix == 16 && 'A' <= c && c <= 'F' {
        Some((c as u32 - 'A' as u32 + 10) as u64)
    } else {
        None
    }
}

// ------------------------------------------------------------------- numbers

/// The character of a decimal digit.
pub open spec fn digit_char(d: nat) -> char {
    (48 + d) as char
}

/// Decimal digits of `n` without leading zeros; zero is `0`.
pub open spec fn digits(n: nat) -> Seq<char>
    decreases n,
{
    if n < 10 {
        seq![digit_char(n)]
    } else {
        digits(n / 10).push(digit_char(n % 10))
    }
}

fn digit_to_char(d: u8) -> (c: char)
    requires
        d < 10,
    ensures
        c == digit_char(d as nat),
{
    (48 + d) as char
}

pub fn dec(n: u128) -> (s: String)
    ensures
        s@ == digits(n as nat),
    decreases n,
{
    if n < 10 {
        let mut s = String::new();
        s.push(digit_to_char(n as u8));
        proof {
            assert(s@ =~= digits(n as nat));
        }
        s
    } else {
        let mut s = dec(n / 10);
        s.push(digit_to_char((n % 10) as u8));
        s
    }
}

/// A signed number: a minus sign, when it is negative, and its digits.
pub open spec fn signed_digits(n: int) -> Seq<char> {
    if n < 0 {
        "-"@ + digits((-n) as nat)
    } else {
        digits(n as nat)
    }
}

pub fn dec_i16(n: i16) -> (s: String)
    ensures
        s@ == signed_digits(n as int),
{
    if n < 0 {
        let mut s = String::from_str("-");
        let d = dec((-(n as i32)) as u128);
        s.append(d.as_str());
        s
    } else {
        dec(n as u128)
    }
}

/// `s` with `fill` put before it until it is `width` characters long.
pub open spec fn pad_left(s: Seq<char>, width: nat, fill: char) -> Seq<char> {
    Seq::new((if s.len() < width { width - s.len() } else { 0 }) as nat, |i: int| fill) + s
}

/// `s` with blanks put after it until it is `width` characters long.
pub open spec fn pad_right(s: Seq<char>, width: nat) -> Seq<char> {
    s + Seq::new((if s.len() < width { width - s.len() } else { 0 }) as nat, |i: int| ' ')
}

pub fn padded_left(s: &str, width: usize, fill: char) -> (r: String)
    ensures
        r@ == pad_left(s@, width as nat, fill),
{
    let n: usize = s.unicode_len();
    let mut r = String::new();
    let mut k: usize = n;
    while k < width
        invariant
            n <= k,
            k <= width || k == n,
            n == s@.len(),
            r@ == Seq::new((k - n) as nat, |i: int| fill),
        decreases width - k,
    {
        r.push(fill);
        k = k + 1;
        proof {
            assert(r@ =~= Seq::new((k - n) as nat, |i: int| fill));
        }
    }
    r.append(s);
    r
}

pub fn padded_right(s: &str, width: usize) -> (r: String)
    ensures
        r@ == pad_right(s@, width as nat),
{
    let n: usize = s.unicode_len();
    let mut r = String::from_str(s);
    let mut k: usize = n;
    proof {
        assert(r@ =~= s@ + Seq::new(0, |i: int| ' '));
    }
    while k < width
        invariant
            n <= k,
            k <= width || k == n,
            n == s@.len(),
            r@ == s@ + Seq::new((k - n) as nat, |i: int| ' '),
        decreases width - k,
    {
        r.push(' ');
        k = k + 1;
        proof {
            assert(r@ =~= s@ + Seq::new((k - n) as nat, |i: int| ' '));
        }
    }
    r
}

/// `n` with at least `width` digits.
pub open spec fn zero_padded(n: nat, width: nat) -> Seq<char> {
    pad_left(digits(n), width, '0')
}

pub fn dec_padded(n: u128, width: usize) -> (s: String)
    ensures
        s@ == zero_padded(n as nat, width as nat),
{
    let d = dec(n);
    padded_left(d.as_str(), width, '0')
}

/// The whole number nearest to `num / den`; of two equally near, the even one.
pub open spec fn round_half_even(num: nat, den: nat) -> nat {
    let q = num / den;
    let r = num % den;
    if 2 * r > den || (2 * r == den && q % 2 == 1) {
        q + 1
    } else {
        q
    }
}

pub fn rounded(num: u128, den: u128) -> (r: u128)
    requires
        0 < den <= u128::MAX / 2,
    ensures
        r == round_half_even(num as nat, den as nat),
{
    let q: u128 = num / den;
    let rem: u128 = num % den;
    if 2 * rem > den || (2 * rem == den && q % 2 == 1) {
        proof {
            assert(q + 1 <= u128::MAX) by (nonlinear_arith)
                requires
                    q == num / den,
                    rem == num % den,
                    rem > 0,
                    den > 0,
                    num <= u128::MAX,
            {
                assert(q * den <= num);
                assert(den == 1 ==> rem == 0);
                assert(q <= num);
            }
        }
        q + 1
    } else {
        q
    }
}

/// Ten to the power of `n`.
pub open spec fn pow10(n: nat) -> nat
    decreases n,
{
    if n == 0 {
        1
    } else {
        10 * pow10((n - 1) as nat)
    }
}

/// Two to the power of `n`.
pub open spec fn two_to(n: nat) -> nat
    decreases n,
{
    if n == 0 {
        1
    } else {
        2 * two_to((n - 1) as nat)
    }
}

/// The least significand of a double, 2^52; the largest is below twice that.
pub const SIGNIFICAND: u128 = 0x10_0000_0000_0000;

/// How often a fraction is doubled at most to become a significand. What is still
/// too small then counts as zero: no place that is printed is that fine.
pub const FINEST: u32 = 112;

/// The double nearest to `num / den * 2^-k`, where that is below the largest
/// significand: a whole number, and how often it is halved.
pub open spec fn grown(num: nat, den: nat, k: nat) -> (nat, nat)
    decreases FINEST - k,
{
    if num >= SIGNIFICAND * den {
        (round_half_even(num, den), k)
    } else if k >= FINEST {
        (0, k)
    } else {
        grown(2 * num, den, k + 1)
    }
}

/// The double nearest to `num / den`, where that is at least a significand: a whole
/// number.
pub open spec fn shrunk(num: nat, den: nat) -> nat
    decreases
            (if num >= 2 * SIGNIFICAND * den {
                num - 2 * SIGNIFICAND * den + 1
            } else {
                0
            }),
{
    if den == 0 || num < 2 * SIGNIFICAND * den {
        round_half_even(num, den)
    } else {
        proof {
            assert(2 * SIGNIFICAND * (2 * den) == 2 * (2 * SIGNIFICAND * den)) by (nonlinear_arith);
            assert(2 * SIGNIFICAND * den > 0) by (nonlinear_arith)
                requires
                    den > 0,
            ;
        }
        2 * shrunk(num, 2 * den)
    }
}

/// The double-precision number nearest to `num / den`, of two equally near the one
/// with an even significand: a whole number, and how often it is halved.
pub open spec fn double_of(num: nat, den: nat) -> (nat, nat) {
    if num >= 2 * SIGNIFICAND * den {
        (shrunk(num, den), 0)
    } else {
        grown(num, den, 0)
    }
}

/// A double-precision number: `num`, halved `halvings` times.
#[derive(Clone, Copy, PartialEq, Eq, Structural, Debug)]
pub struct Double {
    pub num: u128,
    pub halvings: u32,
}

/// The double nearest to `num / den`.
pub open spec fn double(num: nat, den: nat) -> Double {
    Double {
        num: double_of(num, den).0 as u128,
        halvings: double_of(num, den).1 as u32,
    }
}

/// A double that can be printed.
pub open spec fn is_sound_double(d: Double) -> bool {
    d.num <= 2 * FIXED_LIMIT && d.halvings <= FINEST
}

/// A double in decimal, rounded half to even to `places` places.
pub open spec fn double_text(d: Double, places: nat) -> Seq<char> {
    exact_text(d.num as nat, two_to(d.halvings as nat), places)
}

/// `num / den` in decimal, rounded half to even to `places` places.
pub open spec fn exact_text(num: nat, den: nat, places: nat) -> Seq<char> {
    let r = round_half_even(num * pow10(places), den);
    if places == 0 {
        digits(r)
    } else {
        digits(r / pow10(places)) + "."@ + zero_padded(r % pow10(places), places)
    }
}

/// The double nearest to `num / den` in decimal, rounded to `places` places. Where
/// `num / den` lies half way between two decimals, the double mostly does not.
pub open spec fn fixed_text(num: nat, den: nat, places: nat) -> Seq<char> {
    exact_text(double_of(num, den).0, two_to(double_of(num, den).1), places)
}

fn power(places: usize) -> (p: u128)
    requires
        places <= 4,
    ensures
        p == pow10(places as nat),
        0 < p <= 10_000,
        places > 0 ==> p % 2 == 0,
{
    reveal_with_fuel(pow10, 5);
    if places == 0 {
        1
    } else if places == 1 {
        10
    } else if places == 2 {
        100
    } else if places == 3 {
        1_000
    } else {
        10_000
    }
}

/// The largest denominator that [`fixed`] takes, and the largest quotient.
pub const FIXED_LIMIT: u128 = 0x1_0000_0000_0000_0000_0000_0000_0000;

/// The whole part can be rounded apart from the rest.
proof fn lemma_round_apart(num: nat, den: nat, p: nat)
    requires
        den > 0,
        p % 2 == 0,
    ensures
        round_half_even(num * p, den) == (num / den) * p + round_half_even((num % den) * p, den),
{
    let q = num / den;
    let rem = num % den;
    let inner = (rem * p) / den;
    let last = (rem * p) % den;
    assert(num == q * den + rem) by (nonlinear_arith)
        requires
            q == num / den,
            rem == num % den,
            den > 0,
    ;
    assert(rem * p == inner * den + last && 0 <= last < den) by (nonlinear_arith)
        requires
            inner == (rem * p) / den,
            last == (rem * p) % den,
            den > 0,
    ;
    assert(num * p == (q * p + inner) * den + last) by (nonlinear_arith)
        requires
            num == q * den + rem,
            rem * p == inner * den + last,
    ;
    vstd::arithmetic::div_mod::lemma_fundamental_div_mod_converse(
        (num * p) as int,
        den as int,
        (q * p + inner) as int,
        last as int,
    );
    assert((q * p) % 2 == 0) by (nonlinear_arith)
        requires
            p % 2 == 0,
    {
        let h = p / 2;
        assert(p == 2 * h);
        assert(q * p == 2 * (q * h));
    }
}

fn exact(num: u128, den: u128, places: usize) -> (s: String)
    requires
        0 < den <= FIXED_LIMIT,
        num <= 2 * FIXED_LIMIT || den >= 0x1_0000,
        places <= 4,
    ensures
        s@ == exact_text(num as nat, den as nat, places as nat),
{
    if places == 0 {
        let r: u128 = rounded(num, den);
        proof {
            assert(num * pow10(0) == num) by (nonlinear_arith)
                requires
                    pow10(0) == 1,
            ;
        }
        return dec(r);
    }
    let p: u128 = power(places);
    let q: u128 = num / den;
    let rem: u128 = num % den;
    proof {
        assert(q <= 2 * FIXED_LIMIT && rem < den) by (nonlinear_arith)
            requires
                q == num / den,
                rem == num % den,
                den > 0,
                num <= u128::MAX,
                num <= 2 * FIXED_LIMIT || den >= 0x1_0000,
        ;
        assert(rem * p <= FIXED_LIMIT * 10_000 && q * p <= 2 * FIXED_LIMIT * 10_000)
            by (nonlinear_arith)
            requires
                0 <= rem <= FIXED_LIMIT,
                0 <= q <= 2 * FIXED_LIMIT,
                0 < p <= 10_000,
        ;
        assert(rem * p / den as int <= p) by (nonlinear_arith)
            requires
                rem < den,
                0 < p,
        ;
        lemma_round_apart(num as nat, den as nat, p as nat);
    }
    let r: u128 = q * p + rounded(rem * p, den);
    let mut s = dec(r / p);
    s.append(".");
    let f = dec_padded(r % p, places);
    s.append(f.as_str());
    s
}

proof fn lemma_two_to_sum(a: nat, b: nat)
    ensures
        two_to(a + b) == two_to(a) * two_to(b),
    decreases b,
{
    if b == 0 {
        assert(two_to(a) * 1 == two_to(a));
    } else {
        lemma_two_to_sum(a, (b - 1) as nat);
        assert(two_to(a + b) == 2 * two_to((a + b - 1) as nat));
        assert(2 * (two_to(a) * two_to((b - 1) as nat)) == two_to(a) * (2 * two_to(
            (b - 1) as nat,
        ))) by (nonlinear_arith);
    }
}

proof fn lemma_two_to_bound(k: nat)
    requires
        k <= FINEST,
    ensures
        0 < two_to(k) <= FIXED_LIMIT,
    decreases FINEST - k,
{
    if k == FINEST {
        assert(two_to(16) == 0x1_0000) by {
            reveal_with_fuel(two_to, 17);
        }
        lemma_two_to_sum(16, 16);
        assert(two_to(32) == 0x1_0000_0000);
        lemma_two_to_sum(32, 32);
        assert(two_to(64) == 0x1_0000_0000_0000_0000);
        lemma_two_to_sum(64, 32);
        assert(two_to(96) == 0x1_0000_0000_0000_0000_0000_0000);
        lemma_two_to_sum(96, 16);
    } else {
        lemma_two_to_bound(k + 1);
        assert(two_to(k + 1) == 2 * two_to(k));
    }
}

/// The double of a fraction below the largest significand can be printed.
pub proof fn lemma_grown(num: nat, den: nat, k: nat)
    requires
        den > 0,
        num < 2 * SIGNIFICAND * den,
        k <= FINEST,
    ensures
        grown(num, den, k).0 <= 2 * SIGNIFICAND,
        grown(num, den, k).1 <= FINEST,
    decreases FINEST - k,
{
    if num >= SIGNIFICAND * den {
        assert(num / den < 2 * SIGNIFICAND) by (nonlinear_arith)
            requires
                den > 0,
                num < 2 * SIGNIFICAND * den,
        ;
    } else if k < FINEST {
        assert(2 * num < 2 * SIGNIFICAND * den) by (nonlinear_arith)
            requires
                num < SIGNIFICAND * den,
        ;
        lemma_grown(2 * num, den, k + 1);
    }
}

fn shrink(num: u128, den: u128) -> (r: u128)
    requires
        0 < den,
        SIGNIFICAND * den <= num <= FIXED_LIMIT * den,
    ensures
        r == shrunk(num as nat, den as nat),
        r * den <= 2 * num,
    decreases num - den,
{
    let q: u128 = num / den;
    proof {
        assert(q * den <= num < (q + 1) * den) by (nonlinear_arith)
            requires
                q == num / den,
                den > 0,
        ;
        assert(num < 2 * SIGNIFICAND * den <==> q < 2 * SIGNIFICAND) by (nonlinear_arith)
            requires
                q * den <= num < (q + 1) * den,
                den > 0,
        ;
        assert(q >= SIGNIFICAND) by (nonlinear_arith)
            requires
                num < (q + 1) * den,
                SIGNIFICAND * den <= num,
                den > 0,
        ;
    }
    if q < 2 * SIGNIFICAND {
        proof {
            assert(den <= u128::MAX / 2) by (nonlinear_arith)
                requires
                    SIGNIFICAND * den <= num,
                    num <= u128::MAX,
            ;
            assert((q + 1) * den <= 2 * num) by (nonlinear_arith)
                requires
                    q * den <= num,
                    q >= 1,
                    den > 0,
            ;
            assert(q * den <= (q + 1) * den) by (nonlinear_arith)
                requires
                    den > 0,
            ;
        }
        rounded(num, den)
    } else {
        proof {
            assert(2 * den < num && num <= FIXED_LIMIT * (2 * den) && SIGNIFICAND * (2 * den)
                <= num) by (nonlinear_arith)
                requires
                    2 * SIGNIFICAND * den <= num <= FIXED_LIMIT * den,
                    den > 0,
            ;
        }
        let half: u128 = shrink(num, 2 * den);
        proof {
            assert(2 * half <= 2 * FIXED_LIMIT && (2 * half) * den <= 2 * num) by (nonlinear_arith)
                requires
                    half * (2 * den) <= 2 * num,
                    num <= FIXED_LIMIT * den,
                    den > 0,
                    half >= 0,
            ;
        }
        2 * half
    }
}

/// The double nearest to `num / den`: a whole number, and what it is divided by.
fn as_double(num: u128, den: u128) -> (r: (u128, u128))
    requires
        0 < den <= FIXED_LIMIT,
        num <= FIXED_LIMIT || den >= 0x1_0000,
    ensures
        r.0 == double_of(num as nat, den as nat).0,
        r.1 == two_to(double_of(num as nat, den as nat).1),
        r.0 <= 2 * FIXED_LIMIT,
        0 < r.1 <= FIXED_LIMIT,
{
    let mut m: u128 = num / den;
    let mut rem: u128 = num % den;
    proof {
        assert(num == m * den + rem && 0 <= rem < den) by (nonlinear_arith)
            requires
                m == num / den,
                rem == num % den,
                den > 0,
        ;
        assert(num >= 2 * SIGNIFICAND * den <==> m >= 2 * SIGNIFICAND) by (nonlinear_arith)
            requires
                num == m * den + rem,
                0 <= rem < den,
        ;
    }
    if m >= 2 * SIGNIFICAND {
        proof {
            assert(num <= FIXED_LIMIT * den && SIGNIFICAND * den <= num) by (nonlinear_arith)
                requires
                    num <= FIXED_LIMIT || den >= 0x1_0000,
                    num <= u128::MAX,
                    den > 0,
                    num >= 2 * SIGNIFICAND * den,
            ;
        }
        let n: u128 = shrink(num, den);
        proof {
            assert(n <= 2 * FIXED_LIMIT) by (nonlinear_arith)
                requires
                    n * den <= 2 * num,
                    num <= FIXED_LIMIT * den,
                    den > 0,
            ;
            assert(two_to(0) == 1);
        }
        return (n, 1);
    }
    let mut k: u32 = 0;
    let mut p: u128 = 1;
    let ghost mut cur: nat = num as nat;
    while m < SIGNIFICAND && k < FINEST
        invariant
            0 < den <= FIXED_LIMIT,
            k <= FINEST,
            p == two_to(k as nat),
            m < 2 * SIGNIFICAND,
            cur == m * den + rem,
            rem < den,
            double_of(num as nat, den as nat) == grown(cur, den as nat, k as nat),
        decreases FINEST - k,
    {
        proof {
            assert(cur < SIGNIFICAND * den) by (nonlinear_arith)
                requires
                    cur == m * den + rem,
                    rem < den,
                    m + 1 <= SIGNIFICAND,
            ;
            assert((2 * m) * den == 2 * (m * den) && (2 * m + 1) * den == 2 * (m * den) + den)
                by (nonlinear_arith);
            cur = 2 * cur;
            lemma_two_to_bound((k + 1) as nat);
        }
        rem = 2 * rem;
        m = 2 * m;
        if rem >= den {
            rem = rem - den;
            m = m + 1;
        }
        p = 2 * p;
        k = k + 1;
    }
    proof {
        lemma_two_to_bound(k as nat);
        assert(cur >= SIGNIFICAND * den <==> m >= SIGNIFICAND) by (nonlinear_arith)
            requires
                cur == m * den + rem,
                0 <= rem < den,
        ;
        vstd::arithmetic::div_mod::lemma_fundamental_div_mod_converse(
            cur as int,
            den as int,
            m as int,
            rem as int,
        );
    }
    if m < SIGNIFICAND {
        (0, p)
    } else if 2 * rem > den || (2 * rem == den && m % 2 == 1) {
        (m + 1, p)
    } else {
        (m, p)
    }
}

fn power_of_two(n: u32) -> (p: u128)
    requires
        n <= FINEST,
    ensures
        p == two_to(n as nat),
        0 < p <= FIXED_LIMIT,
{
    let mut p: u128 = 1;
    let mut k: u32 = 0;
    while k < n
        invariant
            k <= n <= FINEST,
            p == two_to(k as nat),
        decreases n - k,
    {
        proof {
            lemma_two_to_bound((k + 1) as nat);
        }
        p = 2 * p;
        k = k + 1;
    }
    proof {
        lemma_two_to_bound(n as nat);
    }
    p
}

/// Prints a double.
pub fn double_fixed(d: Double, places: usize) -> (s: String)
    requires
        is_sound_double(d),
        places <= 4,
    ensures
        s@ == double_text(d, places as nat),
{
    exact(d.num, power_of_two(d.halvings), places)
}

/// `num / den` as the nearest double is printed.
pub fn fixed(num: u128, den: u128, places: usize) -> (s: String)
    requires
        0 < den <= FIXED_LIMIT,
        num <= FIXED_LIMIT || den >= 0x1_0000,
        places <= 4,
    ensures
        s@ == fixed_text(num as nat, den as nat, places as nat),
{
    let (n, d) = as_double(num, den);
    exact(n, d, places)
}

/// A time in nanoseconds as milliseconds with `places` places.
pub open spec fn ms_text(ns: nat, places: nat) -> Seq<char> {
    fixed_text(ns, 1_000_000, places)
}

pub fn ms(ns: u128, places: usize) -> (s: String)
    requires
        ns <= FIXED_LIMIT,
        places <= 4,
    ensures
        s@ == ms_text(ns as nat, places as nat),
{
    fixed(ns, 1_000_000, places)
}

// ------------------------------------------------------------------- grammar

/// Which characters end a piece.
#[derive(Clone, Copy, PartialEq, Eq, Structural, Debug)]
pub enum Separator {
    Char(char),
    Space,
    SpaceOr(char),
}

impl Separator {
    pub open spec fn picks(self, c: char) -> bool {
        match self {
            Separator::Char(x) => c == x,
            Separator::Space => is_space(c),
            Separator::SpaceOr(x) => is_space(c) || c == x,
        }
    }

    fn matches(self, c: char) -> (r: bool)
        ensures
            r == self.picks(c),
    {
        match self {
            Separator::Char(x) => c == x,
            Separator::Space => space(c),
            Separator::SpaceOr(x) => space(c) || c == x,
        }
    }
}

/// The pieces of `s` between the characters that `sep` picks: one more piece
/// than there are such characters.
pub open spec fn split_by(s: Seq<char>, sep: Separator) -> Seq<Seq<char>>
    decreases s.len(),
{
    if s.len() == 0 {
        seq![Seq::empty()]
    } else {
        let front = split_by(s.drop_last(), sep);
        if sep.picks(s.last()) {
            front.push(Seq::empty())
        } else {
            front.drop_last().push(front.last().push(s.last()))
        }
    }
}

/// The pieces of `s` between the characters `c`.
pub open spec fn split_on(s: Seq<char>, c: char) -> Seq<Seq<char>> {
    split_by(s, Separator::Char(c))
}

/// The pieces that are not empty, in order.
pub open spec fn non_empty(pieces: Seq<Seq<char>>) -> Seq<Seq<char>>
    decreases pieces.len(),
{
    if pieces.len() == 0 {
        Seq::empty()
    } else if pieces.last().len() == 0 {
        non_empty(pieces.drop_last())
    } else {
        non_empty(pieces.drop_last()).push(pieces.last())
    }
}

/// The words of `s`: its longest runs of characters that are not white space.
pub open spec fn words(s: Seq<char>) -> Seq<Seq<char>> {
    non_empty(split_by(s, Separator::Space))
}

/// `s` without one trailing carriage return.
pub open spec fn chop_return(s: Seq<char>) -> Seq<char> {
    if s.len() > 0 && s.last() == '\r' {
        s.drop_last()
    } else {
        s
    }
}

/// The lines of `s`. A line ends with a newline, alone or behind a carriage
/// return; what follows the last newline is a line unless it is empty.
pub open spec fn lines(s: Seq<char>) -> Seq<Seq<char>> {
    let pieces = split_on(s, '\n');
    let ended = pieces.drop_last().map_values(|l: Seq<char>| chop_return(l));
    if pieces.last().len() == 0 {
        ended
    } else {
        ended.push(pieces.last())
    }
}

/// The views of a vector of character vectors.
pub open spec fn views(v: Seq<Vec<char>>) -> Seq<Seq<char>> {
    Seq::new(v.len(), |i: int| v[i]@)
}

pub proof fn lemma_split_by_len(s: Seq<char>, sep: Separator)
    ensures
        split_by(s, sep).len() >= 1,
    decreases s.len(),
{
    if s.len() > 0 {
        lemma_split_by_len(s.drop_last(), sep);
    }
}

/// The characters of a string.
pub fn chars_of(s: &str) -> (v: Vec<char>)
    ensures
        v@ == s@,
{
    let mut v: Vec<char> = Vec::new();
    for c in it: s.chars()
        invariant
            v@ == it.seq().take(it.index() as int),
            it.seq() == s@,
    {
        v.push(c);
        proof {
            assert(v@ =~= it.seq().take(it.index() + 1));
        }
    }
    proof {
        assert(v@ =~= s@);
    }
    v
}

/// The string of the given characters.
pub fn string_of(v: &Vec<char>) -> (s: String)
    ensures
        s@ == v@,
{
    let mut s = String::new();
    let mut i: usize = 0;
    while i < v.len()
        invariant
            i <= v.len(),
            s@ == v@.take(i as int),
        decreases v.len() - i,
    {
        s.push(v[i]);
        i = i + 1;
        proof {
            assert(s@ =~= v@.take(i as int));
        }
    }
    proof {
        assert(s@ =~= v@);
    }
    s
}

/// A copy of a vector of characters.
pub fn copied(v: &Vec<char>) -> (r: Vec<char>)
    ensures
        r@ == v@,
{
    let mut r: Vec<char> = Vec::new();
    let mut i: usize = 0;
    while i < v.len()
        invariant
            i <= v.len(),
            r@ == v@.take(i as int),
        decreases v.len() - i,
    {
        r.push(v[i]);
        i = i + 1;
        proof {
            assert(r@ =~= v@.take(i as int));
        }
    }
    proof {
        assert(r@ =~= v@);
    }
    r
}

/// Splits `s` at every character that `sep` picks.
pub fn split(s: &Vec<char>, sep: Separator) -> (r: Vec<Vec<char>>)
    ensures
        views(r@) == split_by(s@, sep),
{
    let mut done: Vec<Vec<char>> = Vec::new();
    let mut cur: Vec<char> = Vec::new();
    let mut i: usize = 0;
    proof {
        assert(views(done@).push(cur@) =~= split_by(s@.take(0), sep));
    }
    while i < s.len()
        invariant
            i <= s.len(),
            views(done@).push(cur@) == split_by(s@.take(i as int), sep),
        decreases s.len() - i,
    {
        let c: char = s[i];
        proof {
            assert(s@.take(i + 1).drop_last() =~= s@.take(i as int));
            assert(views(done@).push(cur@).drop_last() =~= views(done@));
        }
        if sep.matches(c) {
            let ghost before = done@;
            done.push(cur);
            cur = Vec::new();
            proof {
                assert(views(done@) =~= views(before).push(done@.last()@));
                assert(views(done@).push(cur@) =~= split_by(s@.take(i + 1), sep));
            }
        } else {
            cur.push(c);
            proof {
                assert(views(done@).push(cur@) =~= split_by(s@.take(i + 1), sep));
            }
        }
        i = i + 1;
    }
    proof {
        assert(s@.take(i as int) =~= s@);
    }
    let ghost before = done@;
    done.push(cur);
    proof {
        assert(views(done@) =~= views(before).push(done@.last()@));
    }
    done
}

/// Splits `s` at every `c`.
pub fn split_char(s: &Vec<char>, c: char) -> (r: Vec<Vec<char>>)
    ensures
        views(r@) == split_on(s@, c),
        r.len() >= 1,
{
    let r = split(s, Separator::Char(c));
    proof {
        lemma_split_by_len(s@, Separator::Char(c));
    }
    r
}

/// Drops the empty pieces.
pub fn keep_non_empty(pieces: Vec<Vec<char>>) -> (r: Vec<Vec<char>>)
    ensures
        views(r@) == non_empty(views(pieces@)),
{
    let mut r: Vec<Vec<char>> = Vec::new();
    let mut i: usize = 0;
    proof {
        assert(views(r@) =~= non_empty(views(pieces@).take(0)));
    }
    while i < pieces.len()
        invariant
            i <= pieces.len(),
            views(r@) == non_empty(views(pieces@).take(i as int)),
        decreases pieces.len() - i,
    {
        proof {
            assert(views(pieces@).take(i + 1).drop_last() =~= views(pieces@).take(i as int));
        }
        if pieces[i].len() > 0 {
            let ghost before = r@;
            r.push(copied(&pieces[i]));
            proof {
                assert(views(r@) =~= views(before).push(r@.last()@));
            }
        }
        i = i + 1;
    }
    proof {
        assert(views(pieces@).take(i as int) =~= views(pieces@));
    }
    r
}

pub fn words_of(s: &Vec<char>) -> (r: Vec<Vec<char>>)
    ensures
        views(r@) == words(s@),
{
    keep_non_empty(split(s, Separator::Space))
}

pub fn lines_of(s: &Vec<char>) -> (r: Vec<Vec<char>>)
    ensures
        views(r@) == lines(s@),
{
    let mut pieces = split_char(s, '\n');
    let ghost all = views(pieces@);
    let n: usize = pieces.len();
    let last: Vec<char> = copied(&pieces[n - 1]);
    let mut r: Vec<Vec<char>> = Vec::new();
    let mut i: usize = 0;
    let ghost ended = all.drop_last().map_values(|l: Seq<char>| chop_return(l));
    while i < n - 1
        invariant
            i <= n - 1,
            n == pieces.len(),
            all == views(pieces@),
            ended == all.drop_last().map_values(|l: Seq<char>| chop_return(l)),
            views(r@) == ended.take(i as int),
        decreases n - 1 - i,
    {
        let mut line = copied(&pieces[i]);
        if line.len() > 0 && line[line.len() - 1] == '\r' {
            line.pop();
        }
        proof {
            assert(all[i as int] == pieces@[i as int]@);
            assert(line@ =~= chop_return(all[i as int]));
        }
        let ghost before = r@;
        r.push(line);
        i = i + 1;
        proof {
            assert(views(r@) =~= views(before).push(r@.last()@));
            assert(views(r@) =~= ended.take(i as int));
        }
    }
    proof {
        assert(ended.take(i as int) =~= ended);
        assert(all.last() == last@);
    }
    if last.len() > 0 {
        let ghost before = r@;
        r.push(last);
        proof {
            assert(views(r@) =~= views(before).push(r@.last()@));
        }
    }
    r
}

/// `s` without leading white space.
pub open spec fn trim_start(s: Seq<char>) -> Seq<char>
    decreases s.len(),
{
    if s.len() > 0 && is_space(s[0]) {
        trim_start(s.drop_first())
    } else {
        s
    }
}

/// `s` without trailing white space.
pub open spec fn trim_end(s: Seq<char>) -> Seq<char>
    decreases s.len(),
{
    if s.len() > 0 && is_space(s.last()) {
        trim_end(s.drop_last())
    } else {
        s
    }
}

/// `s` without white space at either end.
pub open spec fn trim(s: Seq<char>) -> Seq<char> {
    trim_end(trim_start(s))
}

/// `s` without the characters `c` at its end.
pub open spec fn trim_end_char(s: Seq<char>, c: char) -> Seq<char>
    decreases s.len(),
{
    if s.len() > 0 && s.last() == c {
        trim_end_char(s.drop_last(), c)
    } else {
        s
    }
}

pub fn trimmed(s: &Vec<char>) -> (r: Vec<char>)
    ensures
        r@ == trim(s@),
{
    let mut i: usize = 0;
    proof {
        assert(s@.skip(0) =~= s@);
    }
    while i < s.len() && space(s[i])
        invariant
            i <= s.len(),
            trim_start(s@) == trim_start(s@.skip(i as int)),
        decreases s.len() - i,
    {
        proof {
            assert(s@.skip(i as int).drop_first() =~= s@.skip(i + 1));
        }
        i = i + 1;
    }
    let mut r: Vec<char> = Vec::new();
    let mut k: usize = i;
    while k < s.len()
        invariant
            i <= k <= s.len(),
            r@ == s@.subrange(i as int, k as int),
        decreases s.len() - k,
    {
        r.push(s[k]);
        k = k + 1;
        proof {
            assert(r@ =~= s@.subrange(i as int, k as int));
        }
    }
    proof {
        assert(r@ =~= s@.skip(i as int));
        assert(trim_start(s@) == r@);
    }
    while r.len() > 0 && space(r[r.len() - 1])
        invariant
            trim(s@) == trim_end(r@),
        decreases r.len(),
    {
        let ghost before = r@;
        r.pop();
        proof {
            assert(r@ =~= before.drop_last());
        }
    }
    r
}

pub fn trimmed_end_char(s: &Vec<char>, c: char) -> (r: Vec<char>)
    ensures
        r@ == trim_end_char(s@, c),
{
    let mut r = copied(s);
    while r.len() > 0 && r[r.len() - 1] == c
        invariant
            trim_end_char(s@, c) == trim_end_char(r@, c),
        decreases r.len(),
    {
        let ghost before = r@;
        r.pop();
        proof {
            assert(r@ =~= before.drop_last());
        }
    }
    r
}

/// `needle` stands in `s` at position `i`.
pub open spec fn occurs_at(s: Seq<char>, needle: Seq<char>, i: int) -> bool {
    0 <= i && i + needle.len() <= s.len() && s.subrange(i, i + needle.len()) == needle
}

/// `needle` stands somewhere in `s`.
pub open spec fn has_text(s: Seq<char>, needle: Seq<char>) -> bool {
    exists|i: int| occurs_at(s, needle, i)
}

/// `i` is the first position at or after `from` at which `needle` stands in `s`.
pub open spec fn first_at(s: Seq<char>, needle: Seq<char>, from: int, i: int) -> bool {
    &&& from <= i
    &&& occurs_at(s, needle, i)
    &&& forall|j: int| from <= j < i ==> !occurs_at(s, needle, j)
}

/// The first position at or after `from` at which `needle` stands in `s`.
pub open spec fn position(s: Seq<char>, needle: Seq<char>, from: int) -> Option<int> {
    if exists|i: int| first_at(s, needle, from, i) {
        Some(choose|i: int| first_at(s, needle, from, i))
    } else {
        None
    }
}

proof fn lemma_position(s: Seq<char>, needle: Seq<char>, from: int, i: int)
    requires
        first_at(s, needle, from, i),
    ensures
        position(s, needle, from) == Some(i),
{
    let k = choose|k: int| first_at(s, needle, from, k);
    assert(first_at(s, needle, from, k));
    if k < i {
        assert(!occurs_at(s, needle, k));
    } else if i < k {
        assert(!occurs_at(s, needle, i));
    }
}

/// Whether `needle` stands in `s` at position `at`.
fn stands_at(s: &Vec<char>, needle: &Vec<char>, at: usize) -> (r: bool)
    requires
        at <= s.len(),
    ensures
        r == occurs_at(s@, needle@, at as int),
{
    if needle.len() > s.len() - at {
        return false;
    }
    let mut k: usize = 0;
    while k < needle.len()
        invariant
            k <= needle.len(),
            at + needle.len() <= s.len(),
            forall|j: int| 0 <= j < k ==> s@[at + j] == #[trigger] needle@[j],
        decreases needle.len() - k,
    {
        if s[at + k] != needle[k] {
            proof {
                assert(s@.subrange(at as int, at + needle@.len())[k as int] == s@[at + k]);
            }
            return false;
        }
        k = k + 1;
    }
    proof {
        assert(s@.subrange(at as int, at + needle@.len()) =~= needle@);
    }
    true
}

/// Finds `needle` in `s` at or after `from`.
pub fn find(s: &Vec<char>, needle: &Vec<char>, from: usize) -> (r: Option<usize>)
    requires
        from <= s.len(),
    ensures
        match r {
            Some(i) => first_at(s@, needle@, from as int, i as int),
            None => forall|j: int| from <= j ==> !occurs_at(s@, needle@, j),
        },
        position(s@, needle@, from as int) == (match r {
            Some(i) => Some(i as int),
            None => None,
        }),
{
    let mut i: usize = from;
    while i < s.len()
        invariant
            from <= i <= s.len(),
            forall|j: int| from <= j < i ==> !occurs_at(s@, needle@, j),
        decreases s.len() - i,
    {
        if stands_at(s, needle, i) {
            proof {
                lemma_position(s@, needle@, from as int, i as int);
            }
            return Some(i);
        }
        i = i + 1;
    }
    if stands_at(s, needle, i) {
        proof {
            lemma_position(s@, needle@, from as int, i as int);
        }
        Some(i)
    } else {
        None
    }
}

/// Whether `needle` stands somewhere in `s`.
pub fn contains(s: &Vec<char>, needle: &str) -> (r: bool)
    ensures
        r == has_text(s@, needle@),
{
    let n = chars_of(needle);
    match find(s, &n, 0) {
        Some(i) => true,
        None => false,
    }
}

/// Whether the characters spell `t`.
pub fn spells(s: &Vec<char>, t: &str) -> (r: bool)
    ensures
        r == (s@ == t@),
{
    let n = chars_of(t);
    if n.len() != s.len() {
        return false;
    }
    let r = stands_at(s, &n, 0);
    proof {
        assert(s@.subrange(0, s@.len() as int) =~= s@);
    }
    r
}

/// The number that a run of digits writes, read from the left.
pub open spec fn digits_value(s: Seq<char>, radix: nat) -> Option<nat>
    decreases s.len(),
{
    if s.len() == 0 {
        Some(0)
    } else {
        match (digits_value(s.drop_last(), radix), digit_value(s.last(), radix)) {
            (Some(hi), Some(lo)) => Some(hi * radix + lo),
            _ => None,
        }
    }
}

/// An unsigned number: an optional plus sign and at least one digit.
pub open spec fn unsigned_value(s: Seq<char>, radix: nat) -> Option<nat> {
    let body = if s.len() > 0 && s[0] == '+' {
        s.drop_first()
    } else {
        s
    };
    if body.len() == 0 {
        None
    } else {
        digits_value(body, radix)
    }
}

/// A signed decimal number: an optional sign and at least one digit.
pub open spec fn signed_value(s: Seq<char>) -> Option<int> {
    if s.len() > 0 && s[0] == '-' {
        if s.len() == 1 {
            None
        } else {
            match digits_value(s.drop_first(), 10) {
                Some(n) => Some(-(n as int)),
                None => None,
            }
        }
    } else {
        match unsigned_value(s, 10) {
            Some(n) => Some(n as int),
            None => None,
        }
    }
}

/// A value that does not exceed `max`.
pub open spec fn at_most(v: Option<nat>, max: nat) -> Option<nat> {
    match v {
        Some(n) => if n <= max {
            Some(n)
        } else {
            None
        },
        None => None,
    }
}

pub proof fn lemma_digits_value_monotone(s: Seq<char>, radix: nat, k: int)
    requires
        radix == 10 || radix == 16,
        0 <= k <= s.len(),
        digits_value(s, radix) is Some,
    ensures
        digits_value(s.take(k), radix) is Some,
        digits_value(s.take(k), radix)->0 <= digits_value(s, radix)->0,
    decreases s.len(),
{
    if k == s.len() {
        assert(s.take(k) =~= s);
    } else {
        lemma_digits_value_monotone(s.drop_last(), radix, k);
        assert(s.drop_last().take(k) =~= s.take(k));
        let hi = digits_value(s.drop_last(), radix)->0;
        assert(hi <= hi * radix) by (nonlinear_arith)
            requires
                radix >= 1,
        ;
    }
}

/// Reads the digits of `s` from position `from` on, up to a largest value.
fn read_digits(s: &Vec<char>, from: usize, radix: u64, max: u64) -> (r: Option<u64>)
    requires
        radix == 10 || radix == 16,
        from <= s.len(),
    ensures
        match r {
            Some(v) => at_most(digits_value(s@.skip(from as int), radix as nat), max as nat) == Some(
                v as nat,
            ),
            None => at_most(digits_value(s@.skip(from as int), radix as nat), max as nat) is None,
        },
{
    let ghost d = s@.skip(from as int);
    let mut v: u128 = 0;
    let mut i: usize = from;
    proof {
        assert(d.take(0) =~= Seq::<char>::empty());
    }
    while i < s.len()
        invariant
            radix == 10 || radix == 16,
            from <= i <= s.len(),
                v <= max,
            d == s@.skip(from as int),
            digits_value(d.take(i - from), radix as nat) == Some(v as nat),
        decreases s.len() - i,
    {
        let ghost k = i - from;
        proof {
            assert(d.take(k + 1).drop_last() =~= d.take(k));
            assert(d.take(k + 1).last() == s@[i as int]);
            if digits_value(d, radix as nat) is Some {
                lemma_digits_value_monotone(d, radix as nat, k + 1);
            }
        }
        match digit(s[i], radix) {
            Some(x) => {
                proof {
                    assert(v * radix <= u64::MAX * 16) by (nonlinear_arith)
                        requires
                            v <= u64::MAX,
                            radix <= 16,
                    ;
                }
                v = v * (radix as u128) + x as u128;
            },
            None => {
                return None;
            },
        }
        if v > max as u128 {
            return None;
        }
        i = i + 1;
    }
    proof {
        assert(d.take(i - from) =~= d);
    }
    Some(v as u64)
}

/// Reads an unsigned number up to `max`.
pub fn parse_unsigned(s: &Vec<char>, radix: u64, max: u64) -> (r: Option<u64>)
    requires
        radix == 10 || radix == 16,
    ensures
        match r {
            Some(v) => at_most(unsigned_value(s@, radix as nat), max as nat) == Some(v as nat),
            None => at_most(unsigned_value(s@, radix as nat), max as nat) is None,
        },
{
    proof {
        assert(s@.skip(0) =~= s@);
        if s@.len() > 0 {
            assert(s@.skip(1) =~= s@.drop_first());
        }
    }
    let from: usize = if s.len() > 0 && s[0] == '+' {
        1
    } else {
        0
    };
    if from == s.len() {
        return None;
    }
    read_digits(s, from, radix, max)
}

/// The 16-bit number that `s` writes, if it writes one.
pub open spec fn i16_value(s: Seq<char>) -> Option<i16> {
    match signed_value(s) {
        Some(n) => if i16::MIN <= n <= i16::MAX {
            Some(n as i16)
        } else {
            None
        },
        None => None,
    }
}

pub fn parse_i16(s: &Vec<char>) -> (r: Option<i16>)
    ensures
        r == i16_value(s@),
{
    if s.len() > 0 && s[0] == '-' {
        if s.len() == 1 {
            return None;
        }
        proof {
            assert(s@.skip(1) =~= s@.drop_first());
        }
        match read_digits(s, 1, 10, 32_768) {
            Some(v) => Some((0 - (v as i32)) as i16),
            None => None,
        }
    } else {
        match parse_unsigned(s, 10, 32_767) {
            Some(v) => Some(v as i16),
            None => None,
        }
    }
}

// ---------------------------------------------------------------------- laws

/// What was written as digits is read back as the same number.
pub proof fn law_reading_undoes_digits(n: nat)
    ensures
        digits_value(digits(n), 10) == Some(n),
        digits(n).len() > 0,
        n < 10 <==> digits(n).len() == 1,
        n > 0 ==> digits(n)[0] != '0',
        forall|i: int| 0 <= i < digits(n).len() ==> '0' <= #[trigger] digits(n)[i] <= '9',
    decreases n,
{
    let s = digits(n);
    if n < 10 {
        assert(s.drop_last() =~= Seq::empty());
        assert(digits_value(Seq::empty(), 10) == Some(0nat));
        assert(digit_value(digit_char(n), 10) == Some(n));
    } else {
        law_reading_undoes_digits(n / 10);
        assert(s.drop_last() =~= digits(n / 10));
        assert(digit_value(digit_char(n % 10), 10) == Some(n % 10));
    }
}

/// An unsigned number is read with or without a plus sign, a signed one with its minus sign
/// too. Without a digit there is no number.
pub proof fn law_signs_are_read(n: nat)
    ensures
        unsigned_value(digits(n), 10) == Some(n),
        unsigned_value(seq!['+'] + digits(n), 10) == Some(n),
        signed_value(digits(n)) == Some(n as int),
        signed_value(seq!['+'] + digits(n)) == Some(n as int),
        signed_value(seq!['-'] + digits(n)) == Some(-(n as int)),
        unsigned_value(seq!['-'] + digits(n), 10) is None,
        unsigned_value(Seq::empty(), 10) is None,
        unsigned_value(seq!['+'], 10) is None,
        signed_value(Seq::empty()) is None,
        signed_value(seq!['-']) is None,
        n <= i16::MAX ==> i16_value(seq!['-'] + digits(n)) == Some((-(n as int)) as i16),
        n > 32768 ==> i16_value(seq!['-'] + digits(n)) is None,
{
    law_reading_undoes_digits(n);
    let plus = seq!['+'] + digits(n);
    let minus = seq!['-'] + digits(n);
    assert(plus.drop_first() =~= digits(n));
    assert(minus.drop_first() =~= digits(n));
    assert(seq!['+'].drop_first().len() == 0);
    lemma_no_minus(minus);
}

proof fn lemma_no_minus(s: Seq<char>)
    requires
        s.len() > 0,
        s[0] == '-',
    ensures
        digits_value(s, 10) is None,
    decreases s.len(),
{
    if s.len() > 1 {
        lemma_no_minus(s.drop_last());
    }
}

/// The digit that is read of a character: 0 to 9, and in hexadecimal a to f in either case;
/// every other character is none.
pub proof fn law_digits_are_read(c: char)
    ensures
        digit_value(c, 10) is Some <==> 48 <= c as u32 <= 57,
        digit_value(c, 10) matches Some(v) ==> v + 48 == c as u32,
        digit_value(c, 16) is Some <==> 48 <= c as u32 <= 57 || 97 <= c as u32 <= 102 || 65
            <= c as u32 <= 70,
        digit_value(c, 16) matches Some(v) ==> v < 16 && (v + 48 == c as u32 || v >= 10 && (v + 87
            == c as u32 || v + 55 == c as u32)),
{
}

/// A padded text is as long as asked for, or as the text where that is longer; the text
/// stands at its end, or at its start, and the rest is the filling.
pub proof fn law_padding_fills_up(s: Seq<char>, width: nat, fill: char)
    ensures
        ({
            let l = pad_left(s, width, fill);
            let r = pad_right(s, width);
            let n = if s.len() < width {
                width
            } else {
                s.len()
            };
            &&& l.len() == n && r.len() == n
            &&& l.skip(n - s.len()) == s && r.take(s.len() as int) == s
            &&& forall|i: int| 0 <= i < n - s.len() ==> #[trigger] l[i] == fill
            &&& forall|i: int| s.len() <= i < n ==> #[trigger] r[i] == ' '
        }),
{
    let n = pad_left(s, width, fill).len();
    assert(pad_left(s, width, fill).skip(n - s.len()) =~= s);
    assert(pad_right(s, width).take(s.len() as int) =~= s);
}

/// A number padded with zeros is still read as that number.
pub proof fn law_zeros_do_not_count(n: nat, width: nat)
    ensures
        digits_value(zero_padded(n, width), 10) == Some(n),
        zero_padded(n, width).len() >= width,
        digits(n).len() >= width ==> zero_padded(n, width) == digits(n),
{
    law_reading_undoes_digits(n);
    let k = if digits(n).len() < width {
        (width - digits(n).len()) as nat
    } else {
        0
    };
    lemma_leading_zeros(k, digits(n));
    assert(digits(n).len() >= width ==> zero_padded(n, width) =~= digits(n));
}

proof fn lemma_leading_zeros(k: nat, s: Seq<char>)
    ensures
        digits_value(Seq::new(k, |i: int| '0') + s, 10) == digits_value(s, 10),
    decreases k + s.len(),
{
    let zeros = Seq::new(k, |i: int| '0');
    let t = zeros + s;
    if s.len() > 0 {
        lemma_leading_zeros(k, s.drop_last());
        assert(t.drop_last() =~= zeros + s.drop_last());
    } else if k > 0 {
        let fewer = Seq::new((k - 1) as nat, |i: int| '0');
        lemma_leading_zeros((k - 1) as nat, s);
        assert(t.drop_last() =~= fewer + s);
        assert(t.last() == '0');
    } else {
        assert(t =~= s);
    }
}

/// Rounding goes to the nearest whole number: it is at most half away, and of two that are
/// equally near it is the even one.
pub proof fn law_rounding_is_to_the_nearest(num: nat, den: nat)
    requires
        den > 0,
    ensures
        ({
            let r = round_half_even(num, den);
            &&& 2 * num <= 2 * (r * den) + den
            &&& 2 * (r * den) <= 2 * num + den
            &&& 2 * num == 2 * (r * den) + den || 2 * (r * den) == 2 * num + den ==> r % 2 == 0
        }),
{
    let q = num / den;
    let r = num % den;
    vstd::arithmetic::div_mod::lemma_fundamental_div_mod(num as int, den as int);
    assert((q + 1) * den == q * den + den) by (nonlinear_arith);
    assert(den * q == q * den) by (nonlinear_arith);
}

/// A decimal text with `places` places is a whole number of units of that place, nearest to
/// what is written: its units before the point, and behind it `places` digits.
pub proof fn law_decimals_are_units(num: nat, den: nat, places: nat)
    requires
        den > 0,
        places > 0,
    ensures
        exists|whole: nat, part: nat|
            exact_text(num, den, places) == #[trigger] digits(whole) + "."@ + #[trigger]
            zero_padded(part, places) && part < pow10(places) && 2 * (num * pow10(places)) <= 2 * ((
            whole * pow10(places) + part) * den) + den && 2 * ((whole * pow10(places) + part) * den)
                <= 2 * (num * pow10(places)) + den,
{
    let p = pow10(places);
    lemma_pow10_positive(places);
    let r = round_half_even(num * p, den);
    law_rounding_is_to_the_nearest(num * p, den);
    let whole = r / p;
    let part = r % p;
    vstd::arithmetic::div_mod::lemma_fundamental_div_mod(r as int, p as int);
    vstd::arithmetic::div_mod::lemma_mod_bound(r as int, p as int);
    assert(p * whole == whole * p) by (nonlinear_arith);
    assert(whole * p + part == r);
    assert(exact_text(num, den, places) == digits(whole) + "."@ + zero_padded(part, places));
}

proof fn lemma_pow10_positive(n: nat)
    ensures
        pow10(n) > 0,
    decreases n,
{
    if n > 0 {
        lemma_pow10_positive((n - 1) as nat);
    }
}

/// Ten to a power is a one with as many zeros: each place more is ten times as much.
pub proof fn law_powers(n: nat)
    ensures
        pow10(0) == 1,
        pow10(n + 1) == 10 * pow10(n),
        two_to(0) == 1,
        two_to(n + 1) == 2 * two_to(n),
{
}

/// A double is the nearest to what it stands for: its whole number is what remains after
/// doubling until 53 binary digits are there, rounded to the nearest.
pub proof fn law_doubles_are_nearest(num: nat, den: nat)
    requires
        den > 0,
        num < 2 * 0x10_0000_0000_0000 * den,
    ensures
        ({
            let d = double_of(num, den);
            let scaled = num * two_to(d.1);
            &&& d.0 > 0 ==> {
                &&& scaled >= 0x10_0000_0000_0000 * den
                &&& d.1 > 0 ==> scaled < 2 * 0x10_0000_0000_0000 * den
                &&& 2 * scaled <= 2 * (d.0 * den) + den
                &&& 2 * (d.0 * den) <= 2 * scaled + den
            }
            &&& d.0 == 0 ==> num * two_to(112) < 0x10_0000_0000_0000 * den
        }),
{
    lemma_grown_scales(num, den, 0);
}

proof fn lemma_grown_scales(num: nat, den: nat, k: nat)
    requires
        den > 0,
        k <= 112,
        num < 2 * 0x10_0000_0000_0000 * den,
    ensures
        ({
            let d = grown(num, den, k);
            let scaled = num * two_to((d.1 - k) as nat);
            &&& k <= d.1 <= 112
            &&& d.0 > 0 ==> {
                &&& scaled >= 0x10_0000_0000_0000 * den
                &&& d.1 > k ==> scaled < 2 * 0x10_0000_0000_0000 * den
                &&& 2 * scaled <= 2 * (d.0 * den) + den
                &&& 2 * (d.0 * den) <= 2 * scaled + den
            }
            &&& d.0 == 0 ==> num * two_to((112 - k) as nat) < 0x10_0000_0000_0000 * den
        }),
    decreases FINEST - k,
{
    let s = 0x10_0000_0000_0000int;
    assert(num * two_to(0) == num) by (nonlinear_arith)
        requires
            two_to(0) == 1,
    ;
    if num >= SIGNIFICAND * den {
        law_rounding_is_to_the_nearest(num, den);
        let r = round_half_even(num, den);
        assert(r > 0) by (nonlinear_arith)
            requires
                2 * num <= 2 * (r * den) + den,
                num >= 0x10_0000_0000_0000 * den,
                den > 0,
                r >= 0,
        ;
    } else if k < FINEST {
        assert(2 * num < 2 * s * den) by (nonlinear_arith)
            requires
                num < s * den,
        ;
        lemma_grown_scales(2 * num, den, k + 1);
        let d = grown(2 * num, den, k + 1);
        let e = (d.1 - k) as nat;
        assert(two_to(e) == 2 * two_to((e - 1) as nat));
        assert((2 * num) * two_to((e - 1) as nat) == num * two_to(e)) by (nonlinear_arith)
            requires
                two_to(e) == 2 * two_to((e - 1) as nat),
        ;
        let f = (112 - k) as nat;
        assert((2 * num) * two_to((f - 1) as nat) == num * two_to(f)) by (nonlinear_arith)
            requires
                two_to(f) == 2 * two_to((f - 1) as nat),
        ;
        if e == 1 {
            assert(num * two_to(1) == 2 * num) by (nonlinear_arith)
                requires
                    two_to(1) == 2,
            ;
        }
    }
}

/// A text splits at every character that separates: into the pieces of what stands before
/// it and the pieces of what stands behind it. Without such a character it is one piece.
pub proof fn law_split_at_each_separator(a: Seq<char>, x: char, b: Seq<char>, sep: Separator)
    ensures
        sep.picks(x) ==> split_by(a.push(x) + b, sep) == split_by(a, sep) + split_by(b, sep),
        (forall|i: int| 0 <= i < a.len() ==> !sep.picks(#[trigger] a[i])) ==> split_by(a, sep)
            == seq![a],
    decreases a.len() + b.len(),
{
    if forall|i: int| 0 <= i < a.len() ==> !sep.picks(#[trigger] a[i]) {
        if a.len() > 0 {
            let d = a.drop_last();
            assert forall|i: int| 0 <= i < d.len() implies !sep.picks(#[trigger] d[i]) by {
                assert(!sep.picks(a[i]));
            }
            law_split_at_each_separator(d, x, Seq::empty(), sep);
            assert(!sep.picks(a[a.len() - 1]));
            assert(split_by(a, sep) =~= seq![d.push(a.last())]);
            assert(d.push(a.last()) =~= a);
        } else {
            assert(a =~= Seq::empty());
        }
    }
    if sep.picks(x) {
        let t = a.push(x) + b;
        if b.len() == 0 {
            assert(t.drop_last() =~= a);
            assert(split_by(t, sep) =~= split_by(a, sep) + split_by(b, sep));
        } else {
            let e = b.drop_last();
            law_split_at_each_separator(a, x, e, sep);
            lemma_split_by_len(e, sep);
            assert(t.drop_last() =~= a.push(x) + e);
            assert(t.last() == b.last());
            let front = split_by(a, sep) + split_by(e, sep);
            assert(front.last() == split_by(e, sep).last());
            assert(front.drop_last() =~= split_by(a, sep) + split_by(e, sep).drop_last());
            assert(split_by(t, sep) =~= split_by(a, sep) + split_by(b, sep));
        }
    }
}

/// A separator is the character that was asked for, white space, or either.
pub proof fn law_separators(c: char, x: char)
    ensures
        Separator::Char(x).picks(c) <==> c == x,
        Separator::Space.picks(c) <==> is_space(c),
        Separator::SpaceOr(x).picks(c) <==> is_space(c) || c == x,
        is_space(' ') && is_space('\t') && is_space('\n') && is_space('\r'),
        33 <= c as u32 <= 126 ==> !is_space(c),
{
}

/// The pieces that are not empty are those of the first list and then those of the second;
/// an empty piece is none, any other is one.
pub proof fn law_empty_pieces_are_dropped(a: Seq<Seq<char>>, b: Seq<Seq<char>>, p: Seq<char>)
    ensures
        non_empty(a + b) == non_empty(a) + non_empty(b),
        p.len() == 0 ==> non_empty(seq![p]) == Seq::<Seq<char>>::empty(),
        p.len() > 0 ==> non_empty(seq![p]) == seq![p],
    decreases b.len(),
{
    let one = seq![p];
    assert(one.drop_last() =~= Seq::empty());
    assert(one.last() == p);
    assert(non_empty(one.drop_last()).len() == 0);
    assert(non_empty(one) =~= if p.len() == 0 {
        Seq::<Seq<char>>::empty()
    } else {
        seq![p]
    });
    if b.len() == 0 {
        assert(a + b =~= a);
        assert(non_empty(a) + non_empty(b) =~= non_empty(a));
    } else {
        law_empty_pieces_are_dropped(a, b.drop_last(), p);
        assert((a + b).drop_last() =~= a + b.drop_last());
        assert((a + b).last() == b.last());
        assert(non_empty(a + b) =~= non_empty(a) + non_empty(b));
    }
}

/// The words of a text are the words of its parts where white space stands between these,
/// and a text without white space is one word.
pub proof fn law_words_stand_apart(a: Seq<char>, x: char, b: Seq<char>)
    ensures
        is_space(x) ==> words(a.push(x) + b) == words(a) + words(b),
        a.len() > 0 && (forall|i: int| 0 <= i < a.len() ==> !is_space(#[trigger] a[i])) ==> words(
            a,
        ) == seq![a],
        words(Seq::empty()) == Seq::<Seq<char>>::empty(),
{
    law_split_at_each_separator(a, x, b, Separator::Space);
    law_empty_pieces_are_dropped(
        split_by(a, Separator::Space),
        split_by(b, Separator::Space),
        a,
    );
    if forall|i: int| 0 <= i < a.len() ==> !is_space(#[trigger] a[i]) {
        assert forall|i: int| 0 <= i < a.len() implies !Separator::Space.picks(
            #[trigger] a[i],
        ) by {
            assert(!is_space(a[i]));
        }
    }
    law_empty_pieces_are_dropped(Seq::empty(), Seq::empty(), Seq::empty());
}

/// Trimming takes the white space off both ends and nothing else.
pub proof fn law_trimming(s: Seq<char>)
    ensures
        ({
            let t = trim(s);
            &&& t.len() > 0 ==> !is_space(t[0]) && !is_space(t.last())
            &&& exists|i: int, j: int|
                0 <= i <= j <= s.len() && t == #[trigger] s.subrange(i, j) && (forall|k: int|
                    0 <= k < i ==> is_space(#[trigger] s[k])) && (forall|k: int|
                    j <= k < s.len() ==> is_space(#[trigger] s[k]))
        }),
{
    let i = lemma_trim_start(s);
    let u = trim_start(s);
    let j = lemma_trim_end(u);
    let t = trim(s);
    assert(t =~= s.subrange(i, i + j));
    assert forall|k: int| i + j <= k < s.len() implies is_space(#[trigger] s[k]) by {
        assert(u[k - i] == s[k]);
    }
    if t.len() > 0 {
        assert(t[0] == u[0]);
    }
}

proof fn lemma_trim_start(s: Seq<char>) -> (i: int)
    ensures
        0 <= i <= s.len(),
        trim_start(s) == s.skip(i),
        forall|k: int| 0 <= k < i ==> is_space(#[trigger] s[k]),
        i < s.len() ==> !is_space(s[i]),
    decreases s.len(),
{
    if s.len() > 0 && is_space(s[0]) {
        let d = s.drop_first();
        let i = lemma_trim_start(d);
        assert(d.skip(i) =~= s.skip(i + 1));
        assert forall|k: int| 0 <= k < i + 1 implies is_space(#[trigger] s[k]) by {
            if k > 0 {
                assert(d[k - 1] == s[k]);
            }
        }
        i + 1
    } else {
        assert(s.skip(0) =~= s);
        0
    }
}

proof fn lemma_trim_end(s: Seq<char>) -> (j: int)
    ensures
        0 <= j <= s.len(),
        trim_end(s) == s.take(j),
        forall|k: int| j <= k < s.len() ==> is_space(#[trigger] s[k]),
        j > 0 ==> !is_space(s[j - 1]),
    decreases s.len(),
{
    if s.len() > 0 && is_space(s.last()) {
        let d = s.drop_last();
        let j = lemma_trim_end(d);
        assert(d.take(j) =~= s.take(j));
        assert forall|k: int| j <= k < s.len() implies is_space(#[trigger] s[k]) by {
            if k < d.len() {
                assert(d[k] == s[k]);
            }
        }
        j
    } else {
        assert(s.take(s.len() as int) =~= s);
        s.len() as int
    }
}

/// Where the characters `c` are taken off the end, the rest does not end with one, and
/// nothing else is gone.
pub proof fn law_trimming_a_character(s: Seq<char>, c: char)
    ensures
        ({
            let t = trim_end_char(s, c);
            &&& t.len() <= s.len() && t == s.take(t.len() as int)
            &&& t.len() > 0 ==> t.last() != c
            &&& forall|k: int| t.len() <= k < s.len() ==> #[trigger] s[k] == c
        }),
    decreases s.len(),
{
    let t = trim_end_char(s, c);
    if s.len() > 0 && s.last() == c {
        let d = s.drop_last();
        law_trimming_a_character(d, c);
        assert(d.take(t.len() as int) =~= s.take(t.len() as int));
        assert forall|k: int| t.len() <= k < s.len() implies #[trigger] s[k] == c by {
            if k < d.len() {
                assert(d[k] == s[k]);
            }
        }
    } else {
        assert(s.take(s.len() as int) =~= s);
    }
}

/// A line is what stands before a newline, without a carriage return at its end; what
/// follows the last newline is a line of its own unless it is empty.
pub proof fn law_lines_end_with_newlines(line: Seq<char>, rest: Seq<char>)
    requires
        forall|i: int| 0 <= i < line.len() ==> #[trigger] line[i] != '\n',
    ensures
        lines(line.push('\n') + rest) == seq![chop_return(line)] + lines(rest),
        lines(Seq::empty()) == Seq::<Seq<char>>::empty(),
        line.len() > 0 ==> lines(line) == seq![line],
        chop_return(line.push('\r')) == line,
        line.len() == 0 || line.last() != '\r' ==> chop_return(line) == line,
{
    let sep = Separator::Char('\n');
    assert forall|i: int| 0 <= i < line.len() implies !sep.picks(#[trigger] line[i]) by {
        assert(line[i] != '\n');
    }
    law_split_at_each_separator(line, '\n', rest, sep);
    lemma_split_by_len(rest, sep);
    let f = |l: Seq<char>| chop_return(l);
    let pieces = split_by(line.push('\n') + rest, sep);
    let behind = split_by(rest, sep);
    assert(pieces =~= seq![line] + behind);
    assert(pieces.last() == behind.last());
    assert(pieces.drop_last() =~= seq![line] + behind.drop_last());
    assert(pieces.drop_last().map_values(f) =~= seq![chop_return(line)]
        + behind.drop_last().map_values(f));
    assert(lines(line.push('\n') + rest) =~= seq![chop_return(line)] + lines(rest));
    assert(split_by(Seq::empty(), sep) =~= seq![Seq::<char>::empty()]);
    assert(lines(Seq::empty()) =~= Seq::<Seq<char>>::empty());
    assert(lines(line) =~= if line.len() > 0 {
        seq![line]
    } else {
        Seq::<Seq<char>>::empty()
    });
    assert(line.push('\r').drop_last() =~= line);
}

/// A text is found where it stands first, at or behind the place from which it is looked
/// for.
pub proof fn law_first_place_is_found(s: Seq<char>, needle: Seq<char>, from: int)
    requires
        0 <= from,
    ensures
        position(s, needle, from) matches Some(i) ==> {
            &&& from <= i && i + needle.len() <= s.len()
            &&& s.subrange(i, i + needle.len()) == needle
            &&& forall|j: int|
                from <= j < i ==> #[trigger] s.subrange(j, j + needle.len()) != needle
        },
{
    if position(s, needle, from) is Some {
        let i = choose|i: int| first_at(s, needle, from, i);
        assert(first_at(s, needle, from, i));
        assert forall|j: int| from <= j < i implies #[trigger] s.subrange(j, j + needle.len())
            != needle by {
            assert(!occurs_at(s, needle, j));
        }
    }
}

/// A double beyond 53 binary digits is the nearest multiple of a power of two: what is halved
/// until 53 digits are left is rounded, and doubled again.
pub proof fn law_large_doubles_are_nearest(num: nat, den: nat) -> (j: nat)
    requires
        den > 0,
        num >= 2 * 0x10_0000_0000_0000 * den,
    ensures
        double_of(num, den).1 == 0,
        double_of(num, den).0 == two_to(j) * round_half_even(num, den * two_to(j)),
        0x10_0000_0000_0000 * (den * two_to(j)) <= num < 2 * 0x10_0000_0000_0000 * (den * two_to(
            j,
        )),
{
    assert(2 * 0x10_0000_0000_0000 * den >= 0x10_0000_0000_0000 * den) by (nonlinear_arith)
        requires
            den > 0,
    ;
    lemma_shrunk_halves(num, den)
}

proof fn lemma_shrunk_halves(num: nat, den: nat) -> (j: nat)
    requires
        den > 0,
        num >= 0x10_0000_0000_0000 * den,
    ensures
        shrunk(num, den) == two_to(j) * round_half_even(num, den * two_to(j)),
        0x10_0000_0000_0000 * (den * two_to(j)) <= num < 2 * 0x10_0000_0000_0000 * (den * two_to(
            j,
        )),
    decreases
            (if num >= 2 * SIGNIFICAND * den {
                num - 2 * SIGNIFICAND * den + 1
            } else {
                0
            }),
{
    let s = 0x10_0000_0000_0000int;
    if num < 2 * SIGNIFICAND * den {
        assert(den * two_to(0) == den) by (nonlinear_arith)
            requires
                two_to(0) == 1,
        ;
        0
    } else {
        assert(2 * s * (2 * den) == 2 * (2 * s * den)) by (nonlinear_arith);
        assert(2 * s * den > 0) by (nonlinear_arith)
            requires
                den > 0,
                s > 0,
        ;
        let k = lemma_shrunk_halves(num, 2 * den);
        let j = k + 1;
        assert(two_to(j) == 2 * two_to(k));
        assert(2 * den * two_to(k) == den * two_to(j)) by (nonlinear_arith)
            requires
                two_to(j) == 2 * two_to(k),
        ;
        let r = round_half_even(num, den * two_to(j));
        assert(2 * (two_to(k) * r) == two_to(j) * r) by (nonlinear_arith)
            requires
                two_to(j) == 2 * two_to(k),
        ;
        j
    }
}

/// White space is what Unicode calls so: tab to carriage return, the blank, next line, the
/// no-break space, the Ogham space mark, the spaces of U+2000 to U+200A, the line and the
/// paragraph separator, the narrow no-break space, the mathematical and the ideographic
/// space.
pub proof fn law_white_space(c: char)
    ensures
        is_space(c) <==> {
            let n = c as u32;
            ||| 9 <= n <= 13
            ||| n == 32 || n == 133 || n == 160 || n == 5760
            ||| 8192 <= n <= 8202
            ||| n == 8232 || n == 8233 || n == 8239 || n == 8287 || n == 12288
        },
{
}

} // verus!
