//! Reading the strength of the Wi-Fi signal out of what the system tools print.
use vstd::prelude::*;
use crate::text::{
    chars_of, contains, digits, has_text, i16_value, law_reading_undoes_digits,
    law_split_at_each_separator, lines, lines_of, lowercase_of, parse_i16, split, split_by,
    split_char, split_on, string_of, to_lowercase, trim, trim_end, trim_end_char, trim_start,
    trimmed, trimmed_end_char, views, words, words_of, Separator,
};

verus! {

/// From 4 (excellent) down to 0 (unusable).
pub open spec fn grade_of(rssi: int) -> u8 {
    if rssi >= -55 {
        4
    } else if rssi >= -67 {
        3
    } else if rssi >= -75 {
        2
    } else if rssi >= -85 {
        1
    } else {
        0
    }
}

pub fn rssi_grade(rssi: i16) -> (g: u8)
    ensures
        g == grade_of(rssi as int),
{
    if rssi >= -55 {
        4
    } else if rssi >= -67 {
        3
    } else if rssi >= -75 {
        2
    } else if rssi >= -85 {
        1
    } else {
        0
    }
}

/// The word for a grade.
pub open spec fn verdict_of(g: u8) -> Seq<char> {
    if g == 4 {
        "excellent"@
    } else if g == 3 {
        "good"@
    } else if g == 2 {
        "fair"@
    } else if g == 1 {
        "weak"@
    } else {
        "bad"@
    }
}

pub fn rssi_verdict_grade(g: u8) -> (s: &'static str)
    ensures
        s@ == verdict_of(g),
{
    if g == 4 {
        "excellent"
    } else if g == 3 {
        "good"
    } else if g == 2 {
        "fair"
    } else if g == 1 {
        "weak"
    } else {
        "bad"
    }
}

/// A stronger signal never gets a lower grade.
pub proof fn law_grade_is_monotone(a: int, b: int)
    requires
        a <= b,
    ensures
        grade_of(a) <= grade_of(b),
        grade_of(b) <= 4,
{
}

// -------------------------------------------------------------------- macOS

/// The first token that is a negative number.
pub open spec fn first_negative(toks: Seq<Seq<char>>) -> Option<i16>
    decreases toks.len(),
{
    if toks.len() == 0 {
        None
    } else if i16_value(toks[0]) is Some && i16_value(toks[0])->0 < 0 {
        i16_value(toks[0])
    } else {
        first_negative(toks.drop_first())
    }
}

/// The signal strength in one line, given the line in lower case: the first
/// negative number of a line that speaks of a signal.
pub open spec fn line_rssi(line: Seq<char>, lower: Seq<char>) -> Option<i16> {
    if has_text(lower, "rssi"@) || has_text(lower, "signal"@) {
        first_negative(split_by(line, Separator::SpaceOr(':')))
    } else {
        None
    }
}

/// The signal strength in the first line that has one.
pub open spec fn first_rssi(ls: Seq<Seq<char>>) -> Option<i16>
    decreases ls.len(),
{
    if ls.len() == 0 {
        None
    } else if line_rssi(ls[0], lowercase_of(ls[0])) is Some {
        line_rssi(ls[0], lowercase_of(ls[0]))
    } else {
        first_rssi(ls.drop_first())
    }
}

/// The signal strength in one line, whose lower case is `lower`.
pub fn rssi_in_line(line: &Vec<char>, lower: &Vec<char>) -> (r: Option<i16>)
    ensures
        r == line_rssi(line@, lower@),
{
    if !contains(lower, "rssi") && !contains(lower, "signal") {
        return None;
    }
    let toks = split(line, Separator::SpaceOr(':'));
    let ghost all = views(toks@);
    let mut i: usize = 0;
    proof {
        assert(all.skip(0) =~= all);
    }
    while i < toks.len()
        invariant
            i <= toks.len(),
            all == views(toks@),
            all == split_by(line@, Separator::SpaceOr(':')),
            has_text(lower@, "rssi"@) || has_text(lower@, "signal"@),
            first_negative(all) == first_negative(all.skip(i as int)),
        decreases toks.len() - i,
    {
        proof {
            assert(all.skip(i as int).drop_first() =~= all.skip(i + 1));
            assert(all.skip(i as int)[0] == toks@[i as int]@);
        }
        if let Some(v) = parse_i16(&toks[i]) {
            if v < 0 {
                return Some(v);
            }
        }
        i = i + 1;
    }
    None
}

/// The signal strength in dBm in what `system_profiler SPAirPortDataType` prints.
pub fn parse_rssi(stdout: &str) -> (r: Option<i16>)
    ensures
        r == first_rssi(lines(stdout@)),
{
    let ls = lines_of(&chars_of(stdout));
    let ghost all = views(ls@);
    let mut i: usize = 0;
    proof {
        assert(all.skip(0) =~= all);
    }
    while i < ls.len()
        invariant
            i <= ls.len(),
            all == views(ls@),
            all == lines(stdout@),
            first_rssi(all) == first_rssi(all.skip(i as int)),
        decreases ls.len() - i,
    {
        proof {
            assert(all.skip(i as int).drop_first() =~= all.skip(i + 1));
            assert(all.skip(i as int)[0] == ls@[i as int]@);
        }
        let line = string_of(&ls[i]);
        let lower = to_lowercase(line.as_str());
        let found = rssi_in_line(&ls[i], &chars_of(lower.as_str()));
        if found.is_some() {
            return found;
        }
        i = i + 1;
    }
    None
}

// -------------------------------------------------------------------- Linux

/// A number below zero.
pub open spec fn negative(v: Option<i16>) -> Option<i16> {
    if v is Some && v->0 < 0 {
        v
    } else {
        None
    }
}

/// The level in the third word of the third line, without its trailing dots, if
/// it is negative.
pub open spec fn wireless_level(s: Seq<char>) -> Option<i16> {
    let ls = lines(s);
    if ls.len() < 3 || words(ls[2]).len() < 3 {
        None
    } else {
        negative(i16_value(trim_end_char(words(ls[2])[2], '.')))
    }
}

/// The signal strength in dBm in the text of `/proc/net/wireless`.
pub fn parse_proc_net_wireless(s: &str) -> (r: Option<i16>)
    ensures
        r == wireless_level(s@),
{
    let ls = lines_of(&chars_of(s));
    proof {
        assert(views(ls@).len() == ls.len());
    }
    if ls.len() < 3 {
        return None;
    }
    let ws = words_of(&ls[2]);
    proof {
        assert(views(ls@)[2] == ls@[2]@);
        assert(views(ws@).len() == ws.len());
    }
    if ws.len() < 3 {
        return None;
    }
    proof {
        assert(views(ws@)[2] == ws@[2]@);
    }
    match parse_i16(&trimmed_end_char(&ws[2], '.')) {
        Some(v) => if v < 0 {
            Some(v)
        } else {
            None
        },
        None => None,
    }
}

// ------------------------------------------------------------------ Windows

/// The quality in percent behind the first colon of a line, as dBm: 0 percent is
/// -100, 100 percent is -50.
pub open spec fn quality_level(line: Seq<char>) -> Option<i16> {
    let parts = split_on(line, ':');
    if parts.len() < 2 {
        None
    } else {
        match i16_value(trim_end_char(trim(parts[1]), '%')) {
            Some(pct) => if 0 <= pct <= 100 {
                Some((pct as int / 2 - 100) as i16)
            } else {
                None
            },
            None => None,
        }
    }
}

/// The first line that speaks of a signal decides; `lowers` holds the lines in
/// lower case.
pub open spec fn first_quality(ls: Seq<Seq<char>>, lowers: Seq<Seq<char>>) -> Option<i16>
    decreases ls.len(),
{
    if ls.len() == 0 {
        None
    } else if has_text(lowers[0], "signal"@) {
        quality_level(ls[0])
    } else {
        first_quality(ls.drop_first(), lowers.drop_first())
    }
}

/// The lines, each in lower case.
pub open spec fn all_lowercase(ls: Seq<Seq<char>>) -> Seq<Seq<char>> {
    ls.map_values(|l: Seq<char>| lowercase_of(l))
}

/// The quality in one line, as dBm.
pub fn quality_in_line(line: &Vec<char>) -> (r: Option<i16>)
    ensures
        r == quality_level(line@),
{
    let parts = split_char(line, ':');
    proof {
        assert(views(parts@).len() == parts.len());
    }
    if parts.len() < 2 {
        return None;
    }
    proof {
        assert(views(parts@)[1] == parts@[1]@);
    }
    match parse_i16(&trimmed_end_char(&trimmed(&parts[1]), '%')) {
        Some(pct) => if 0 <= pct && pct <= 100 {
            Some(pct / 2 - 100)
        } else {
            None
        },
        None => None,
    }
}

/// The quality in the lines `ls`, whose lower cases are `lowers`.
pub fn quality_in_lines(ls: &Vec<Vec<char>>, lowers: &Vec<Vec<char>>) -> (r: Option<i16>)
    requires
        ls.len() == lowers.len(),
    ensures
        r == first_quality(views(ls@), views(lowers@)),
{
    let ghost all = views(ls@);
    let ghost low = views(lowers@);
    let mut i: usize = 0;
    proof {
        assert(all.skip(0) =~= all);
        assert(low.skip(0) =~= low);
    }
    while i < ls.len()
        invariant
            i <= ls.len(),
            ls.len() == lowers.len(),
            all == views(ls@),
            low == views(lowers@),
            first_quality(all, low) == first_quality(all.skip(i as int), low.skip(i as int)),
        decreases ls.len() - i,
    {
        proof {
            assert(all.skip(i as int).drop_first() =~= all.skip(i + 1));
            assert(low.skip(i as int).drop_first() =~= low.skip(i + 1));
            assert(all.skip(i as int)[0] == ls@[i as int]@);
            assert(low.skip(i as int)[0] == lowers@[i as int]@);
        }
        if contains(&lowers[i], "signal") {
            return quality_in_line(&ls[i]);
        }
        i = i + 1;
    }
    None
}

/// The signal strength in dBm in what `netsh wlan show interfaces` prints.
pub fn parse_netsh_quality(stdout: &str) -> (r: Option<i16>)
    ensures
        r == first_quality(lines(stdout@), all_lowercase(lines(stdout@))),
{
    let ls = lines_of(&chars_of(stdout));
    let mut lowers: Vec<Vec<char>> = Vec::new();
    let mut i: usize = 0;
    while i < ls.len()
        invariant
            i <= ls.len(),
            lowers.len() == i,
            forall|k: int|
                0 <= k < i ==> (#[trigger] lowers@[k])@ == lowercase_of(views(ls@)[k]),
        decreases ls.len() - i,
    {
        let line = string_of(&ls[i]);
        let lower = to_lowercase(line.as_str());
        proof {
            assert(views(ls@)[i as int] == ls@[i as int]@);
        }
        lowers.push(chars_of(lower.as_str()));
        i = i + 1;
    }
    proof {
        assert(views(lowers@) =~= all_lowercase(views(ls@)));
    }
    quality_in_lines(&ls, &lowers)
}

/// A quality in percent always gives a level between -100 and -50 dBm.
pub proof fn law_quality_range(line: Seq<char>)
    ensures
        quality_level(line) is Some ==> -100 <= quality_level(line)->0 <= -50,
{
}

/// The limits of the grades: -55 dBm and more is excellent, -67 good, -75 fair, -85 weak,
/// and less than that bad.
pub proof fn law_grades_have_their_limits(rssi: int)
    ensures
        grade_of(rssi) >= 4 <==> rssi >= -55,
        grade_of(rssi) >= 3 <==> rssi >= -67,
        grade_of(rssi) >= 2 <==> rssi >= -75,
        grade_of(rssi) >= 1 <==> rssi >= -85,
{
}

/// The strength in a line is its first negative number: whatever stands before it is none,
/// and what stands behind it does not count.
pub proof fn law_first_negative_number_counts(toks: Seq<Seq<char>>, k: int)
    requires
        0 <= k < toks.len(),
        i16_value(toks[k]) matches Some(v) && v < 0,
        forall|i: int|
            0 <= i < k ==> (i16_value(#[trigger] toks[i]) matches Some(v) ==> v >= 0),
    ensures
        first_negative(toks) == i16_value(toks[k]),
    decreases k,
{
    if k > 0 {
        let d = toks.drop_first();
        assert(i16_value(toks[0]) is Some ==> i16_value(toks[0])->0 >= 0);
        assert forall|i: int| 0 <= i < k - 1 implies (i16_value(#[trigger] d[i]) matches Some(v)
            ==> v >= 0) by {
            assert(d[i] == toks[i + 1]);
        }
        law_first_negative_number_counts(d, k - 1);
    }
}

/// A line without a negative number has no strength, nor has one that speaks of no signal.
pub proof fn law_no_negative_no_strength(toks: Seq<Seq<char>>, line: Seq<char>, lower: Seq<char>)
    ensures
        (forall|i: int|
            0 <= i < toks.len() ==> (i16_value(#[trigger] toks[i]) matches Some(v) ==> v >= 0))
            ==> first_negative(toks) is None,
        !has_text(lower, "rssi"@) && !has_text(lower, "signal"@) ==> line_rssi(line, lower)
            is None,
        has_text(lower, "rssi"@) || has_text(lower, "signal"@) ==> line_rssi(line, lower)
            == first_negative(split_by(line, Separator::SpaceOr(':'))),
    decreases toks.len(),
{
    if forall|i: int|
        0 <= i < toks.len() ==> (i16_value(#[trigger] toks[i]) matches Some(v) ==> v >= 0) {
        if toks.len() > 0 {
            let d = toks.drop_first();
            assert(i16_value(toks[0]) is Some ==> i16_value(toks[0])->0 >= 0);
            assert forall|i: int| 0 <= i < d.len() implies (i16_value(
                #[trigger] d[i],
            ) matches Some(v) ==> v >= 0) by {
                assert(d[i] == toks[i + 1]);
            }
            law_no_negative_no_strength(d, line, lower);
        }
    }
}

/// Lines without a strength are passed over; the first line that has one decides.
pub proof fn law_first_line_with_a_strength_decides(first: Seq<char>, rest: Seq<Seq<char>>)
    ensures
        line_rssi(first, lowercase_of(first)) is Some ==> first_rssi(seq![first] + rest)
            == line_rssi(first, lowercase_of(first)),
        line_rssi(first, lowercase_of(first)) is None ==> first_rssi(seq![first] + rest)
            == first_rssi(rest),
        first_rssi(Seq::empty()) is None,
{
    assert((seq![first] + rest).drop_first() =~= rest);
    assert((seq![first] + rest)[0] == first);
}

/// A quality of `pct` percent stands half way between -100 and -50 dBm for each percent, in
/// whole dBm; what is no percentage has no level.
pub proof fn law_quality_becomes_strength(head: Seq<char>, pct: nat)
    requires
        forall|i: int| 0 <= i < head.len() ==> #[trigger] head[i] != ':',
        pct <= 30_000,
    ensures
        ({
            let line = head.push(':') + seq![' '] + digits(pct).push('%');
            &&& pct <= 100 ==> (quality_level(line) matches Some(v) && 2 * v <= pct - 200 < 2 * v
                + 2)
            &&& pct > 100 ==> quality_level(line) is None
        }),
{
    let sep = Separator::Char(':');
    let num = digits(pct).push('%');
    let value = seq![' '] + num;
    let line = head.push(':') + seq![' '] + num;
    assert(line =~= head.push(':') + value);
    law_reading_undoes_digits(pct);
    assert forall|i: int| 0 <= i < head.len() implies !sep.picks(#[trigger] head[i]) by {}
    assert forall|i: int| 0 <= i < value.len() implies !sep.picks(#[trigger] value[i]) by {
        if 0 < i < value.len() - 1 {
            assert(value[i] == digits(pct)[i - 1]);
        }
    }
    law_split_at_each_separator(head, ':', value, sep);
    law_split_at_each_separator(value, ':', Seq::empty(), sep);
    let parts = split_on(line, ':');
    assert(parts =~= seq![head, value]);
    assert(parts[1] == value);
    assert(value.drop_first() =~= num);
    assert(num[0] == digits(pct)[0]);
    assert(trim_start(num) == num);
    assert(trim_start(value) == num);
    assert(num.last() == '%');
    assert(trim_end(num) == num);
    assert(trim(value) == num);
    assert(num.drop_last() =~= digits(pct));
    assert('0' <= digits(pct)[digits(pct).len() - 1] <= '9');
    assert(trim_end_char(digits(pct), '%') == digits(pct));
    assert(trim_end_char(num, '%') == digits(pct));
    assert('0' <= digits(pct)[0] <= '9');
    assert(i16_value(digits(pct)) == Some(pct as i16));
}

/// Every grade has a word of its own.
pub proof fn law_grades_have_their_words(g: u8, h: u8)
    requires
        g <= 4,
        h <= 4,
        verdict_of(g) == verdict_of(h),
    ensures
        g == h,
{
    reveal_strlit("excellent");
    reveal_strlit("good");
    reveal_strlit("fair");
    reveal_strlit("weak");
    reveal_strlit("bad");
    let a = verdict_of(g);
    assert(g == 4 ==> a[0] == 'e');
    assert(g == 3 ==> a[0] == 'g');
    assert(g == 2 ==> a[0] == 'f');
    assert(g == 1 ==> a[0] == 'w');
    assert(g == 0 ==> a[0] == 'b');
    assert(h == 4 ==> a[0] == 'e');
    assert(h == 3 ==> a[0] == 'g');
    assert(h == 2 ==> a[0] == 'f');
    assert(h == 1 ==> a[0] == 'w');
    assert(h == 0 ==> a[0] == 'b');
}

/// The first line that speaks of a signal decides on the quality; lines before it are passed
/// over, and those behind it do not count, whatever they say.
pub proof fn law_first_signal_line_decides(
    first: Seq<char>,
    lower: Seq<char>,
    rest: Seq<Seq<char>>,
    lowers: Seq<Seq<char>>,
)
    ensures
        has_text(lower, "signal"@) ==> first_quality(seq![first] + rest, seq![lower] + lowers)
            == quality_level(first),
        !has_text(lower, "signal"@) ==> first_quality(seq![first] + rest, seq![lower] + lowers)
            == first_quality(rest, lowers),
        first_quality(Seq::empty(), lowers) is None,
{
    assert((seq![first] + rest).drop_first() =~= rest);
    assert((seq![lower] + lowers).drop_first() =~= lowers);
    assert((seq![first] + rest)[0] == first);
    assert((seq![lower] + lowers)[0] == lower);
}

/// The kernel's table has the level in the third word of its third line, with or without a
/// dot behind it; what is not negative is no level.
pub proof fn law_wireless_table(s: Seq<char>, v: i16)
    ensures
        lines(s).len() < 3 ==> wireless_level(s) is None,
        lines(s).len() >= 3 && words(lines(s)[2]).len() < 3 ==> wireless_level(s) is None,
        lines(s).len() >= 3 && words(lines(s)[2]).len() >= 3 && i16_value(
            trim_end_char(words(lines(s)[2])[2], '.'),
        ) == Some(v) ==> wireless_level(s) == (if v < 0 {
            Some(v)
        } else {
            None
        }),
{
}

} // verus!
