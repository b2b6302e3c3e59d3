//! Reading the default gateway out of what the system tools print.
use vstd::prelude::*;
use crate::text::{
    at_most, chars_of, dec, digit_char, digit_value, digits, digits_value,
    law_reading_undoes_digits, law_split_at_each_separator, lines, lines_of, parse_unsigned, spells, split_by, split_char, split_on, unsigned_value, views, words, words_of,
    Separator,
};

verus! {

/// The number that one part of a dotted address writes: one to three digits, no
/// leading zero, at most 255.
pub open spec fn octet_value(s: Seq<char>) -> Option<nat> {
    if 1 <= s.len() <= 3 && (s.len() == 1 || s[0] != '0') && s[0] != '+' {
        at_most(digits_value(s, 10), 255)
    } else {
        None
    }
}

/// The four numbers of a dotted address.
pub open spec fn ipv4_value(s: Seq<char>) -> Option<(nat, nat, nat, nat)> {
    let p = split_on(s, '.');
    if p.len() != 4 {
        None
    } else {
        match (octet_value(p[0]), octet_value(p[1]), octet_value(p[2]), octet_value(p[3])) {
            (Some(a), Some(b), Some(c), Some(d)) => Some((a, b, c, d)),
            _ => None,
        }
    }
}

/// A dotted address.
pub open spec fn dotted(ip: (nat, nat, nat, nat)) -> Seq<char> {
    digits(ip.0) + "."@ + digits(ip.1) + "."@ + digits(ip.2) + "."@ + digits(ip.3)
}

/// The address 0.0.0.0, which stands for no address.
pub open spec fn unspecified(ip: (nat, nat, nat, nat)) -> bool {
    ip == (0nat, 0nat, 0nat, 0nat)
}

/// `s` in canonical form, if it is a usable address.
pub open spec fn usable_gateway(s: Seq<char>) -> Option<Seq<char>> {
    match ipv4_value(s) {
        Some(ip) => if unspecified(ip) {
            None
        } else {
            Some(dotted(ip))
        },
        None => None,
    }
}

fn parse_octet(s: &Vec<char>) -> (r: Option<u64>)
    ensures
        match r {
            Some(v) => octet_value(s@) == Some(v as nat) && v <= 255,
            None => octet_value(s@) is None,
        },
{
    if s.len() < 1 || s.len() > 3 || (s.len() > 1 && s[0] == '0') || s[0] == '+' {
        return None;
    }
    parse_unsigned(s, 10, 255)
}

fn dotted_text(a: u64, b: u64, c: u64, d: u64) -> (s: String)
    ensures
        s@ == dotted((a as nat, b as nat, c as nat, d as nat)),
{
    let mut s = dec(a as u128);
    s.append(".");
    s.append(dec(b as u128).as_str());
    s.append(".");
    s.append(dec(c as u128).as_str());
    s.append(".");
    s.append(dec(d as u128).as_str());
    s
}

/// The view of an optional string.
pub open spec fn text_of(s: Option<String>) -> Option<Seq<char>> {
    match s {
        Some(t) => Some(t@),
        None => None,
    }
}

fn valid_gw(tok: &Vec<char>) -> (r: Option<String>)
    ensures
        text_of(r) == usable_gateway(tok@),
{
    let p = split_char(tok, '.');
    proof {
        assert(views(p@).len() == p.len());
    }
    if p.len() != 4 {
        return None;
    }
    proof {
        assert(views(p@)[0] == p@[0]@);
        assert(views(p@)[1] == p@[1]@);
        assert(views(p@)[2] == p@[2]@);
        assert(views(p@)[3] == p@[3]@);
    }
    match (parse_octet(&p[0]), parse_octet(&p[1]), parse_octet(&p[2]), parse_octet(&p[3])) {
        (Some(a), Some(b), Some(c), Some(d)) => if a == 0 && b == 0 && c == 0 && d == 0 {
            None
        } else {
            Some(dotted_text(a, b, c, d))
        },
        _ => None,
    }
}

// -------------------------------------------------------------------- macOS

/// The gateway that one line of `route -n get default` names.
pub open spec fn route_get_line(line: Seq<char>) -> Option<Seq<char>> {
    let w = words(line);
    if w.len() >= 2 && w[0] == "gateway:"@ {
        usable_gateway(w[1])
    } else {
        None
    }
}

/// What `pick` finds in the first line in which it finds something.
pub open spec fn first_found(
    ls: Seq<Seq<char>>,
    pick: spec_fn(Seq<char>) -> Option<Seq<char>>,
) -> Option<Seq<char>>
    decreases ls.len(),
{
    if ls.len() == 0 {
        None
    } else if pick(ls[0]) is Some {
        pick(ls[0])
    } else {
        first_found(ls.drop_first(), pick)
    }
}

/// The gateway in what `route -n get default` prints.
pub fn parse_route_get(stdout: &str) -> (r: Option<String>)
    ensures
        text_of(r) == first_found(lines(stdout@), |l: Seq<char>| route_get_line(l)),
{
    let ghost pick = |l: Seq<char>| route_get_line(l);
    let ls = lines_of(&chars_of(stdout));
    let ghost all = views(ls@);
    let mut i: usize = 0;
    proof {
        assert(all.skip(0) =~= all);
    }
    while i < ls.len()
        invariant
            i <= ls.len(),
            all == views(ls@),
            all == lines(stdout@),
            pick == (|l: Seq<char>| route_get_line(l)),
            first_found(all, pick) == first_found(all.skip(i as int), pick),
        decreases ls.len() - i,
    {
        let w = words_of(&ls[i]);
        proof {
            assert(all.skip(i as int).drop_first() =~= all.skip(i + 1));
            assert(all.skip(i as int)[0] == ls@[i as int]@);
            assert(views(w@).len() == w.len());
            if w.len() >= 2 {
                assert(views(w@)[0] == w@[0]@);
                assert(views(w@)[1] == w@[1]@);
            }
        }
        if w.len() >= 2 && spells(&w[0], "gateway:") {
            let gw = valid_gw(&w[1]);
            if gw.is_some() {
                return gw;
            }
        }
        i = i + 1;
    }
    None
}

// -------------------------------------------------------------------- Linux

/// The four bytes of a 32-bit number, lowest first.
pub open spec fn low_first(n: nat) -> (nat, nat, nat, nat) {
    (n % 256, n / 256 % 256, n / 65536 % 256, n / 16777216 % 256)
}

/// The gateway in the entries of `/proc/net/route`: the first default route whose
/// gateway is set. An entry for a default route whose gateway is no hexadecimal
/// number ends the search.
pub open spec fn route_entries(ls: Seq<Seq<char>>) -> Option<Seq<char>>
    decreases ls.len(),
{
    if ls.len() == 0 {
        None
    } else {
        let w = words(ls[0]);
        if w.len() < 3 || w[1] != "00000000"@ {
            route_entries(ls.drop_first())
        } else {
            match at_most(unsigned_value(w[2], 16), 0xFFFF_FFFF) {
                None => None,
                Some(raw) => if unspecified(low_first(raw)) {
                    route_entries(ls.drop_first())
                } else {
                    Some(dotted(low_first(raw)))
                },
            }
        }
    }
}

/// The lines behind the heading.
pub open spec fn body(ls: Seq<Seq<char>>) -> Seq<Seq<char>> {
    if ls.len() == 0 {
        ls
    } else {
        ls.drop_first()
    }
}

/// The gateway in the text of `/proc/net/route`.
pub fn parse_proc_net_route(s: &str) -> (r: Option<String>)
    ensures
        text_of(r) == route_entries(body(lines(s@))),
{
    let ls = lines_of(&chars_of(s));
    let ghost all = views(ls@);
    let mut i: usize = 1;
    proof {
        if all.len() > 0 {
            assert(all.skip(1) =~= all.drop_first());
        }
    }
    while i < ls.len()
        invariant
            1 <= i,
            all == views(ls@),
            all == lines(s@),
            ls.len() > 0 ==> i <= ls.len(),
            ls.len() > 0 ==> route_entries(body(all)) == route_entries(all.skip(i as int)),
        decreases ls.len() - i,
    {
        let w = words_of(&ls[i]);
        proof {
            assert(all.skip(i as int).drop_first() =~= all.skip(i + 1));
            assert(all.skip(i as int)[0] == ls@[i as int]@);
            assert(views(w@).len() == w.len());
            if w.len() >= 3 {
                assert(views(w@)[1] == w@[1]@);
                assert(views(w@)[2] == w@[2]@);
            }
        }
        if w.len() >= 3 && spells(&w[1], "00000000") {
            let raw: u64 = match parse_unsigned(&w[2], 16, 0xFFFF_FFFF) {
                Some(v) => v,
                None => {
                    return None;
                },
            };
            let b0: u64 = raw % 256;
            let b1: u64 = raw / 256 % 256;
            let b2: u64 = raw / 65536 % 256;
            let b3: u64 = raw / 16777216 % 256;
            if b0 != 0 || b1 != 0 || b2 != 0 || b3 != 0 {
                return Some(dotted_text(b0, b1, b2, b3));
            }
        }
        i = i + 1;
    }
    None
}

// ------------------------------------------------------------------ Windows

/// The gateway that one line of `route print -4` names.
pub open spec fn route_print_line(line: Seq<char>) -> Option<Seq<char>> {
    let w = words(line);
    if w.len() >= 3 && w[0] == "0.0.0.0"@ && w[1] == "0.0.0.0"@ {
        usable_gateway(w[2])
    } else {
        None
    }
}

/// The gateway in what `route print -4` prints.
pub fn parse_route_print(stdout: &str) -> (r: Option<String>)
    ensures
        text_of(r) == first_found(lines(stdout@), |l: Seq<char>| route_print_line(l)),
{
    let ghost pick = |l: Seq<char>| route_print_line(l);
    let ls = lines_of(&chars_of(stdout));
    let ghost all = views(ls@);
    let mut i: usize = 0;
    proof {
        assert(all.skip(0) =~= all);
    }
    while i < ls.len()
        invariant
            i <= ls.len(),
            all == views(ls@),
            all == lines(stdout@),
            pick == (|l: Seq<char>| route_print_line(l)),
            first_found(all, pick) == first_found(all.skip(i as int), pick),
        decreases ls.len() - i,
    {
        let w = words_of(&ls[i]);
        proof {
            assert(all.skip(i as int).drop_first() =~= all.skip(i + 1));
            assert(all.skip(i as int)[0] == ls@[i as int]@);
            assert(views(w@).len() == w.len());
            if w.len() >= 3 {
                assert(views(w@)[0] == w@[0]@);
                assert(views(w@)[1] == w@[1]@);
                assert(views(w@)[2] == w@[2]@);
            }
        }
        if w.len() >= 3 && spells(&w[0], "0.0.0.0") && spells(&w[1], "0.0.0.0") {
            let gw = valid_gw(&w[2]);
            if gw.is_some() {
                return gw;
            }
        }
        i = i + 1;
    }
    None
}

// --------------------------------------------------------------------- laws

/// The pieces with `c` between them.
pub open spec fn join(p: Seq<Seq<char>>, c: char) -> Seq<char>
    decreases p.len(),
{
    if p.len() == 0 {
        Seq::empty()
    } else if p.len() == 1 {
        p[0]
    } else {
        join(p.drop_last(), c).push(c) + p.last()
    }
}

/// Splitting at a character and joining with it gives the text back.
pub proof fn law_join_undoes_split(s: Seq<char>, c: char)
    ensures
        join(split_on(s, c), c) == s,
        split_on(s, c).len() >= 1,
    decreases s.len(),
{
    let sep = Separator::Char(c);
    if s.len() == 0 {
        assert(split_by(s, sep) =~= seq![Seq::<char>::empty()]);
        assert(join(split_by(s, sep), c) =~= s);
    } else {
        law_join_undoes_split(s.drop_last(), c);
        let front = split_by(s.drop_last(), sep);
        if s.last() == c {
            let p = front.push(Seq::empty());
            assert(p.drop_last() =~= front);
            assert(join(p, c) =~= join(front, c).push(c));
            assert(s =~= s.drop_last().push(c));
        } else {
            let p = front.drop_last().push(front.last().push(s.last()));
            assert(p.drop_last() =~= front.drop_last());
            assert(join(p, c) =~= join(front, c).push(s.last()));
            assert(s =~= s.drop_last().push(s.last()));
        }
    }
}

/// A number without leading zeros is written as it was read.
pub proof fn law_digits_undo_reading(s: Seq<char>)
    requires
        s.len() >= 1,
        s.len() == 1 || s[0] != '0',
        digits_value(s, 10) is Some,
    ensures
        digits(digits_value(s, 10)->0) == s,
        s.len() > 1 ==> digits_value(s, 10)->0 >= 10,
        s[0] != '0' ==> digits_value(s, 10)->0 > 0,
    decreases s.len(),
{
    let lo = digit_value(s.last(), 10)->0;
    assert(digit_char(lo) == s.last());
    if s.len() == 1 {
        assert(s.drop_last().len() == 0);
        assert(digits(lo) =~= s);
    } else {
        law_digits_undo_reading(s.drop_last());
        let hi = digits_value(s.drop_last(), 10)->0;
        assert((hi * 10 + lo) / 10 == hi && (hi * 10 + lo) % 10 == lo);
        assert(digits(hi * 10 + lo) =~= s);
    }
}

/// A gateway is reported as it was written.
pub proof fn law_gateway_is_reported_verbatim(s: Seq<char>)
    requires
        usable_gateway(s) is Some,
    ensures
        usable_gateway(s) == Some(s),
{
    let p = split_on(s, '.');
    law_join_undoes_split(s, '.');
    law_digits_undo_reading(p[0]);
    law_digits_undo_reading(p[1]);
    law_digits_undo_reading(p[2]);
    law_digits_undo_reading(p[3]);
    reveal_with_fuel(join, 5);
    reveal_strlit(".");
    assert(p.drop_last().drop_last().drop_last()[0] == p[0]);
    assert(dotted(ipv4_value(s)->0) =~= join(p, '.'));
}

/// An address that is written with dots is read back, whatever its four numbers; one
/// whose numbers are all zero is no gateway.
pub proof fn law_addresses_are_read_back(a: nat, b: nat, c: nat, d: nat)
    requires
        a <= 255 && b <= 255 && c <= 255 && d <= 255,
    ensures
        ipv4_value(dotted((a, b, c, d))) == Some((a, b, c, d)),
        a + b + c + d > 0 ==> usable_gateway(dotted((a, b, c, d))) == Some(dotted((a, b, c, d))),
        a + b + c + d == 0 ==> usable_gateway(dotted((a, b, c, d))) is None,
{
    lemma_octet(a);
    lemma_octet(b);
    lemma_octet(c);
    lemma_octet(d);
    lemma_dotted_splits((a, b, c, d));
}

proof fn lemma_dotted_splits(ip: (nat, nat, nat, nat))
    requires
        ip.0 <= 255 && ip.1 <= 255 && ip.2 <= 255 && ip.3 <= 255,
    ensures
        split_on(dotted(ip), '.') == seq![digits(ip.0), digits(ip.1), digits(ip.2), digits(ip.3)],
{
    let sep = Separator::Char('.');
    let (pa, pb, pc, pd) = (digits(ip.0), digits(ip.1), digits(ip.2), digits(ip.3));
    let s3 = pc.push('.') + pd;
    let s2 = pb.push('.') + s3;
    let s1 = pa.push('.') + s2;
    reveal_strlit(".");
    assert(dotted(ip) =~= s1);
    assert(split_by(pd, sep) == seq![pd]) by {
        lemma_octet(ip.3);
        law_split_at_each_separator(pd, '.', Seq::empty(), sep);
    }
    assert(split_by(s3, sep) =~= seq![pc, pd]) by {
        lemma_octet(ip.2);
        law_split_at_each_separator(pc, '.', pd, sep);
    }
    assert(split_by(s2, sep) =~= seq![pb, pc, pd]) by {
        lemma_octet(ip.1);
        law_split_at_each_separator(pb, '.', s3, sep);
    }
    assert(split_by(s1, sep) =~= seq![pa, pb, pc, pd]) by {
        lemma_octet(ip.0);
        law_split_at_each_separator(pa, '.', s2, sep);
    }
}

proof fn lemma_octet(n: nat)
    requires
        n <= 255,
    ensures
        octet_value(digits(n)) == Some(n),
        forall|i: int|
            0 <= i < digits(n).len() ==> !Separator::Char('.').picks(#[trigger] digits(n)[i]),
{
    law_reading_undoes_digits(n);
    assert forall|i: int| 0 <= i < digits(n).len() implies !Separator::Char('.').picks(
        #[trigger] digits(n)[i],
    ) by {
        assert('0' <= digits(n)[i] <= '9');
    }
    assert('0' <= digits(n)[0] <= '9');
    if n >= 10 {
        law_reading_undoes_digits(n / 10);
        if n >= 100 {
            law_reading_undoes_digits(n / 100);
            assert(n / 10 / 10 == n / 100);
        }
        assert(digits(n).len() <= 3);
    }
}

/// What is not four numbers with dots between them, each of one to three digits without a
/// leading zero and at most 255, is no address.
pub proof fn law_address_parts(s: Seq<char>)
    ensures
        split_on(s, '.').len() != 4 ==> ipv4_value(s) is None,
        octet_value(s) matches Some(n) ==> n <= 255 && 1 <= s.len() <= 3 && digits(n) == s,
{
    if octet_value(s) is Some {
        law_digits_undo_reading(s);
    }
}

/// The bytes of a number, lowest first, make up the number again.
pub proof fn law_bytes_make_up_the_number(n: nat)
    requires
        n <= 0xFFFF_FFFF,
    ensures
        ({
            let (a, b, c, d) = low_first(n);
            a <= 255 && b <= 255 && c <= 255 && d <= 255 && a + 256 * b + 65_536 * c + 16_777_216
                * d == n
        }),
{
    assert(n / 65536 == n / 256 / 256);
    assert(n / 16777216 == n / 65536 / 256);
}

/// The first line in which something is found decides; lines without it are passed over.
pub proof fn law_first_find_decides(
    first: Seq<char>,
    rest: Seq<Seq<char>>,
    pick: spec_fn(Seq<char>) -> Option<Seq<char>>,
)
    ensures
        pick(first) is Some ==> first_found(seq![first] + rest, pick) == pick(first),
        pick(first) is None ==> first_found(seq![first] + rest, pick) == first_found(rest, pick),
        first_found(Seq::empty(), pick) is None,
{
    assert((seq![first] + rest).drop_first() =~= rest);
    assert((seq![first] + rest)[0] == first);
}

/// A line names a gateway where it begins with the word for it, or with a default route, and
/// a usable address follows.
pub proof fn law_lines_that_name_a_gateway(line: Seq<char>)
    ensures
        route_get_line(line) is Some <==> words(line).len() >= 2 && words(line)[0] == "gateway:"@
            && usable_gateway(words(line)[1]) is Some,
        route_get_line(line) matches Some(gw) ==> gw == words(line)[1],
        route_print_line(line) is Some <==> words(line).len() >= 3 && words(line)[0] == "0.0.0.0"@
            && words(line)[1] == "0.0.0.0"@ && usable_gateway(words(line)[2]) is Some,
        route_print_line(line) matches Some(gw) ==> gw == words(line)[2],
{
    if words(line).len() >= 2 && usable_gateway(words(line)[1]) is Some {
        law_gateway_is_reported_verbatim(words(line)[1]);
    }
    if words(line).len() >= 3 && usable_gateway(words(line)[2]) is Some {
        law_gateway_is_reported_verbatim(words(line)[2]);
    }
}

/// In the kernel's table the first default route with a gateway decides: other routes and
/// default routes without one are passed over, and an entry that cannot be read ends the
/// search.
pub proof fn law_default_route_decides(entry: Seq<char>, rest: Seq<Seq<char>>)
    ensures
        ({
            let w = words(entry);
            let default_route = w.len() >= 3 && w[1] == "00000000"@;
            let found = route_entries(seq![entry] + rest);
            &&& !default_route ==> found == route_entries(rest)
            &&& default_route ==> match unsigned_value(w[2], 16) {
                None => found is None,
                Some(n) => if n > 0xFFFF_FFFF {
                    found is None
                } else if n == 0 {
                    found == route_entries(rest)
                } else {
                    found == Some(dotted(low_first(n)))
                },
            }
            &&& route_entries(Seq::empty()) is None
        }),
{
    assert((seq![entry] + rest).drop_first() =~= rest);
    assert((seq![entry] + rest)[0] == entry);
    let w = words(entry);
    if w.len() >= 3 && unsigned_value(w[2], 16) is Some && unsigned_value(w[2], 16)->0
        <= 0xFFFF_FFFF {
        law_bytes_make_up_the_number(unsigned_value(w[2], 16)->0);
    }
}

/// The heading of the kernel's table is no entry.
pub proof fn law_heading_is_skipped(heading: Seq<char>, rest: Seq<Seq<char>>)
    ensures
        body(seq![heading] + rest) == rest,
        body(Seq::empty()).len() == 0,
{
    assert((seq![heading] + rest).drop_first() =~= rest);
}

} // verus!
