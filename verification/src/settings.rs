//! The settings that come from the environment, and a monitor made from them.
use vstd::prelude::*;
use crate::app::{
    app_new, opt_str, App, AppV, Level,
};
use crate::config::{config_default, Config};
use crate::dns::{names_view, DnsMatrix, MatrixV};
use crate::probe::{extra_new, probe_new, ExtraV, ProbeV};
use crate::state::LinkState;
use crate::text::{
    at_most, chars_of, copied, dec, digits, digits_value, is_space, keep_non_empty,
    law_empty_pieces_are_dropped, law_reading_undoes_digits, law_signs_are_read,
    law_split_at_each_separator, law_trimming, non_empty, parse_unsigned, split_char, split_on, string_of, trim, trimmed, unsigned_value, views,
    Separator,
};
use crate::time::{Clock, Duration, Instant};

verus! {

/// A probe as it is written down: label, host and port.
pub struct ProbeSpec {
    pub label: String,
    pub host: String,
    pub port: u16,
}

/// What a [`ProbeSpec`] holds.
pub struct SpecV {
    pub label: Seq<char>,
    pub host: Seq<char>,
    pub port: u16,
}

impl View for ProbeSpec {
    type V = SpecV;

    open spec fn view(&self) -> SpecV {
        SpecV { label: self.label@, host: self.host@, port: self.port }
    }
}

pub open spec fn specs_view(v: Seq<ProbeSpec>) -> Seq<SpecV> {
    Seq::new(v.len(), |i: int| v[i]@)
}

/// Pieces from the third on, joined by colons again.
pub open spec fn rest_of(parts: Seq<Seq<char>>) -> Seq<char>
    decreases parts.len(),
{
    if parts.len() <= 2 {
        Seq::empty()
    } else if parts.len() == 3 {
        parts[2]
    } else {
        rest_of(parts.drop_last()) + ":"@ + parts.last()
    }
}

/// "label:host:port" with blanks around any of them; nothing if a part is missing
/// or the port is not a number of 16 bits.
pub open spec fn probe_in(piece: Seq<char>) -> Option<SpecV> {
    let parts = split_on(piece, ':');
    if parts.len() < 3 {
        None
    } else {
        match at_most(unsigned_value(trim(rest_of(parts)), 10), u16::MAX as nat) {
            Some(port) => Some(
                SpecV { label: trim(parts[0]), host: trim(parts[1]), port: port as u16 },
            ),
            None => None,
        }
    }
}

/// The probes that are written down well, in order.
pub open spec fn probes_in(pieces: Seq<Seq<char>>) -> Seq<SpecV>
    decreases pieces.len(),
{
    if pieces.len() == 0 {
        Seq::empty()
    } else {
        match probe_in(pieces.last()) {
            Some(p) => probes_in(pieces.drop_last()).push(p),
            None => probes_in(pieces.drop_last()),
        }
    }
}

/// The probes of a list; commas stand between them.
pub open spec fn probe_list(raw: Seq<char>) -> Seq<SpecV> {
    probes_in(split_on(raw, ','))
}

fn joined_rest(parts: &Vec<Vec<char>>) -> (r: Vec<char>)
    ensures
        r@ == rest_of(views(parts@)),
{
    let mut r: Vec<char> = Vec::new();
    let mut i: usize = 2;
    let ghost vs = views(parts@);
    proof {
        reveal_strlit(":");
        if parts@.len() <= 2 {
            assert(r@ =~= rest_of(vs));
        } else {
            assert(r@ =~= rest_of(vs.take(2)));
        }
    }
    while i < parts.len()
        invariant
            2 <= i,
            vs == views(parts@),
            i <= parts.len() || parts.len() <= 2,
            i <= parts.len() ==> r@ == rest_of(vs.take(i as int)),
            parts.len() <= 2 ==> r@ == rest_of(vs),
        decreases parts.len() - i,
    {
        let ghost before = r@;
        proof {
            reveal_strlit(":");
            assert(vs.take(i + 1).drop_last() =~= vs.take(i as int));
        }
        if i > 2 {
            r.push(':');
        }
        let mut piece = copied(&parts[i]);
        r.append(&mut piece);
        proof {
            if i > 2 {
                assert(r@ =~= before + ":"@ + vs[i as int]);
            } else {
                assert(r@ =~= vs[2]);
            }
        }
        i = i + 1;
    }
    proof {
        if parts@.len() > 2 {
            assert(vs.take(i as int) =~= vs);
        }
    }
    r
}

fn parse_probe(piece: &Vec<char>) -> (r: Option<ProbeSpec>)
    ensures
        match r {
            Some(p) => probe_in(piece@) == Some(p@),
            None => probe_in(piece@) is None,
        },
{
    let parts = split_char(piece, ':');
    if parts.len() < 3 {
        return None;
    }
    let port = trimmed(&joined_rest(&parts));
    match parse_unsigned(&port, 10, 65_535) {
        Some(n) => Some(
            ProbeSpec {
                label: string_of(&trimmed(&parts[0])),
                host: string_of(&trimmed(&parts[1])),
                port: n as u16,
            },
        ),
        None => None,
    }
}

/// Reads a list of probes; what is not well written is left out.
pub fn parse_probes(raw: &str) -> (r: Vec<ProbeSpec>)
    ensures
        specs_view(r@) == probe_list(raw@),
{
    let pieces = split_char(&chars_of(raw), ',');
    let ghost vs = views(pieces@);
    let mut r: Vec<ProbeSpec> = Vec::new();
    let mut i: usize = 0;
    proof {
        assert(specs_view(r@) =~= probes_in(vs.take(0)));
    }
    while i < pieces.len()
        invariant
            i <= pieces.len(),
            vs == views(pieces@),
            specs_view(r@) == probes_in(vs.take(i as int)),
        decreases pieces.len() - i,
    {
        let ghost before = r@;
        proof {
            assert(vs.take(i + 1).drop_last() =~= vs.take(i as int));
        }
        if let Some(p) = parse_probe(&pieces[i]) {
            r.push(p);
            proof {
                assert(specs_view(r@) =~= specs_view(before).push(p@));
            }
        }
        i = i + 1;
    }
    proof {
        assert(vs.take(i as int) =~= vs);
    }
    r
}

/// The targets that vote by default.
pub open spec fn default_targets() -> Seq<SpecV> {
    seq![
        SpecV { label: "cf"@, host: "1.1.1.1"@, port: 443 },
        SpecV { label: "gg"@, host: "8.8.8.8"@, port: 443 },
        SpecV { label: "q9"@, host: "9.9.9.9"@, port: 443 },
    ]
}

pub fn default_primaries() -> (r: Vec<ProbeSpec>)
    ensures
        specs_view(r@) == default_targets(),
{
    let mut r: Vec<ProbeSpec> = Vec::new();
    r.push(
        ProbeSpec {
            label: String::from_str("cf"),
            host: String::from_str("1.1.1.1"),
            port: 443,
        },
    );
    r.push(
        ProbeSpec {
            label: String::from_str("gg"),
            host: String::from_str("8.8.8.8"),
            port: 443,
        },
    );
    r.push(
        ProbeSpec {
            label: String::from_str("q9"),
            host: String::from_str("9.9.9.9"),
            port: 443,
        },
    );
    proof {
        assert(specs_view(r@) =~= default_targets());
    }
    r
}

// --------------------------------------------------------------------- names

pub open spec fn trim_all(pieces: Seq<Seq<char>>) -> Seq<Seq<char>> {
    Seq::new(pieces.len(), |i: int| trim(pieces[i]))
}

/// The names of a list; blanks around a name and empty names do not count.
pub open spec fn name_list(raw: Seq<char>) -> Seq<Seq<char>> {
    non_empty(trim_all(split_on(raw, ',')))
}

pub fn parse_names(raw: &str) -> (r: Vec<String>)
    ensures
        names_view(r@) == name_list(raw@),
{
    let pieces = split_char(&chars_of(raw), ',');
    let ghost vs = views(pieces@);
    let mut clean: Vec<Vec<char>> = Vec::new();
    let mut i: usize = 0;
    while i < pieces.len()
        invariant
            i <= pieces.len(),
            vs == views(pieces@),
            clean@.len() == i,
            forall|k: int| 0 <= k < i ==> (#[trigger] clean@[k])@ == trim(vs[k]),
        decreases pieces.len() - i,
    {
        clean.push(trimmed(&pieces[i]));
        i = i + 1;
    }
    proof {
        assert(views(clean@) =~= trim_all(vs));
    }
    let kept = keep_non_empty(clean);
    let ghost ks = views(kept@);
    let mut r: Vec<String> = Vec::new();
    let mut j: usize = 0;
    while j < kept.len()
        invariant
            j <= kept.len(),
            ks == views(kept@),
            r@.len() == j,
            forall|k: int| 0 <= k < j ==> (#[trigger] r@[k])@ == ks[k],
        decreases kept.len() - j,
    {
        r.push(string_of(&kept[j]));
        j = j + 1;
    }
    proof {
        assert(names_view(r@) =~= ks);
    }
    r
}

// ------------------------------------------------------------------- numbers

/// A number of 64 bits, or a default.
pub open spec fn number_or(raw: Option<Seq<char>>, default: u64) -> u64 {
    match raw {
        Some(s) => match at_most(unsigned_value(s, 10), u64::MAX as nat) {
            Some(n) => n as u64,
            None => default,
        },
        None => default,
    }
}

fn number(raw: Option<&str>, default: u64) -> (n: u64)
    ensures
        n == number_or(opt_str(raw), default),
{
    match raw {
        Some(s) => match parse_unsigned(&chars_of(s), 10, u64::MAX) {
            Some(n) => n,
            None => default,
        },
        None => default,
    }
}

/// The configuration with the values of `PM_TIMEOUT_MS` and `PM_REMINDER_S`, before
/// it is put in range.
pub open spec fn config_with(timeout: Option<Seq<char>>, reminder: Option<Seq<char>>) -> Config {
    let d = config_default();
    Config {
        timeout_ms: number_or(timeout, d.timeout_ms),
        reminder_interval: Duration { ns: (number_or(reminder, 30) * 1_000_000_000) as u128 },
        ..d
    }
}

impl Config {
    pub fn from_settings(timeout: Option<&str>, reminder: Option<&str>) -> (c: Self)
        ensures
            c == config_with(opt_str(timeout), opt_str(reminder)),
    {
        let mut c = Config::default();
        c.timeout_ms = number(timeout, c.timeout_ms);
        c.reminder_interval = Duration::from_secs(number(reminder, 30));
        c
    }
}

// ------------------------------------------------------------------- startup

/// The settings of a monitor, as the environment gives them.
pub struct Settings<'a> {
    pub mode: Option<&'a str>,
    pub prealert: Option<&'a str>,
    pub names: Option<&'a str>,
    pub targets: Option<&'a str>,
    pub extras: Option<&'a str>,
}

/// The targets: those of the setting, or the default ones without it.
pub open spec fn targets_of(raw: Option<Seq<char>>) -> Seq<SpecV> {
    match raw {
        Some(s) => probe_list(s),
        None => default_targets(),
    }
}

pub open spec fn fresh_probes(specs: Seq<SpecV>, now: Instant) -> Seq<ProbeV> {
    Seq::new(specs.len(), |i: int| probe_new(specs[i].label, specs[i].host, specs[i].port, now))
}

pub open spec fn fresh_extras(specs: Seq<SpecV>) -> Seq<ExtraV> {
    Seq::new(specs.len(), |i: int| extra_new(specs[i].label, specs[i].host, specs[i].port))
}

/// The entry that introduces a target.
pub open spec fn member_text(s: SpecV) -> Seq<char> {
    "  ["@ + s.label + "] "@ + s.host + ":"@ + digits(s.port as nat) + "  (consensus member)"@
}

impl AppV {
    /// With the names of the setting, if it has any.
    pub open spec fn with_names(self, raw: Option<Seq<char>>) -> AppV {
        match raw {
            Some(s) => if name_list(s).len() > 0 {
                AppV { dns: MatrixV::fresh(self.dns.resolvers, name_list(s)), ..self }
            } else {
                self
            },
            None => self,
        }
    }

    /// With the extra probes of the setting, and an entry if there are any.
    pub open spec fn with_extras(self, raw: Option<Seq<char>>, unix_ms: u64) -> AppV {
        match raw {
            Some(s) => {
                let a = AppV { extras: fresh_extras(probe_list(s)), ..self };
                if a.extras.len() > 0 {
                    a.logged(
                        unix_ms,
                        Level::Info,
                        "extras: "@ + digits(a.extras.len()) + " probe(s)"@,
                    )
                } else {
                    a
                }
            },
            None => self,
        }
    }

    /// With an entry for each of the first `n` targets.
    pub open spec fn with_members(self, specs: Seq<SpecV>, n: nat, unix_ms: u64) -> AppV
        decreases n,
    {
        if n == 0 {
            self
        } else {
            self.with_members(specs, (n - 1) as nat, unix_ms).logged(
                unix_ms,
                Level::Info,
                member_text(specs[n - 1]),
            )
        }
    }

    /// With the entries that introduce the targets, the resolvers and the keys.
    pub open spec fn introduced(self, specs: Seq<SpecV>, unix_ms: u64) -> AppV {
        self.logged(
            unix_ms,
            Level::Info,
            "primary targets: "@ + digits(specs.len()),
        ).with_members(specs, specs.len(), unix_ms).logged(
            unix_ms,
            Level::Info,
            "dns matrix: "@ + digits(self.dns.resolvers.len()) + " resolvers × "@ + digits(
                self.dns.names.len(),
            ) + " domains  timeout "@ + digits(self.cfg.timeout_ms as nat) + "ms"@,
        ).logged(unix_ms, Level::Info, "keys: m/mute r/reset e/export t/traceroute q/quit"@)
    }
}

/// A monitor at the start.
pub open spec fn started(
    cfg: Config,
    clock: Clock,
    mode: Option<Seq<char>>,
    prealert: Option<Seq<char>>,
    names: Option<Seq<char>>,
    targets: Option<Seq<char>>,
    extras: Option<Seq<char>>,
) -> AppV {
    AppV {
        primaries: fresh_probes(targets_of(targets), clock.now),
        ..app_new(cfg, clock.now, mode, prealert).with_names(names)
    }.with_extras(extras, clock.unix_ms).introduced(targets_of(targets), clock.unix_ms)
}

impl App {
    fn set_names(&mut self, raw: Option<&str>)
        requires
            old(self).wf(),
        ensures
            final(self).wf(),
            final(self)@ == old(self)@.with_names(opt_str(raw)),
    {
        if let Some(s) = raw {
            let names = parse_names(s);
            if names.len() > 0 {
                let mut resolvers: Vec<(String, Option<String>)> = Vec::new();
                std::mem::swap(&mut resolvers, &mut self.dns.resolvers);
                self.dns = DnsMatrix::new(resolvers, names);
            }
        }
    }

    fn add_primaries(&mut self, specs: &Vec<ProbeSpec>, now: Instant)
        requires
            old(self).wf(),
            old(self)@.primaries.len() == 0,
        ensures
            final(self).wf(),
            final(self)@ == (AppV {
                primaries: fresh_probes(specs_view(specs@), now),
                ..old(self)@
            }),
    {
        let ghost all = specs_view(specs@);
        let mut i: usize = 0;
        proof {
            assert(self@.primaries =~= fresh_probes(all.take(0), now));
        }
        while i < specs.len()
            invariant
                i <= specs.len(),
                all == specs_view(specs@),
                self.wf(),
                self@ == (AppV { primaries: fresh_probes(all.take(i as int), now), ..old(self)@ }),
            decreases specs.len() - i,
        {
            self.add_primary(specs[i].label.as_str(), specs[i].host.as_str(), specs[i].port, now);
            proof {
                assert(fresh_probes(all.take(i + 1), now) =~= fresh_probes(
                    all.take(i as int),
                    now,
                ).push(
                    probe_new(
                        all[i as int].label,
                        all[i as int].host,
                        all[i as int].port,
                        now,
                    ),
                ));
            }
            i = i + 1;
        }
        proof {
            assert(all.take(i as int) =~= all);
        }
    }

    fn add_extras(&mut self, raw: Option<&str>, unix_ms: u64)
        requires
            old(self).wf(),
            old(self)@.extras.len() == 0,
        ensures
            final(self).wf(),
            final(self)@ == old(self)@.with_extras(opt_str(raw), unix_ms),
    {
        if let Some(s) = raw {
            let specs = parse_probes(s);
            let ghost all = specs_view(specs@);
            let mut i: usize = 0;
            proof {
                assert(self@.extras =~= fresh_extras(all.take(0)));
            }
            while i < specs.len()
                invariant
                    i <= specs.len(),
                    all == specs_view(specs@),
                    self.wf(),
                    self@ == (AppV { extras: fresh_extras(all.take(i as int)), ..old(self)@ }),
                decreases specs.len() - i,
            {
                self.add_extra(specs[i].label.as_str(), specs[i].host.as_str(), specs[i].port);
                proof {
                    assert(fresh_extras(all.take(i + 1)) =~= fresh_extras(
                        all.take(i as int),
                    ).push(
                        extra_new(all[i as int].label, all[i as int].host, all[i as int].port),
                    ));
                }
                i = i + 1;
            }
            proof {
                assert(all.take(i as int) =~= all);
            }
            if self.extras.len() > 0 {
                let mut msg = String::from_str("extras: ");
                msg.append(dec(self.extras.len() as u128).as_str());
                msg.append(" probe(s)");
                self.log(Level::Info, msg, unix_ms);
            }
        }
    }

    fn introduce(&mut self, specs: &Vec<ProbeSpec>, unix_ms: u64)
        requires
            old(self).wf(),
        ensures
            final(self).wf(),
            final(self)@ == old(self)@.introduced(specs_view(specs@), unix_ms),
    {
        let ghost all = specs_view(specs@);
        let mut count = String::from_str("primary targets: ");
        count.append(dec(specs.len() as u128).as_str());
        self.log(Level::Info, count, unix_ms);
        let ghost first = self@;
        let mut i: usize = 0;
        while i < specs.len()
            invariant
                i <= specs.len(),
                all == specs_view(specs@),
                self.wf(),
                self@ == first.with_members(all, i as nat, unix_ms),
                self@.dns == first.dns,
                self@.cfg == first.cfg,
            decreases specs.len() - i,
        {
            let mut msg = String::from_str("  [");
            msg.append(specs[i].label.as_str());
            msg.append("] ");
            msg.append(specs[i].host.as_str());
            msg.append(":");
            msg.append(dec(specs[i].port as u128).as_str());
            msg.append("  (consensus member)");
            proof {
                assert(msg@ =~= member_text(all[i as int]));
            }
            self.log(Level::Info, msg, unix_ms);
            i = i + 1;
        }
        let mut dns = String::from_str("dns matrix: ");
        dns.append(dec(self.dns.resolvers.len() as u128).as_str());
        dns.append(" resolvers × ");
        dns.append(dec(self.dns.names.len() as u128).as_str());
        dns.append(" domains  timeout ");
        dns.append(dec(self.cfg.timeout_ms as u128).as_str());
        dns.append("ms");
        self.log(Level::Info, dns, unix_ms);
        self.log(
            Level::Info,
            String::from_str("keys: m/mute r/reset e/export t/traceroute q/quit"),
            unix_ms,
        );
    }

    /// A monitor made from the settings, with its first entries in the log.
    pub fn start(cfg: Config, clock: Clock, s: Settings<'_>) -> (a: Self)
        ensures
            a.wf(),
            a@ == started(
                cfg,
                clock,
                opt_str(s.mode),
                opt_str(s.prealert),
                opt_str(s.names),
                opt_str(s.targets),
                opt_str(s.extras),
            ),
    {
        let mut a = App::new(cfg, clock.now, s.mode, s.prealert);
        a.set_names(s.names);
        let specs = match s.targets {
            Some(raw) => parse_probes(raw),
            None => default_primaries(),
        };
        a.add_primaries(&specs, clock.now);
        a.add_extras(s.extras, clock.unix_ms);
        a.introduce(&specs, clock.unix_ms);
        a
    }
}

// ---------------------------------------------------------------------- laws

proof fn lemma_trim_keeps(s: Seq<char>)
    requires
        forall|i: int| 0 <= i < s.len() ==> !is_space(#[trigger] s[i]),
    ensures
        trim(s) == s,
{
    if s.len() > 0 {
        assert(!is_space(s[0]));
        assert(!is_space(s[s.len() - 1]));
    }
}

proof fn lemma_number_is_bare(n: nat)
    ensures
        trim(digits(n)) == digits(n),
        forall|i: int|
            0 <= i < digits(n).len() ==> !Separator::Char(':').picks(#[trigger] digits(n)[i]),
{
    law_reading_undoes_digits(n);
    assert forall|i: int| 0 <= i < digits(n).len() implies !is_space(#[trigger] digits(n)[i]) by {
        assert('0' <= digits(n)[i] <= '9');
    }
    assert forall|i: int| 0 <= i < digits(n).len() implies !Separator::Char(':').picks(
        #[trigger] digits(n)[i],
    ) by {
        assert('0' <= digits(n)[i] <= '9');
    }
    lemma_trim_keeps(digits(n));
}

/// A probe that is written as "label:host:port" is read as that; a port beyond 65535 makes it
/// none.
pub proof fn law_probes_are_read_back(label: Seq<char>, host: Seq<char>, port: nat)
    requires
        forall|i: int| 0 <= i < label.len() ==> #[trigger] label[i] != ':',
        forall|i: int| 0 <= i < host.len() ==> #[trigger] host[i] != ':',
        trim(label) == label,
        trim(host) == host,
    ensures
        port <= 65_535 ==> probe_in(label.push(':') + host.push(':') + digits(port)) == Some(
            SpecV { label, host, port: port as u16 },
        ),
        port > 65_535 ==> probe_in(label.push(':') + host.push(':') + digits(port)) is None,
        probe_in(label.push(':') + host) is None,
        probe_in(label) is None,
{
    let sep = Separator::Char(':');
    let number = digits(port);
    law_reading_undoes_digits(port);
    law_signs_are_read(port);
    lemma_number_is_bare(port);
    assert forall|i: int| 0 <= i < label.len() implies !sep.picks(#[trigger] label[i]) by {}
    assert forall|i: int| 0 <= i < host.len() implies !sep.picks(#[trigger] host[i]) by {}
    let tail = host.push(':') + number;
    let piece = label.push(':') + host.push(':') + number;
    assert(piece =~= label.push(':') + tail);
    law_split_at_each_separator(label, ':', tail, sep);
    law_split_at_each_separator(host, ':', number, sep);
    law_split_at_each_separator(number, ':', Seq::empty(), sep);
    law_split_at_each_separator(label, ':', host, sep);
    assert(split_on(piece, ':') =~= seq![label, host, number]);
    assert(split_on(label.push(':') + host, ':') =~= seq![label, host]);
}

/// A list of probes holds those that are written down well, in order; each of the others is
/// dropped without a trace.
pub proof fn law_bad_probes_are_dropped(a: Seq<char>, b: Seq<char>)
    requires
        forall|i: int| 0 <= i < b.len() ==> #[trigger] b[i] != ',',
    ensures
        probe_in(b) is None ==> probe_list(a.push(',') + b) == probe_list(a),
        probe_in(b) matches Some(p) ==> probe_list(a.push(',') + b) == probe_list(a).push(p),
        probe_in(b) is None ==> probe_list(b).len() == 0,
        probe_in(b) matches Some(p) ==> probe_list(b) == seq![p],
{
    let sep = Separator::Char(',');
    assert forall|i: int| 0 <= i < b.len() implies !sep.picks(#[trigger] b[i]) by {}
    law_split_at_each_separator(a, ',', b, sep);
    law_split_at_each_separator(b, ',', Seq::empty(), sep);
    let front = split_on(a, ',');
    assert(split_on(a.push(',') + b, ',') =~= front.push(b));
    assert(front.push(b).drop_last() =~= front);
    let one = seq![b];
    assert(one.drop_last().len() == 0);
    assert(one.last() == b);
    assert(probes_in(one.drop_last()).len() == 0);
    assert(probe_in(b) is Some ==> probes_in(one) =~= seq![probe_in(b)->0]);
}

/// A list of names holds every name between two commas, without the blanks around it; empty
/// ones do not count.
pub proof fn law_names_are_listed(a: Seq<char>, b: Seq<char>)
    requires
        forall|i: int| 0 <= i < b.len() ==> #[trigger] b[i] != ',',
    ensures
        trim(b).len() == 0 ==> name_list(a.push(',') + b) == name_list(a),
        trim(b).len() > 0 ==> name_list(a.push(',') + b) == name_list(a).push(trim(b)),
        trim(b).len() > 0 ==> name_list(b) == seq![trim(b)],
        trim(b).len() == 0 ==> name_list(b).len() == 0,
{
    let sep = Separator::Char(',');
    assert forall|i: int| 0 <= i < b.len() implies !sep.picks(#[trigger] b[i]) by {}
    law_split_at_each_separator(a, ',', b, sep);
    law_split_at_each_separator(b, ',', Seq::empty(), sep);
    let front = split_on(a, ',');
    assert(split_on(a.push(',') + b, ',') =~= front.push(b));
    assert(trim_all(front.push(b)) =~= trim_all(front) + seq![trim(b)]);
    assert(trim_all(seq![b]) =~= seq![trim(b)]);
    law_empty_pieces_are_dropped(trim_all(front), seq![trim(b)], trim(b));
    assert(name_list(a.push(',') + b) =~= if trim(b).len() == 0 {
        name_list(a)
    } else {
        name_list(a).push(trim(b))
    });
}

/// A number is taken from a setting that is one of 64 bits; without the setting, or where it
/// is something else, the default holds.
pub proof fn law_numbers_have_defaults(n: nat, default: u64, raw: Seq<char>)
    ensures
        number_or(None, default) == default,
        n <= u64::MAX ==> number_or(Some(digits(n)), default) == n,
        n > u64::MAX ==> number_or(Some(digits(n)), default) == default,
        unsigned_value(raw, 10) is None ==> number_or(Some(raw), default) == default,
{
    law_signs_are_read(n);
}

/// The two settings reach the configuration, the timeout in milliseconds and the interval of
/// the reminders in seconds; everything else is as by default.
pub proof fn law_settings_reach_the_configuration(
    timeout: Option<Seq<char>>,
    reminder: Option<Seq<char>>,
    ms: nat,
    secs: nat,
)
    requires
        ms <= u64::MAX,
        secs <= u64::MAX,
    ensures
        config_with(Some(digits(ms)), reminder).timeout_ms == ms,
        config_with(timeout, Some(digits(secs))).reminder_interval.ns == secs * 1_000_000_000,
        config_with(None, reminder).timeout_ms == config_default().timeout_ms,
        config_with(timeout, None).reminder_interval == config_default().reminder_interval,
        ({
            let c = config_with(timeout, reminder);
            c == (Config {
                timeout_ms: c.timeout_ms,
                reminder_interval: c.reminder_interval,
                ..config_default()
            })
        }),
{
    law_signs_are_read(ms);
    law_signs_are_read(secs);
}

proof fn lemma_members_only_log(a: AppV, specs: Seq<SpecV>, n: nat, unix_ms: u64)
    ensures
        ({
            let b = a.with_members(specs, n, unix_ms);
            b == (AppV { events: b.events, ..a })
        }),
    decreases n,
{
    if n > 0 {
        lemma_members_only_log(a, specs, (n - 1) as nat, unix_ms);
    }
}

/// A monitor starts up, with a fresh probe for each target and each extra probe of the
/// settings, with the names of the settings where there are any, and otherwise as a new one.
pub proof fn law_start(
    cfg: Config,
    clock: Clock,
    mode: Option<Seq<char>>,
    prealert: Option<Seq<char>>,
    names: Option<Seq<char>>,
    targets: Option<Seq<char>>,
    extras: Option<Seq<char>>,
)
    ensures
        ({
            let a = started(cfg, clock, mode, prealert, names, targets, extras);
            let fresh = app_new(cfg, clock.now, mode, prealert);
            let wanted = match targets {
                Some(s) => probe_list(s),
                None => default_targets(),
            };
            &&& a == (AppV {
                primaries: a.primaries,
                extras: a.extras,
                dns: a.dns,
                events: a.events,
                ..fresh
            })
            &&& a.primaries.len() == wanted.len()
            &&& forall|i: int|
                0 <= i < wanted.len() ==> (#[trigger] a.primaries[i]).label == wanted[i].label
                    && a.primaries[i].host == wanted[i].host && a.primaries[i].port
                    == wanted[i].port && a.primaries[i].total == 0 && a.primaries[i].state
                    == LinkState::Up
            &&& extras is None ==> a.extras.len() == 0
            &&& extras matches Some(s) ==> a.extras.len() == probe_list(s).len() && forall|i: int|
                0 <= i < a.extras.len() ==> (#[trigger] a.extras[i]).label == probe_list(s)[i].label
                    && a.extras[i].host == probe_list(s)[i].host && a.extras[i].port == probe_list(
                    s,
                )[i].port && a.extras[i].total == 0
            &&& a.dns.resolvers == fresh.dns.resolvers
            &&& names is Some && name_list(names->0).len() > 0 ==> a.dns.names == name_list(
                names->0,
            )
            &&& names is None ==> a.dns == fresh.dns
        }),
{
    let base = AppV {
        primaries: fresh_probes(targets_of(targets), clock.now),
        ..app_new(cfg, clock.now, mode, prealert).with_names(names)
    }.with_extras(extras, clock.unix_ms);
    let specs = targets_of(targets);
    let told = base.logged(clock.unix_ms, Level::Info, "primary targets: "@ + digits(specs.len()));
    lemma_members_only_log(told, specs, specs.len(), clock.unix_ms);
}

proof fn lemma_no_number(s: Seq<char>, i: int)
    requires
        0 <= i < s.len(),
        s[i] == ':',
    ensures
        digits_value(s, 10) is None,
    decreases s.len(),
{
    if i < s.len() - 1 {
        lemma_no_number(s.drop_last(), i);
    }
}

proof fn lemma_rest_has_a_colon(parts: Seq<Seq<char>>) -> (i: int)
    requires
        parts.len() >= 4,
    ensures
        0 <= i < rest_of(parts).len(),
        rest_of(parts)[i] == ':',
{
    reveal_strlit(":");
    let i = rest_of(parts.drop_last()).len() as int;
    assert(rest_of(parts)[i] == ":"@[0]);
    i
}

/// A probe has three parts, no more and no fewer: with another colon behind the port it is
/// none.
pub proof fn law_probes_have_three_parts(piece: Seq<char>)
    requires
        split_on(piece, ':').len() != 3,
    ensures
        probe_in(piece) is None,
{
    let parts = split_on(piece, ':');
    if parts.len() > 3 {
        let rest = rest_of(parts);
        let i = lemma_rest_has_a_colon(parts);
        law_trimming(rest);
        let t = trim(rest);
        let (a, b) = choose|a: int, b: int|
            0 <= a <= b <= rest.len() && t == #[trigger] rest.subrange(a, b) && (forall|k: int|
                0 <= k < a ==> is_space(#[trigger] rest[k])) && (forall|k: int|
                b <= k < rest.len() ==> is_space(#[trigger] rest[k]));
        assert(!is_space(':'));
        assert(a <= i < b);
        assert(t[i - a] == ':');
        if t[0] == '+' {
            assert(t.drop_first()[i - a - 1] == ':');
            lemma_no_number(t.drop_first(), i - a - 1);
        } else {
            lemma_no_number(t, i - a);
        }
    }
}

} // verus!
