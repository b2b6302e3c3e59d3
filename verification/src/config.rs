//! The knobs of the monitor.
use vstd::prelude::*;
use crate::time::Duration;

verus! {

/// Limits, intervals and floors. Times in milliseconds are whole milliseconds,
/// floors of measured values are nanoseconds, shares of loss are parts per
/// million.
#[derive(Clone, Copy, PartialEq, Eq, Structural, Debug)]
pub struct Config {
    pub ping_interval_ms: u64,
    pub dns_interval_ms: u64,
    pub timeout_ms: u64,
    pub latency_warn_ns: u64,
    pub latency_bad_ns: u64,
    pub jitter_warn_ns: u64,
    pub dns_warn_ns: u64,
    pub dns_bad_ns: u64,
    pub state_window: usize,
    pub degraded_loss_ppm: u64,
    pub down_loss_ppm: u64,
    pub hysteresis_bad: u32,
    pub recover_dwell: Duration,
    pub reminder_interval: Duration,
}

pub open spec fn config_default() -> Config {
    Config {
        ping_interval_ms: 1_000,
        dns_interval_ms: 5_000,
        timeout_ms: 1_500,
        latency_warn_ns: 200_000_000,
        latency_bad_ns: 500_000_000,
        jitter_warn_ns: 60_000_000,
        dns_warn_ns: 100_000_000,
        dns_bad_ns: 400_000_000,
        state_window: 20,
        degraded_loss_ppm: 200_000,
        down_loss_ppm: 600_000,
        hysteresis_bad: 3,
        recover_dwell: Duration { ns: 15_000_000_000 },
        reminder_interval: Duration { ns: 30_000_000_000 },
    }
}

impl Default for Config {
    fn default() -> (c: Self)
        ensures
            c == config_default(),
    {
        Config {
            ping_interval_ms: 1_000,
            dns_interval_ms: 5_000,
            timeout_ms: 1_500,
            latency_warn_ns: 200_000_000,
            latency_bad_ns: 500_000_000,
            jitter_warn_ns: 60_000_000,
            dns_warn_ns: 100_000_000,
            dns_bad_ns: 400_000_000,
            state_window: 20,
            degraded_loss_ppm: 200_000,
            down_loss_ppm: 600_000,
            hysteresis_bad: 3,
            recover_dwell: Duration { ns: 15_000_000_000 },
            reminder_interval: Duration { ns: 30_000_000_000 },
        }
    }
}

/// `v` moved into `lo..=hi`.
pub open spec fn clamp(v: int, lo: int, hi: int) -> int {
    if v < lo {
        lo
    } else if v > hi {
        hi
    } else {
        v
    }
}

/// A duration moved into `lo..=hi` whole seconds: one whose whole seconds lie in
/// the range keeps its fraction.
pub open spec fn clamp_secs(d: Duration, lo: nat, hi: nat) -> Duration {
    let secs = d.ns as nat / 1_000_000_000;
    if secs < lo {
        Duration { ns: (lo * 1_000_000_000) as u128 }
    } else if secs > hi {
        Duration { ns: (hi * 1_000_000_000) as u128 }
    } else {
        d
    }
}

/// A warning if `changed`, else nothing.
pub open spec fn warn_if(changed: bool, text: Seq<char>) -> Seq<Seq<char>> {
    if changed {
        seq![text]
    } else {
        Seq::empty()
    }
}

/// The views of a list of messages.
pub open spec fn str_views(v: Seq<&'static str>) -> Seq<Seq<char>> {
    Seq::new(v.len(), |i: int| v[i]@)
}

impl Config {
    /// The configuration with every knob in its range.
    pub open spec fn clamped(self) -> Config {
        Config {
            timeout_ms: clamp(self.timeout_ms as int, 50, 10_000) as u64,
            ping_interval_ms: clamp(self.ping_interval_ms as int, 200, 60_000) as u64,
            dns_interval_ms: clamp(self.dns_interval_ms as int, 1_000, 60_000) as u64,
            recover_dwell: clamp_secs(self.recover_dwell, 1, 600),
            reminder_interval: clamp_secs(self.reminder_interval, 5, 3_600),
            state_window: clamp(self.state_window as int, 5, 500) as usize,
            hysteresis_bad: clamp(self.hysteresis_bad as int, 1, 50) as u32,
            ..self
        }
    }

    /// One warning for each knob that is out of its range.
    pub open spec fn warnings(self) -> Seq<Seq<char>> {
        let c = self.clamped();
        warn_if(c.timeout_ms != self.timeout_ms, "timeout_ms clamped to [50,10000]"@) + warn_if(
            c.ping_interval_ms != self.ping_interval_ms,
            "ping_interval_ms clamped to [200,60000]"@,
        ) + warn_if(
            c.dns_interval_ms != self.dns_interval_ms,
            "dns_interval_ms clamped to [1000,60000]"@,
        ) + warn_if(
            c.recover_dwell != self.recover_dwell,
            "recover_dwell clamped to [1s,10min]"@,
        ) + warn_if(
            c.reminder_interval != self.reminder_interval,
            "reminder_interval clamped to [5s,1h]"@,
        ) + warn_if(c.state_window != self.state_window, "state_window clamped to [5,500]"@)
            + warn_if(c.hysteresis_bad != self.hysteresis_bad, "hysteresis_bad clamped to [1,50]"@)
    }

    /// Every knob that `validate` looks at lies in its range.
    pub open spec fn in_range(self) -> bool {
        &&& 50 <= self.timeout_ms <= 10_000
        &&& 200 <= self.ping_interval_ms <= 60_000
        &&& 1_000 <= self.dns_interval_ms <= 60_000
        &&& 1_000_000_000 <= self.recover_dwell.ns < 601_000_000_000
        &&& 5_000_000_000 <= self.reminder_interval.ns < 3_601_000_000_000
        &&& 5 <= self.state_window <= 500
        &&& 1 <= self.hysteresis_bad <= 50
    }

    /// Moves every knob into its safe range and names the ones that it moved.
    pub fn validate(&mut self) -> (warns: Vec<&'static str>)
        ensures
            *final(self) == old(self).clamped(),
            str_views(warns@) == old(self).warnings(),
            final(self).in_range(),
    {
        let mut warns: Vec<&'static str> = Vec::new();
        let timeout: u64 = clamp_u64(self.timeout_ms, 50, 10_000);
        note(&mut warns, timeout != self.timeout_ms, "timeout_ms clamped to [50,10000]");
        let ping: u64 = clamp_u64(self.ping_interval_ms, 200, 60_000);
        note(
            &mut warns,
            ping != self.ping_interval_ms,
            "ping_interval_ms clamped to [200,60000]",
        );
        let dns: u64 = clamp_u64(self.dns_interval_ms, 1_000, 60_000);
        note(&mut warns, dns != self.dns_interval_ms, "dns_interval_ms clamped to [1000,60000]");
        let dwell = clamp_duration(self.recover_dwell, 1, 600);
        note(&mut warns, dwell != self.recover_dwell, "recover_dwell clamped to [1s,10min]");
        let reminder = clamp_duration(self.reminder_interval, 5, 3_600);
        note(
            &mut warns,
            reminder != self.reminder_interval,
            "reminder_interval clamped to [5s,1h]",
        );
        let window: u64 = clamp_u64(self.state_window as u64, 5, 500);
        note(&mut warns, window as usize != self.state_window, "state_window clamped to [5,500]");
        let hysteresis: u64 = clamp_u64(self.hysteresis_bad as u64, 1, 50);
        note(
            &mut warns,
            hysteresis as u32 != self.hysteresis_bad,
            "hysteresis_bad clamped to [1,50]",
        );
        self.timeout_ms = timeout;
        self.ping_interval_ms = ping;
        self.dns_interval_ms = dns;
        self.recover_dwell = dwell;
        self.reminder_interval = reminder;
        self.state_window = window as usize;
        self.hysteresis_bad = hysteresis as u32;
        warns
    }
}

fn clamp_u64(v: u64, lo: u64, hi: u64) -> (r: u64)
    requires
        lo <= hi,
    ensures
        r == clamp(v as int, lo as int, hi as int),
{
    if v < lo {
        lo
    } else if v > hi {
        hi
    } else {
        v
    }
}

fn clamp_duration(d: Duration, lo: u64, hi: u64) -> (r: Duration)
    requires
        lo <= hi,
    ensures
        r == clamp_secs(d, lo as nat, hi as nat),
{
    let secs: u128 = d.as_secs();
    if secs < lo as u128 {
        Duration::from_secs(lo)
    } else if secs > hi as u128 {
        Duration::from_secs(hi)
    } else {
        d
    }
}

fn note(warns: &mut Vec<&'static str>, changed: bool, text: &'static str)
    ensures
        str_views(final(warns)@) == str_views(old(warns)@) + warn_if(changed, text@),
{
    if changed {
        warns.push(text);
    }
    proof {
        assert(str_views(warns@) =~= str_views(old(warns)@) + warn_if(changed, text@));
    }
}

/// No value of any knob can break the monitor: after validation every knob is in
/// range, and validating again changes nothing and warns of nothing.
pub proof fn law_validation_settles(c: Config)
    ensures
        c.clamped().in_range(),
        c.clamped().clamped() == c.clamped(),
        c.clamped().warnings() == Seq::<Seq<char>>::empty(),
        c.in_range() ==> c.clamped() == c,
{
    assert(c.clamped().warnings() =~= Seq::<Seq<char>>::empty());
}

/// A value is moved to the nearest one in its range: one that is too small to the least, one
/// that is too large to the greatest, and one in the range not at all.
pub proof fn law_knobs_move_to_the_nearest(c: Config)
    ensures
        ({
            let v = c.clamped();
            &&& v.timeout_ms == c.timeout_ms || (c.timeout_ms < 50 && v.timeout_ms == 50) || (
            c.timeout_ms > 10_000 && v.timeout_ms == 10_000)
            &&& v.ping_interval_ms == c.ping_interval_ms || (c.ping_interval_ms < 200
                && v.ping_interval_ms == 200) || (c.ping_interval_ms > 60_000 && v.ping_interval_ms
                == 60_000)
            &&& v.dns_interval_ms == c.dns_interval_ms || (c.dns_interval_ms < 1_000
                && v.dns_interval_ms == 1_000) || (c.dns_interval_ms > 60_000 && v.dns_interval_ms
                == 60_000)
            &&& v.recover_dwell == c.recover_dwell || (c.recover_dwell.ns < 1_000_000_000
                && v.recover_dwell.ns == 1_000_000_000) || (c.recover_dwell.ns >= 601_000_000_000
                && v.recover_dwell.ns == 600_000_000_000)
            &&& v.reminder_interval == c.reminder_interval || (c.reminder_interval.ns
                < 5_000_000_000 && v.reminder_interval.ns == 5_000_000_000) || (
            c.reminder_interval.ns >= 3_601_000_000_000 && v.reminder_interval.ns
                == 3_600_000_000_000)
            &&& v.state_window == c.state_window || (c.state_window < 5 && v.state_window == 5) || (
            c.state_window > 500 && v.state_window == 500)
            &&& v.hysteresis_bad == c.hysteresis_bad || (c.hysteresis_bad < 1 && v.hysteresis_bad
                == 1) || (c.hysteresis_bad > 50 && v.hysteresis_bad == 50)
        }),
        50 <= c.clamped().timeout_ms <= 10_000,
        200 <= c.clamped().ping_interval_ms <= 60_000,
        1_000 <= c.clamped().dns_interval_ms <= 60_000,
        1_000_000_000 <= c.clamped().recover_dwell.ns < 601_000_000_000,
        5_000_000_000 <= c.clamped().reminder_interval.ns < 3_601_000_000_000,
        5 <= c.clamped().state_window <= 500,
        1 <= c.clamped().hysteresis_bad <= 50,
{
}

/// Limits and shares are not touched by the validation.
pub proof fn law_limits_are_kept(c: Config)
    ensures
        ({
            let v = c.clamped();
            &&& v.latency_warn_ns == c.latency_warn_ns && v.latency_bad_ns == c.latency_bad_ns
            &&& v.jitter_warn_ns == c.jitter_warn_ns
            &&& v.dns_warn_ns == c.dns_warn_ns && v.dns_bad_ns == c.dns_bad_ns
            &&& v.degraded_loss_ppm == c.degraded_loss_ppm && v.down_loss_ppm == c.down_loss_ppm
        }),
{
}

/// There is one warning for each knob that was moved, and none for the others.
pub proof fn law_one_warning_for_each_moved_knob(c: Config)
    ensures
        ({
            let v = c.clamped();
            let w = c.warnings();
            let one = |moved: bool|
                if moved {
                    1int
                } else {
                    0
                };
            &&& w.len() == one(v.timeout_ms != c.timeout_ms) + one(
                v.ping_interval_ms != c.ping_interval_ms,
            ) + one(v.dns_interval_ms != c.dns_interval_ms) + one(
                v.recover_dwell != c.recover_dwell,
            ) + one(v.reminder_interval != c.reminder_interval) + one(
                v.state_window != c.state_window,
            ) + one(v.hysteresis_bad != c.hysteresis_bad)
            &&& w.len() == 0 <==> v == c
        }),
{
}

/// The configuration that comes with the monitor needs no correction, and its limits are in
/// order.
pub proof fn law_default_configuration_is_valid()
    ensures
        config_default().clamped() == config_default(),
        config_default().latency_warn_ns < config_default().latency_bad_ns,
        config_default().dns_warn_ns < config_default().dns_bad_ns,
        config_default().degraded_loss_ppm < config_default().down_loss_ppm <= 1_000_000,
        config_default().hysteresis_bad >= 2,
{
}

} // verus!
