//! What holds of a session: its troubles and recoveries, its times, its log, and what
//! every decision makes of them.
use vstd::prelude::*;
use crate::app::{AppV, Level};
use crate::detector::ProbeWeights;
use crate::probe::ProbeV;
use crate::round::{
    cause_text, consensus_text, is_outcome, is_round_outcome, states_of, turn_text, weight_at,
    Outcome, PathCause, PrimaryBatch, RoundResult,
};
use crate::sound::SoundEvent;
use crate::state::{law_strict_majority, lemma_tally_total, tally, LinkState};
use crate::stats::Ratio;
use crate::text::{digits, fixed_text};
use crate::time::{Clock, Instant};

verus! {

/// The time of a trouble runs from the moment at which the connection left Up. While it
/// stays in trouble the beginning is kept, whatever the state moves to; a connection that
/// leaves Up gets the present as its beginning; one that is up again has none.
pub proof fn law_trouble_keeps_its_beginning(a: AppV, now: Instant, clock: Clock)
    requires
        a.state == LinkState::Up <==> a.bad_since is None,
    ensures
        ({
            let b = a.finalized(now, clock);
            &&& a.state != LinkState::Up && b.state != LinkState::Up ==> b.bad_since
                == a.bad_since
            &&& a.state == LinkState::Up && b.state != LinkState::Up ==> b.bad_since == Some(now)
            &&& b.state == LinkState::Up ==> b.bad_since is None
        }),
{
}

/// A recovery is counted when the connection is up again, with the time since its trouble
/// began, in whole milliseconds; no other decision counts one.
pub proof fn law_recovery_adds_its_time(a: AppV, now: Instant, clock: Clock)
    requires
        a.has_room_to_decide(clock.now),
        a.state == LinkState::Up <==> a.bad_since is None,
        a.bad_since matches Some(t) ==> t.ns <= clock.now.ns,
    ensures
        ({
            let b = a.finalized(now, clock);
            let back = a.state != LinkState::Up && b.state == LinkState::Up;
            &&& back ==> b.recoveries == a.recoveries + 1 && b.mttr_ms_total == a.mttr_ms_total + (
            clock.now.ns - a.bad_since->0.ns) / 1_000_000
            &&& !back ==> b.recoveries == a.recoveries && b.mttr_ms_total == a.mttr_ms_total
        }),
{
}

/// `next` goes on where `prev` ended, as far as the connection and its records of
/// trouble are concerned.
pub open spec fn goes_on(prev: AppV, next: AppV) -> bool {
    &&& next.state == prev.state
    &&& next.bad_since == prev.bad_since
    &&& next.recoveries == prev.recoveries
    &&& next.mttr_ms_total == prev.mttr_ms_total
}

/// A whole trouble counts as one recovery, with the time from the decision that left Up
/// to the one that came back, however often the state moves in between. Here `before[i]`
/// is the monitor when it decides for the `i`-th time, at `at[i]`; the first decision
/// leaves Up, the last one is the first to reach it again.
pub proof fn law_recovery_time_spans_the_trouble(
    before: Seq<AppV>,
    at: Seq<(Instant, Clock)>,
)
    requires
        before.len() == at.len(),
        before.len() >= 2,
        before[0].state == LinkState::Up,
        before[0].bad_since is None,
        forall|i: int|
            0 <= i < before.len() ==> (#[trigger] before[i]).has_room_to_decide(at[i].1.now),
        forall|i: int|
            0 <= i < before.len() - 1 ==> goes_on(
                (#[trigger] before[i]).finalized(at[i].0, at[i].1),
                before[i + 1],
            ),
        forall|i: int| 0 < i < before.len() ==> (#[trigger] before[i]).state != LinkState::Up,
        before[before.len() - 1].finalized(
            at[before.len() - 1].0,
            at[before.len() - 1].1,
        ).state == LinkState::Up,
        at[0].0.ns <= at[before.len() - 1].1.now.ns,
    ensures
        ({
            let last = before.len() - 1;
            let after = before[last].finalized(at[last].0, at[last].1);
            &&& after.recoveries == before[0].recoveries + 1
            &&& after.mttr_ms_total == before[0].mttr_ms_total + (at[last].1.now.ns - at[0].0.ns)
                / 1_000_000
            &&& after.bad_since is None
        }),
{
    let last = before.len() - 1;
    lemma_trouble_goes_on(before, at, last);
    let c = before[last];
    law_recovery_adds_its_time(c, at[last].0, at[last].1);
    law_trouble_keeps_its_beginning(c, at[last].0, at[last].1);
}

proof fn lemma_trouble_goes_on(before: Seq<AppV>, at: Seq<(Instant, Clock)>, k: int)
    requires
        before.len() == at.len(),
        0 < k < before.len(),
        before[0].state == LinkState::Up,
        before[0].bad_since is None,
        forall|i: int|
            0 <= i < before.len() - 1 ==> goes_on(
                (#[trigger] before[i]).finalized(at[i].0, at[i].1),
                before[i + 1],
            ),
        forall|i: int| 0 < i < before.len() ==> (#[trigger] before[i]).state != LinkState::Up,
    ensures
        before[k].bad_since == Some(at[0].0),
        before[k].recoveries == before[0].recoveries,
        before[k].mttr_ms_total == before[0].mttr_ms_total,
    decreases k,
{
    let p = before[k - 1];
    assert(goes_on(p.finalized(at[k - 1].0, at[k - 1].1), before[k - 1 + 1]));
    if k > 1 {
        lemma_trouble_goes_on(before, at, k - 1);
    }
    law_trouble_keeps_its_beginning(p, at[k - 1].0, at[k - 1].1);
}

/// An outage is counted each time the connection goes down, and at no other time.
pub proof fn law_outages_are_counted(a: AppV, now: Instant, clock: Clock)
    requires
        a.outages < u32::MAX,
    ensures
        ({
            let b = a.finalized(now, clock);
            b.outages == a.outages + (if a.state != LinkState::Down && b.state == LinkState::Down {
                1int
            } else {
                0
            })
        }),
{
}

/// The best uptime is the longest stretch, in whole seconds, from a moment at which the
/// connection came up to the one at which it left Up. A stretch counts when it ends.
pub proof fn law_best_uptime(a: AppV, now: Instant, clock: Clock)
    requires
        a.state == LinkState::Up <==> a.up_since is Some,
        a.up_since matches Some(t) ==> t.ns <= clock.now.ns,
    ensures
        ({
            let b = a.finalized(now, clock);
            let left = a.state == LinkState::Up && b.state != LinkState::Up;
            let came = a.state != LinkState::Up && b.state == LinkState::Up;
            let stretch = (clock.now.ns - a.up_since->0.ns) / 1_000_000_000;
            &&& left ==> {
                &&& b.best_uptime_secs >= a.best_uptime_secs && b.best_uptime_secs >= stretch
                &&& b.best_uptime_secs == a.best_uptime_secs || b.best_uptime_secs == stretch
                &&& b.up_since is None
            }
            &&& !left ==> b.best_uptime_secs == a.best_uptime_secs
            &&& came ==> b.up_since == Some(now)
            &&& !left && !came ==> b.up_since == a.up_since
        }),
{
}

/// Every transition restarts the wait for the next reminder and notes its time; without
/// one both stay.
pub proof fn law_transitions_restart_the_wait(a: AppV, now: Instant, clock: Clock)
    ensures
        ({
            let b = a.finalized(now, clock);
            &&& b.state != a.state ==> b.last_reminder == Some(now) && b.state_since == now
            &&& b.state == a.state ==> b.last_reminder == a.last_reminder && b.state_since
                == a.state_since
        }),
{
}

/// The time since the last accounting, in whole milliseconds, goes to the state that the
/// connection had in it, and to no other: no time of a session is lost or counted twice.
pub proof fn law_session_time_goes_to_the_state(a: AppV, now: Instant, clock: Clock)
    requires
        a.has_room_to_decide(clock.now),
        a.last_accrual matches Some(t) && t.ns <= clock.now.ns,
    ensures
        ({
            let b = a.finalized(now, clock);
            let ms = (clock.now.ns - a.last_accrual->0.ns) / 1_000_000;
            &&& b.last_accrual == Some(clock.now)
            &&& b.sess_up_ms - a.sess_up_ms == (if a.state == LinkState::Up {
                ms
            } else {
                0
            })
            &&& b.sess_degraded_ms - a.sess_degraded_ms == (if a.state == LinkState::Degraded {
                ms
            } else {
                0
            })
            &&& b.sess_down_ms - a.sess_down_ms == (if a.state == LinkState::Down {
                ms
            } else {
                0
            })
            &&& b.session_ms() == a.session_ms() + ms
        }),
{
}

/// A first accounting, with none before it, adds nothing.
pub proof fn law_first_accounting_adds_nothing(a: AppV, now: Instant)
    requires
        a.last_accrual is None,
    ensures
        a.accrued(now).sess_up_ms == a.sess_up_ms,
        a.accrued(now).sess_degraded_ms == a.sess_degraded_ms,
        a.accrued(now).sess_down_ms == a.sess_down_ms,
        a.accrued(now).last_accrual == Some(now),
{
}

/// Trouble is probed more often: the targets once a second while the connection is up and
/// twice a second while it is not; the gateway once a second in trouble or while some
/// target is about to get worse, and every five seconds otherwise.
pub proof fn law_pace_follows_the_trouble(a: AppV, now: Instant, clock: Clock)
    requires
        a.primaries.len() > 0,
    ensures
        ({
            let b = a.finalized(now, clock);
            let near = exists|i: int|
                0 <= i < a.primaries.len() && (#[trigger] a.primaries[i]).pending_worse is Some;
            &&& b.primaries == a.primaries
            &&& b.interval_ms == (if b.state == LinkState::Up {
                1_000
            } else {
                500int
            })
            &&& b.gw_cadence_ms == (if b.state != LinkState::Up || near {
                1_000
            } else {
                5_000int
            })
        }),
{
}

/// The onset of an outage is the first decision at which the targets did not vote for Up,
/// and is forgotten as soon as they do.
pub proof fn law_onset_of_an_outage(a: AppV, now: Instant, clock: Clock)
    requires
        a.primaries.len() > 0,
    ensures
        ({
            let b = a.finalized(now, clock);
            let healthy = 2 * tally(states_of(a.primaries), LinkState::Up) > a.primaries.len();
            &&& healthy ==> b.outage_onset_at is None
            &&& !healthy && a.outage_onset_at is Some ==> b.outage_onset_at == a.outage_onset_at
            &&& !healthy && a.outage_onset_at is None ==> b.outage_onset_at == Some(now)
        }),
{
    law_strict_majority(states_of(a.primaries));
}

/// A decision writes one entry where the state changes and none where it does not. The
/// entry carries the time of the wall clock and is as grave as the new state.
pub proof fn law_transitions_are_logged(a: AppV, now: Instant, clock: Clock)
    requires
        a.events.len() <= 24,
    ensures
        ({
            let b = a.finalized(now, clock);
            &&& b.state == a.state ==> b.events == a.events
            &&& b.state != a.state ==> {
                let kept = if a.events.len() < 24 {
                    a.events
                } else {
                    a.events.skip(1)
                };
                &&& b.events.len() == kept.len() + 1
                &&& forall|i: int| 0 <= i < kept.len() ==> #[trigger] b.events[i] == kept[i]
                &&& b.events[kept.len() as int].ts == clock.unix_ms
                &&& match b.state {
                    LinkState::Up => b.events[kept.len() as int].level == Level::Good,
                    LinkState::Degraded => b.events[kept.len() as int].level == Level::Warn,
                    LinkState::Down => b.events[kept.len() as int].level == Level::Bad,
                }
            }
        }),
{
}

/// An entry whose cause is not known is kept in mind for as long as the trouble lasts,
/// unless a later one takes its place; a recovery forgets it.
pub proof fn law_unknown_cause_is_kept_in_mind(a: AppV, now: Instant, clock: Clock)
    requires
        a.events.len() <= 24,
    ensures
        ({
            let b = a.finalized(now, clock);
            let known = b.cause(a.desired()) != PathCause::Unknown;
            let told = b.state == LinkState::Down || a.state == LinkState::Up;
            &&& b.state == a.state ==> b.pending_cause_log_idx == a.pending_cause_log_idx
            &&& b.state != a.state && b.state == LinkState::Up ==> b.pending_cause_log_idx is None
            &&& b.state != a.state && b.state != LinkState::Up && told && !known
                ==> b.pending_cause_log_idx == Some((b.events.len() - 1) as usize)
            &&& b.state != a.state && b.state != LinkState::Up && !(told && !known)
                ==> b.pending_cause_log_idx == a.pending_cause_log_idx
        }),
{
}

/// What a decision asks of the outside: the cue and the notification of the transition,
/// and a line for the session file. A recovery sounds as one, so does a connection that
/// goes down, and one that leaves Up for Degraded as a loss; a first improvement is
/// silent, and a decision without a transition asks for nothing.
pub proof fn law_outcome_follows_the_transition(
    o: Outcome,
    a: AppV,
    now: Instant,
    clock: Clock,
)
    requires
        is_outcome(o, a, now, clock),
    ensures
        ({
            let b = a.finalized(now, clock);
            let moved = b.state != a.state;
            &&& o.sound == Some(SoundEvent::Recover) <==> moved && b.state == LinkState::Up
            &&& o.sound == Some(SoundEvent::Down) <==> moved && b.state == LinkState::Down
            &&& o.sound == Some(SoundEvent::Loss) <==> a.state == LinkState::Up && b.state
                == LinkState::Degraded
            &&& o.sound is Some <==> o.notify is Some
            &&& o.sound is None <==> !moved || (a.state == LinkState::Down && b.state
                == LinkState::Degraded)
            &&& o.export is Some <==> moved
            &&& moved ==> o.export->0.state == b.state && o.export->0.epoch_s == clock.unix_ms
                / 1000
        }),
{
}

/// A round of another session than the present one changes nothing and asks for nothing.
pub proof fn law_other_sessions_are_ignored(
    o: Outcome,
    a: AppV,
    batch: PrimaryBatch,
    now: Instant,
    clock: Clock,
)
    requires
        batch.reset_epoch != a.reset_epoch,
        is_round_outcome(o, a, batch, now, clock),
    ensures
        a.after_round(batch, now, clock) == a,
        o.sound is None && o.notify is None && o.export is None,
{
}

/// Without targets nothing is decided.
pub proof fn law_no_targets_no_decision(a: AppV, now: Instant, clock: Clock)
    requires
        a.primaries.len() == 0,
    ensures
        ({
            let b = a.finalized(now, clock);
            &&& b.state == a.state && b.events == a.events && b.recovery == a.recovery
            &&& b.outage_onset_at == a.outage_onset_at && b.interval_ms == a.interval_ms
        }),
{
}

/// The entry of a transition tells how the targets stand; where the connection leaves Up or
/// goes down it also tells the cause, between "cause: " and the note of its cue, where an
/// amendment will find it.
pub proof fn law_entries_tell_the_cause(
    prev: LinkState,
    next: LinkState,
    targets: Seq<char>,
    cause: PathCause,
)
    ensures
        ({
            let text = turn_text(prev, next, targets, cause);
            let told = next == LinkState::Down || (next == LinkState::Degraded && prev
                == LinkState::Up);
            &&& told ==> exists|head: Seq<char>, tail: Seq<char>|
                text == #[trigger] (head + targets + "  cause: "@) + cause_text(cause) + #[trigger] (
                "  ♪ "@ + tail)
            &&& !told ==> exists|head: Seq<char>|
                text.take((#[trigger] (head + targets)).len() as int) == head + targets
                    && head.len() + targets.len() <= text.len()
        }),
{
    reveal_strlit("  ♪ ");
    reveal_strlit("  ♪ degraded");
    reveal_strlit("  ♪ down");
    let text = turn_text(prev, next, targets, cause);
    if next == LinkState::Down {
        let (head, tail) = ("connection DOWN  "@, "  ♪ down"@.skip(4));
        assert("  ♪ down"@ =~= "  ♪ "@ + tail);
        assert(text =~= (head + targets + "  cause: "@) + cause_text(cause) + ("  ♪ "@ + tail));
    } else if next == LinkState::Degraded && prev == LinkState::Up {
        let (head, tail) = ("connection degraded  "@, "  ♪ degraded"@.skip(4));
        assert("  ♪ degraded"@ =~= "  ♪ "@ + tail);
        assert(text =~= (head + targets + "  cause: "@) + cause_text(cause) + ("  ♪ "@ + tail));
    } else if next == LinkState::Up {
        let head = "connection recovered  "@;
        assert(text.take((head + targets).len() as int) =~= head + targets);
    } else {
        let head = "improving → degraded  "@;
        assert(text.take((head + targets).len() as int) =~= head + targets);
    }
}

/// What the targets say, for the log: those up, degraded and down are counted, and all of
/// them.
pub proof fn law_targets_are_counted(ps: Seq<ProbeV>, loss: Ratio)
    ensures
        ({
            let s = states_of(ps);
            let up = digits(tally(s, LinkState::Up));
            consensus_text(ps, loss) == "targets "@ + up + "/"@ + digits(ps.len()) + " up  loss "@
                + fixed_text(loss.num as nat, loss.den as nat, 0) + "%  ("@ + up + "/"@ + digits(
                tally(s, LinkState::Degraded),
            ) + "/"@ + digits(tally(s, LinkState::Down)) + ")"@
        }),
{
    lemma_tally_total(states_of(ps));
}

/// Every cause has a word of its own.
pub proof fn law_causes_have_their_words(a: PathCause, b: PathCause)
    requires
        cause_text(a) == cause_text(b),
    ensures
        a == b,
{
    reveal_strlit("probable gateway failure");
    reveal_strlit("weak Wi-Fi signal");
    reveal_strlit("gateway OK; failure beyond first hop");
    reveal_strlit("unknown");
    assert(cause_text(PathCause::GatewayFailure)[0] == 'p');
    assert(cause_text(PathCause::WeakWifi)[0] == 'w');
    assert(cause_text(PathCause::BeyondFirstHop)[0] == 'g');
    assert(cause_text(PathCause::Unknown)[0] == 'u');
}

proof fn lemma_samples_keep_the_pool(
    a: AppV,
    results: Seq<RoundResult>,
    weights: Seq<ProbeWeights>,
    now: Instant,
    unix_ms: u64,
)
    ensures
        ({
            let b = a.sampled(results, weights, now, unix_ms);
            b.lat_hist == a.lat_hist && b.jit_hist == a.jit_hist && b.recovery == a.recovery
                && b.state == a.state && b.extras == a.extras && b.dns == a.dns && b.muted
                == a.muted && b.reset_epoch == a.reset_epoch
        }),
    decreases results.len(),
{
    if results.len() > 0 {
        lemma_samples_keep_the_pool(a, results.drop_last(), weights, now, unix_ms);
    }
}

/// A round enters the pooled windows once, with the medians of all targets after their
/// samples, however many results it has. It is decided once: probes that only inform, the
/// resolvers and the sound switch are not touched.
pub proof fn law_round_counts_once(a: AppV, batch: PrimaryBatch, now: Instant, clock: Clock)
    requires
        batch.reset_epoch == a.reset_epoch,
    ensures
        ({
            let b = a.after_round(batch, now, clock);
            let taken = a.sampled(batch.results@, batch.weights@, now, clock.unix_ms);
            &&& b.lat_hist == a.lat_hist.pushed(taken.last_value())
            &&& b.jit_hist == a.jit_hist.pushed(taken.jitter())
            &&& b.primaries == taken.primaries
            &&& b.extras == a.extras && b.dns == a.dns && b.muted == a.muted && b.reset_epoch
                == a.reset_epoch
            &&& taken.primaries.len() > 0 ==> b.state == taken.voted(now).state
        }),
{
    lemma_samples_keep_the_pool(a, batch.results@, batch.weights@, now, clock.unix_ms);
}

/// A target without weights in the batch does not move its averages.
pub proof fn law_missing_weights_are_zero(ws: Seq<ProbeWeights>, i: int)
    requires
        i >= 0,
    ensures
        i < ws.len() ==> weight_at(ws, i) == ws[i],
        i >= ws.len() ==> weight_at(ws, i).latency.short == 0 && weight_at(ws, i).latency.long == 0
            && weight_at(ws, i).jitter.short == 0 && weight_at(ws, i).jitter.long == 0,
{
}

} // verus!
