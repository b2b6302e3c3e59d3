//! Link states: the vote of the targets, the reducer of one target and the
//! reducer of the whole connection.
use vstd::prelude::*;
use crate::time::{elapsed_ns, Duration, Instant};

verus! {

#[derive(Clone, Copy, PartialEq, Eq, Structural, Debug)]
pub enum LinkState {
    Up,
    Degraded,
    Down,
}

/// What the vote asks of the connection.
#[derive(Clone, Copy, PartialEq, Eq, Structural, Debug)]
pub enum DesiredState {
    Up,
    Degraded,
    Down,
    Inconclusive,
}

/// The link state that a conclusive vote names.
pub open spec fn link_state_of(d: DesiredState) -> LinkState {
    match d {
        DesiredState::Up => LinkState::Up,
        DesiredState::Degraded => LinkState::Degraded,
        _ => LinkState::Down,
    }
}

impl DesiredState {
    pub fn to_link_state(self) -> (s: LinkState)
        requires
            self != DesiredState::Inconclusive,
        ensures
            s == link_state_of(self),
    {
        match self {
            DesiredState::Up => LinkState::Up,
            DesiredState::Degraded => LinkState::Degraded,
            _ => LinkState::Down,
        }
    }
}

// ----------------------------------------------------------------- consensus

/// How many of `states` are `s`.
pub open spec fn tally(states: Seq<LinkState>, s: LinkState) -> nat {
    states.to_multiset().count(s)
}

/// The smallest strict majority of `n` votes.
pub open spec fn quorum(n: nat) -> nat {
    n / 2 + 1
}

/// A strict majority decides. Down needs a majority of its own; votes for Down
/// and Degraded together make Degraded; without a majority nothing is decided.
pub open spec fn vote(states: Seq<LinkState>) -> DesiredState {
    let down = tally(states, LinkState::Down);
    let bad = down + tally(states, LinkState::Degraded);
    let up = tally(states, LinkState::Up);
    let q = quorum(states.len());
    if states.len() == 0 {
        DesiredState::Inconclusive
    } else if down >= q {
        DesiredState::Down
    } else if bad >= q {
        DesiredState::Degraded
    } else if up >= q {
        DesiredState::Up
    } else {
        DesiredState::Inconclusive
    }
}

/// Counts the states that are `s`.
pub fn count_state(states: &[LinkState], s: LinkState) -> (n: usize)
    ensures
        n == tally(states@, s),
        n <= states.len(),
{
    broadcast use vstd::seq_lib::group_to_multiset_ensures;

    let mut n: usize = 0;
    let mut i: usize = 0;
    while i < states.len()
        invariant
            i <= states.len(),
            n <= i,
            n == tally(states@.take(i as int), s),
        decreases states.len() - i,
    {
        proof {
            assert(states@.take(i + 1) =~= states@.take(i as int).push(states@[i as int]));
            states@.take(i as int).to_multiset_ensures();
            assert(states@.take(i + 1).to_multiset() =~= states@.take(i as int).to_multiset().insert(
                states@[i as int],
            ));
        }
        if states[i] == s {
            n = n + 1;
        }
        i = i + 1;
    }
    proof {
        assert(states@.take(i as int) =~= states@);
    }
    n
}

/// The votes for the three states add up to the number of voters.
pub proof fn lemma_tally_total(states: Seq<LinkState>)
    ensures
        tally(states, LinkState::Up) + tally(states, LinkState::Degraded) + tally(
            states,
            LinkState::Down,
        ) == states.len(),
    decreases states.len(),
{
    broadcast use vstd::seq_lib::group_to_multiset_ensures;

    if states.len() > 0 {
        lemma_tally_total(states.drop_last());
        assert(states =~= states.drop_last().push(states.last()));
    }
}

pub fn consensus(states: &[LinkState]) -> (d: DesiredState)
    ensures
        d == vote(states@),
{
    let n: usize = states.len();
    if n == 0 {
        return DesiredState::Inconclusive;
    }
    let quorum: usize = n / 2 + 1;
    let down: usize = count_state(states, LinkState::Down);
    let degraded: usize = count_state(states, LinkState::Degraded);
    let up: usize = count_state(states, LinkState::Up);
    proof {
        lemma_tally_total(states@);
    }
    if down >= quorum {
        DesiredState::Down
    } else if down + degraded >= quorum {
        DesiredState::Degraded
    } else if up >= quorum {
        DesiredState::Up
    } else {
        DesiredState::Inconclusive
    }
}

/// The vote does not depend on the order in which the targets are listed.
pub proof fn law_vote_ignores_order(a: Seq<LinkState>, b: Seq<LinkState>)
    requires
        a.to_multiset() == b.to_multiset(),
    ensures
        vote(a) == vote(b),
{
    broadcast use vstd::seq_lib::group_to_multiset_ensures;

    a.to_multiset_ensures();
    b.to_multiset_ensures();
}

/// With three or more targets, one target alone cannot take the connection out
/// of Up, whatever its state.
pub proof fn law_one_target_is_no_outage(states: Seq<LinkState>)
    requires
        states.len() >= 3,
        tally(states, LinkState::Up) + 1 >= states.len(),
    ensures
        vote(states) == DesiredState::Up,
{
    lemma_tally_total(states);
}

/// An even split between healthy and failing targets decides nothing.
pub proof fn law_even_tie_is_inconclusive(states: Seq<LinkState>)
    requires
        2 * tally(states, LinkState::Up) == states.len(),
    ensures
        vote(states) == DesiredState::Inconclusive,
{
    lemma_tally_total(states);
}

proof fn lemma_tally_order(a: Seq<LinkState>, b: Seq<LinkState>)
    requires
        a.len() == b.len(),
        forall|i: int| 0 <= i < a.len() ==> badness(#[trigger] a[i]) <= badness(b[i]),
    ensures
        tally(a, LinkState::Up) >= tally(b, LinkState::Up),
        tally(a, LinkState::Down) <= tally(b, LinkState::Down),
    decreases a.len(),
{
    broadcast use vstd::seq_lib::group_to_multiset_ensures;

    if a.len() > 0 {
        let (c, d) = (a.drop_last(), b.drop_last());
        assert forall|i: int| 0 <= i < c.len() implies badness(#[trigger] c[i]) <= badness(
            d[i],
        ) by {
            assert(badness(a[i]) <= badness(b[i]));
        }
        lemma_tally_order(c, d);
        assert(badness(a[a.len() - 1]) <= badness(b[a.len() - 1]));
        assert(a =~= c.push(a.last()));
        assert(b =~= d.push(b.last()));
    }
}

/// The vote follows the targets: where none of them is worse than before, the vote
/// is no worse. Up stays Up, and what is not Down does not become Down.
pub proof fn law_vote_is_monotone(better: Seq<LinkState>, worse: Seq<LinkState>)
    requires
        better.len() == worse.len(),
        forall|i: int| 0 <= i < better.len() ==> badness(#[trigger] better[i]) <= badness(worse[i]),
    ensures
        vote(worse) == DesiredState::Up ==> vote(better) == DesiredState::Up,
        vote(better) == DesiredState::Down ==> vote(worse) == DesiredState::Down,
        vote(better) == DesiredState::Degraded ==> vote(worse) == DesiredState::Degraded || vote(
            worse,
        ) == DesiredState::Down,
{
    lemma_tally_order(better, worse);
    lemma_tally_total(better);
    lemma_tally_total(worse);
}

/// The vote is Up exactly when more than half of the targets are Up, and Down
/// exactly when more than half are Down.
pub proof fn law_strict_majority(states: Seq<LinkState>)
    ensures
        vote(states) == DesiredState::Up <==> 2 * tally(states, LinkState::Up) > states.len(),
        vote(states) == DesiredState::Down <==> 2 * tally(states, LinkState::Down) > states.len(),
        vote(states) == DesiredState::Degraded <==> (2 * tally(states, LinkState::Down)
            <= states.len() && 2 * (tally(states, LinkState::Down) + tally(
            states,
            LinkState::Degraded,
        )) > states.len()),
{
    lemma_tally_total(states);
}

// ------------------------------------------------------------ target reducer

/// Up is 0, Degraded 1, Down 2.
pub open spec fn badness(s: LinkState) -> nat {
    match s {
        LinkState::Up => 0,
        LinkState::Degraded => 1,
        LinkState::Down => 2,
    }
}

fn severity(s: LinkState) -> (r: u8)
    ensures
        r == badness(s),
{
    match s {
        LinkState::Up => 0,
        LinkState::Degraded => 1,
        LinkState::Down => 2,
    }
}

/// Whether `a` is strictly better than `b`.
fn is_better(a: LinkState, b: LinkState) -> (r: bool)
    ensures
        r == (badness(a) < badness(b)),
{
    severity(a) < severity(b)
}

/// The next state of a target and its next pending worsening.
///
/// No candidate holds everything. A better candidate takes effect at once and an
/// equal one holds the state; both forget the pending worsening. A worse one is
/// counted, and takes effect when it has been confirmed `hysteresis_bad` times.
pub open spec fn target_step(
    current: LinkState,
    candidate: Option<LinkState>,
    pending: Option<(LinkState, u32)>,
    hysteresis_bad: u32,
) -> (LinkState, Option<(LinkState, u32)>) {
    match candidate {
        None => (current, pending),
        Some(c) => if badness(c) <= badness(current) {
            (c, None)
        } else {
            let confirmed = match pending {
                Some((worse, count)) => if worse == c {
                    count + 1
                } else {
                    0
                },
                None => 0,
            };
            if confirmed == 0 {
                (current, Some((c, 1u32)))
            } else if confirmed >= hysteresis_bad {
                (c, None)
            } else {
                (current, Some((c, confirmed as u32)))
            }
        },
    }
}

/// A pending count that can still be raised by one.
pub open spec fn countable(pending: Option<(LinkState, u32)>) -> bool {
    pending matches Some((_, count)) ==> count < u32::MAX
}

/// The candidate confirms the pending worsening.
pub open spec fn confirms(
    current: LinkState,
    candidate: Option<LinkState>,
    pending: Option<(LinkState, u32)>,
) -> bool {
    match (candidate, pending) {
        (Some(c), Some((worse, count))) => worse == c && badness(c) > badness(current),
        _ => false,
    }
}

/// One step of a target. Returns the new state and the new pending worsening;
/// `None` as the candidate means that nothing was observed.
pub fn reduce_target(
    current: LinkState,
    candidate: Option<LinkState>,
    pending_worse: Option<(LinkState, u32)>,
    hysteresis_bad: u32,
) -> (r: (LinkState, Option<(LinkState, u32)>))
    requires
        confirms(current, candidate, pending_worse) ==> countable(pending_worse),
    ensures
        r == target_step(current, candidate, pending_worse, hysteresis_bad),
        countable(pending_worse) ==> countable(r.1),
{
    let c = match candidate {
        Some(c) => c,
        None => {
            return (current, pending_worse);
        },
    };
    if is_better(c, current) {
        return (c, None);
    }
    if c == current {
        return (current, None);
    }
    match pending_worse {
        Some((ps, count)) => {
            if ps == c {
                let new_count: u32 = count + 1;
                if new_count >= hysteresis_bad {
                    (c, None)
                } else {
                    (current, Some((c, new_count)))
                }
            } else {
                (current, Some((c, 1)))
            }
        },
        None => (current, Some((c, 1))),
    }
}

/// `n` steps of a target with the same candidate each time.
pub open spec fn target_steps(
    current: LinkState,
    candidate: LinkState,
    pending: Option<(LinkState, u32)>,
    hysteresis_bad: u32,
    n: nat,
) -> (LinkState, Option<(LinkState, u32)>)
    decreases n,
{
    if n == 0 {
        (current, pending)
    } else {
        let before = target_steps(current, candidate, pending, hysteresis_bad, (n - 1) as nat);
        target_step(before.0, Some(candidate), before.1, hysteresis_bad)
    }
}

/// Fewer than `hysteresis_bad` worse candidates in a row never move a target:
/// it stays in its state with exactly that many confirmations pending.
pub proof fn law_worsening_is_held(
    current: LinkState,
    candidate: LinkState,
    hysteresis_bad: u32,
    n: nat,
)
    requires
        badness(candidate) > badness(current),
        0 < n < hysteresis_bad,
    ensures
        target_steps(current, candidate, None, hysteresis_bad, n) == (
            current,
            Some((candidate, n as u32)),
        ),
    decreases n,
{
    if n > 1 {
        law_worsening_is_held(current, candidate, hysteresis_bad, (n - 1) as nat);
    } else {
        reveal_with_fuel(target_steps, 2);
    }
}

/// The `hysteresis_bad`-th worse candidate in a row takes effect and leaves
/// nothing pending. (From two on: one candidate alone is always held.)
pub proof fn law_worsening_takes_effect(
    current: LinkState,
    candidate: LinkState,
    hysteresis_bad: u32,
)
    requires
        badness(candidate) > badness(current),
        hysteresis_bad >= 2,
    ensures
        target_steps(current, candidate, None, hysteresis_bad, hysteresis_bad as nat) == (
            candidate,
            None::<(LinkState, u32)>,
        ),
{
    law_worsening_is_held(current, candidate, hysteresis_bad, (hysteresis_bad - 1) as nat);
}

/// A change of state leaves nothing pending, and an improvement needs no
/// confirmation.
pub proof fn law_target_transitions(
    current: LinkState,
    candidate: LinkState,
    pending: Option<(LinkState, u32)>,
    hysteresis_bad: u32,
)
    ensures
        target_step(current, Some(candidate), pending, hysteresis_bad).0 != current
            ==> target_step(current, Some(candidate), pending, hysteresis_bad) == (
            candidate,
            None::<(LinkState, u32)>,
        ),
        badness(candidate) <= badness(current) ==> target_step(
            current,
            Some(candidate),
            pending,
            hysteresis_bad,
        ) == (candidate, None::<(LinkState, u32)>),
{
}

// ------------------------------------------------------------------ recovery

/// A stopwatch that can be paused.
#[derive(Clone, Copy, PartialEq, Eq, Structural, Debug)]
pub struct RecoveryState {
    pub accumulated: Duration,
    pub resumed_at: Option<Instant>,
}

/// The stopwatch at zero, paused.
pub open spec fn recovery_zero() -> RecoveryState {
    RecoveryState { accumulated: Duration { ns: 0 }, resumed_at: None }
}

impl RecoveryState {
    /// Nanoseconds on the stopwatch at `now`.
    pub open spec fn total_ns(self, now: Instant) -> nat {
        (self.accumulated.ns + (if self.resumed_at is Some {
            elapsed_ns(self.resumed_at->0, now)
        } else {
            0
        })) as nat
    }

    /// The stopwatch has room for one more run of any length.
    pub open spec fn has_room(self) -> bool {
        self.accumulated.ns <= u128::MAX - u64::MAX
    }

    /// The stopwatch, running.
    pub open spec fn resumed(self, now: Instant) -> RecoveryState {
        if self.resumed_at is Some {
            self
        } else {
            RecoveryState { resumed_at: Some(now), ..self }
        }
    }

    /// The stopwatch, paused with what it shows at `now`.
    pub open spec fn paused(self, now: Instant) -> RecoveryState {
        RecoveryState {
            accumulated: Duration { ns: self.total_ns(now) as u128 },
            resumed_at: None,
        }
    }

    pub fn new() -> (r: Self)
        ensures
            r == recovery_zero(),
    {
        RecoveryState { accumulated: Duration { ns: 0 }, resumed_at: None }
    }

    pub fn resume(&mut self, now: Instant)
        ensures
            *final(self) == old(self).resumed(now),
    {
        if self.resumed_at.is_none() {
            self.resumed_at = Some(now);
        }
    }

    pub fn pause(&mut self, now: Instant)
        requires
            old(self).has_room(),
        ensures
            *final(self) == old(self).paused(now),
            final(self).accumulated.ns <= old(self).accumulated.ns + u64::MAX,
    {
        if let Some(started) = self.resumed_at {
            let run: u64 = now.nanos_since(started);
            self.accumulated = Duration { ns: self.accumulated.ns + run as u128 };
            self.resumed_at = None;
        }
    }

    pub fn reset(&mut self)
        ensures
            *final(self) == recovery_zero(),
    {
        self.accumulated = Duration { ns: 0 };
        self.resumed_at = None;
    }

    pub fn total(&self, now: Instant) -> (d: Duration)
        requires
            self.has_room(),
        ensures
            d.ns == self.total_ns(now),
    {
        let active: u64 = match self.resumed_at {
            Some(s) => now.nanos_since(s),
            None => 0,
        };
        Duration { ns: self.accumulated.ns + active as u128 }
    }

    /// What is left of `dwell`; `None` when it has been served.
    pub fn remaining(&self, now: Instant, dwell: Duration) -> (r: Option<Duration>)
        requires
            self.has_room(),
        ensures
            match r {
                None => self.total_ns(now) >= dwell.ns,
                Some(d) => self.total_ns(now) + d.ns == dwell.ns && d.ns > 0,
            },
    {
        let t = self.total(now);
        if t.ns >= dwell.ns {
            None
        } else {
            Some(Duration { ns: dwell.ns - t.ns })
        }
    }
}

/// A paused stopwatch does not advance, however long the pause.
pub proof fn law_pause_is_a_pause(r: RecoveryState, at: Instant, later: Instant)
    requires
        r.has_room(),
    ensures
        r.paused(at).total_ns(later) == r.total_ns(at),
        r.paused(at).paused(later) == r.paused(at),
{
}

/// Resuming after a pause adds the new run to what was accumulated before it.
pub proof fn law_resume_continues(r: RecoveryState, at: Instant, again: Instant, now: Instant)
    requires
        r.has_room(),
    ensures
        r.paused(at).resumed(again).total_ns(now) == r.total_ns(at) + elapsed_ns(again, now),
{
}

// -------------------------------------------------------- connection reducer

/// The next state of the connection.
///
/// Worsening is immediate. Recovery is stepwise: Down leaves only to Degraded,
/// and Degraded leaves to Up once the votes for Up have lasted `dwell`. An
/// inconclusive vote holds the state.
pub open spec fn connection_state(
    current: LinkState,
    desired: DesiredState,
    recovery: RecoveryState,
    dwell: Duration,
    now: Instant,
) -> LinkState {
    match (current, desired) {
        (_, DesiredState::Inconclusive) => current,
        (_, DesiredState::Down) => LinkState::Down,
        (_, DesiredState::Degraded) => LinkState::Degraded,
        (LinkState::Up, DesiredState::Up) => LinkState::Up,
        (LinkState::Down, DesiredState::Up) => LinkState::Degraded,
        (LinkState::Degraded, DesiredState::Up) => if recovery.resumed(now).total_ns(now)
            >= dwell.ns {
            LinkState::Up
        } else {
            LinkState::Degraded
        },
    }
}

/// The next recovery stopwatch: it runs while a degraded connection is voted Up,
/// pauses while the vote is inconclusive, and is cleared in every other case but
/// one (a connection that is Down under an inconclusive vote keeps it as it is).
pub open spec fn connection_recovery(
    current: LinkState,
    desired: DesiredState,
    recovery: RecoveryState,
    dwell: Duration,
    now: Instant,
) -> RecoveryState {
    match (current, desired) {
        (LinkState::Degraded, DesiredState::Up) => if recovery.resumed(now).total_ns(now)
            >= dwell.ns {
            recovery_zero()
        } else {
            recovery.resumed(now)
        },
        (LinkState::Degraded, DesiredState::Inconclusive) => recovery.paused(now),
        (LinkState::Down, DesiredState::Inconclusive) => recovery,
        _ => recovery_zero(),
    }
}

/// One step of the connection. Returns the new state and moves `recovery`.
pub fn reduce_connection(
    current: LinkState,
    desired: DesiredState,
    recovery: &mut RecoveryState,
    recover_dwell: Duration,
    now: Instant,
) -> (s: LinkState)
    requires
        old(recovery).has_room(),
    ensures
        s == connection_state(current, desired, *old(recovery), recover_dwell, now),
        *final(recovery) == connection_recovery(
            current,
            desired,
            *old(recovery),
            recover_dwell,
            now,
        ),
        final(recovery).accumulated.ns <= old(recovery).accumulated.ns + u64::MAX,
{
    match current {
        LinkState::Up => {
            recovery.reset();
            match desired {
                DesiredState::Down | DesiredState::Degraded => desired.to_link_state(),
                DesiredState::Up | DesiredState::Inconclusive => LinkState::Up,
            }
        },
        LinkState::Degraded => match desired {
            DesiredState::Down => {
                recovery.reset();
                LinkState::Down
            },
            DesiredState::Up => {
                recovery.resume(now);
                if recovery.total(now).ns >= recover_dwell.ns {
                    recovery.reset();
                    LinkState::Up
                } else {
                    LinkState::Degraded
                }
            },
            DesiredState::Degraded => {
                recovery.reset();
                LinkState::Degraded
            },
            DesiredState::Inconclusive => {
                recovery.pause(now);
                LinkState::Degraded
            },
        },
        LinkState::Down => match desired {
            DesiredState::Down => {
                recovery.reset();
                LinkState::Down
            },
            DesiredState::Degraded | DesiredState::Up => {
                recovery.reset();
                LinkState::Degraded
            },
            DesiredState::Inconclusive => LinkState::Down,
        },
    }
}

/// Recovery never skips Degraded, and reaches Up from Degraded only when the
/// stopwatch shows at least the dwell.
pub proof fn law_recovery_is_stepwise(
    current: LinkState,
    desired: DesiredState,
    recovery: RecoveryState,
    dwell: Duration,
    now: Instant,
)
    ensures
        current == LinkState::Down ==> connection_state(current, desired, recovery, dwell, now)
            != LinkState::Up,
        current != LinkState::Up && connection_state(current, desired, recovery, dwell, now)
            == LinkState::Up ==> {
            &&& current == LinkState::Degraded
            &&& desired == DesiredState::Up
            &&& recovery.resumed(now).total_ns(now) >= dwell.ns
        },
{
}

/// An inconclusive vote holds the state of the connection and lets the
/// stopwatch of a degraded one stand still.
pub proof fn law_inconclusive_holds(
    current: LinkState,
    recovery: RecoveryState,
    dwell: Duration,
    now: Instant,
    later: Instant,
)
    requires
        recovery.has_room(),
    ensures
        connection_state(current, DesiredState::Inconclusive, recovery, dwell, now) == current,
        current == LinkState::Degraded ==> connection_recovery(
            current,
            DesiredState::Inconclusive,
            recovery,
            dwell,
            now,
        ).total_ns(later) == recovery.total_ns(now),
{
}

/// Every change of state starts with a cleared stopwatch, so no step of a
/// recovery profits from time that was served before it.
pub proof fn law_each_step_serves_its_own_dwell(
    current: LinkState,
    desired: DesiredState,
    recovery: RecoveryState,
    dwell: Duration,
    now: Instant,
)
    requires
        connection_state(current, desired, recovery, dwell, now) != current,
    ensures
        connection_recovery(current, desired, recovery, dwell, now) == recovery_zero(),
{
}

/// A target that gets no sample stays as it is. A worse candidate that is not the
/// pending one is held and starts the count anew, whatever was pending before.
pub proof fn law_another_worsening_starts_anew(
    current: LinkState,
    candidate: LinkState,
    pending: Option<(LinkState, u32)>,
    hysteresis_bad: u32,
)
    ensures
        target_step(current, None, pending, hysteresis_bad) == (current, pending),
        badness(candidate) > badness(current) && (pending matches Some((worse, _)) ==> worse
            != candidate) ==> target_step(current, Some(candidate), pending, hysteresis_bad) == (
            current,
            Some((candidate, 1u32)),
        ),
{
}

/// A confirmed worsening: the pending candidate comes once more. It takes effect when it
/// has then been seen `hysteresis_bad` times, and is counted before that.
pub proof fn law_confirmation_counts(
    current: LinkState,
    candidate: LinkState,
    count: u32,
    hysteresis_bad: u32,
)
    requires
        candidate == LinkState::Down && current != LinkState::Down || candidate
            == LinkState::Degraded && current == LinkState::Up,
        0 < count < u32::MAX,
    ensures
        ({
            let next = target_step(
                current,
                Some(candidate),
                Some((candidate, count)),
                hysteresis_bad,
            );
            &&& count + 1 >= hysteresis_bad ==> next.0 == candidate && next.1 is None
            &&& count + 1 < hysteresis_bad ==> next.0 == current && next.1 == Some(
                (candidate, (count + 1) as u32),
            )
        }),
{
}

/// The connection follows a vote for trouble at once, in either direction: a vote for
/// Down takes it down, one for Degraded leaves it degraded, whatever it was. What a
/// recovery had served is forgotten.
pub proof fn law_trouble_is_followed_at_once(
    current: LinkState,
    recovery: RecoveryState,
    dwell: Duration,
    now: Instant,
)
    ensures
        connection_state(current, DesiredState::Down, recovery, dwell, now) == LinkState::Down,
        connection_state(current, DesiredState::Degraded, recovery, dwell, now)
            == LinkState::Degraded,
        connection_recovery(current, DesiredState::Down, recovery, dwell, now).accumulated.ns == 0,
        connection_recovery(current, DesiredState::Down, recovery, dwell, now).resumed_at is None,
        connection_recovery(
            current,
            DesiredState::Degraded,
            recovery,
            dwell,
            now,
        ).accumulated.ns == 0,
        connection_recovery(
            current,
            DesiredState::Degraded,
            recovery,
            dwell,
            now,
        ).resumed_at is None,
{
}

/// A vote for Up leads a connection that is down to Degraded and leaves one that is up
/// where it is; neither has served anything of a recovery then.
pub proof fn law_up_improves_step_by_step(recovery: RecoveryState, dwell: Duration, now: Instant)
    ensures
        connection_state(LinkState::Down, DesiredState::Up, recovery, dwell, now)
            == LinkState::Degraded,
        connection_state(LinkState::Up, DesiredState::Up, recovery, dwell, now) == LinkState::Up,
        connection_recovery(
            LinkState::Down,
            DesiredState::Up,
            recovery,
            dwell,
            now,
        ).accumulated.ns == 0,
        connection_recovery(LinkState::Down, DesiredState::Up, recovery, dwell, now).resumed_at
            is None,
        connection_recovery(
            LinkState::Up,
            DesiredState::Up,
            recovery,
            dwell,
            now,
        ).accumulated.ns == 0,
        connection_recovery(LinkState::Up, DesiredState::Up, recovery, dwell, now).resumed_at
            is None,
{
}

/// A degraded connection that is voted Up without a break is up again when the votes have
/// lasted the dwell, and not before: here the stopwatch stood at `served` when the first
/// of two votes came in, at `first`.
pub proof fn law_dwell_is_served(
    served: u128,
    dwell: Duration,
    first: Instant,
    second: Instant,
)
    requires
        served < dwell.ns,
        served <= u128::MAX - u64::MAX,
        first.ns <= second.ns,
    ensures
        ({
            let start = RecoveryState { accumulated: Duration { ns: served }, resumed_at: None };
            let deg = LinkState::Degraded;
            let running = connection_recovery(deg, DesiredState::Up, start, dwell, first);
            &&& connection_state(deg, DesiredState::Up, start, dwell, first) == deg
            &&& connection_state(deg, DesiredState::Up, running, dwell, second) == LinkState::Up
                <==> served + (second.ns - first.ns) >= dwell.ns
            &&& connection_state(deg, DesiredState::Up, running, dwell, second) == LinkState::Up
                || connection_recovery(deg, DesiredState::Up, running, dwell, second) == running
        }),
{
}

/// While the vote is inconclusive a recovery that was running keeps what it had served
/// and does not go on; a connection that is down keeps its stopwatch untouched, one that
/// is up has none.
pub proof fn law_break_keeps_what_was_served(
    served: u128,
    since: Instant,
    dwell: Duration,
    now: Instant,
)
    requires
        served <= u128::MAX - u64::MAX,
        since.ns <= now.ns,
    ensures
        ({
            let running = RecoveryState {
                accumulated: Duration { ns: served },
                resumed_at: Some(since),
            };
            let held = connection_recovery(
                LinkState::Degraded,
                DesiredState::Inconclusive,
                running,
                dwell,
                now,
            );
            &&& held.resumed_at is None
            &&& held.accumulated.ns == served + (now.ns - since.ns)
            &&& connection_recovery(
                LinkState::Down,
                DesiredState::Inconclusive,
                running,
                dwell,
                now,
            ) == running
            &&& connection_recovery(
                LinkState::Up,
                DesiredState::Inconclusive,
                running,
                dwell,
                now,
            ).total_ns(now) == 0
        }),
{
}

/// The vote counts heads: with all targets in one state it names that state, and without
/// targets it names none.
pub proof fn law_unanimous_vote(states: Seq<LinkState>, s: LinkState)
    requires
        forall|i: int| 0 <= i < states.len() ==> #[trigger] states[i] == s,
    ensures
        tally(states, s) == states.len(),
        states.len() == 0 ==> vote(states) == DesiredState::Inconclusive,
        states.len() > 0 ==> match s {
            LinkState::Up => vote(states) == DesiredState::Up,
            LinkState::Degraded => vote(states) == DesiredState::Degraded,
            LinkState::Down => vote(states) == DesiredState::Down,
        },
    decreases states.len(),
{
    broadcast use vstd::seq_lib::group_to_multiset_ensures;

    lemma_tally_total(states);
    states.to_multiset_ensures();
    if states.len() > 0 {
        let d = states.drop_last();
        assert forall|i: int| 0 <= i < d.len() implies #[trigger] d[i] == s by {
            assert(d[i] == states[i]);
        }
        law_unanimous_vote(d, s);
        assert(states =~= d.push(s));
        d.to_multiset_ensures();
    }
}

/// A conclusive vote names the state that it asks for.
pub proof fn law_votes_name_their_states(d: DesiredState)
    ensures
        link_state_of(d) == LinkState::Up <==> d == DesiredState::Up,
        link_state_of(d) == LinkState::Degraded <==> d == DesiredState::Degraded,
{
}

} // verus!
