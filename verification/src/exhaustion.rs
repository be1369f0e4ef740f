//! A race that cannot succeed comes to an end.
//!
//! The world considered here is the plainest one in which every attempt fails: the
//! connector is always ready, the candidates are all at hand, and an attempt fails as
//! soon as the outstanding attempts are asked. In that world a race that is resumed
//! whenever it suspends is decided, with a failure, after a number of passes that
//! the candidates and the outstanding attempts bound.

use crate::address::Address;
use crate::future::{Action, Event, Polled, RaceError, RaceView};
use crate::sort::{lemma_poll_buffered, lemma_poll_next};
use vstd::prelude::*;

verus! {

/// The address source of the failing world.
pub struct Candidates {
    /// What the source has still to yield.
    pub rest: Seq<Address>,
    /// Whether the source has answered a pull with its end, from when on it reports
    /// that it has ended.
    pub ended: bool,
}

/// The source is pulled for the race until the race asks for something else: an
/// address is handed over at each pull, and the end once none is left. Gives the race
/// and the source afterwards, and what the race then asks for.
pub open spec fn pull<R, E>(race: RaceView, source: Candidates) -> (
    RaceView,
    Candidates,
    Action<R, E>,
)
    decreases source.rest.len(),
{
    if source.rest.len() == 0 {
        let (after, action) = race.poll::<R, E>(Event::Source(Polled::Ready(None)));
        (after, Candidates { rest: source.rest, ended: true }, action)
    } else {
        let (after, action) = race.poll::<R, E>(
            Event::Source(Polled::Ready(Some(source.rest[0]))),
        );
        let left = Candidates { rest: source.rest.skip(1), ended: source.ended };
        if action == Action::<R, E>::PullSource {
            pull(after, left)
        } else {
            (after, left, action)
        }
    }
}

/// One pass of the race in the failing world, from being resumed at the clock reading
/// `now` to its suspending or its decision: every action of the race is carried out,
/// the connector is ready, and an outstanding attempt fails with `err` when asked.
pub open spec fn failing_pass<R, E>(race: RaceView, source: Candidates, err: E, now: u128) -> (
    RaceView,
    Candidates,
    Action<R, E>,
) {
    let (resumed, first) = race.poll::<R, E>(Event::Resumed { now });
    let (asked, second) = if first == Action::<R, E>::CheckReadiness {
        resumed.poll::<R, E>(Event::Readiness(true))
    } else {
        (resumed, first)
    };
    let (pulled, left, third) = if second == Action::<R, E>::PullSource {
        pull::<R, E>(asked, source)
    } else {
        (asked, source, second)
    };
    let (started, _) = if third is Start {
        pulled.poll::<R, E>(Event::Started { now })
    } else {
        (pulled, third)
    };
    let polled = if started.in_flight > 0 {
        Polled::Ready(Some(Err(err)))
    } else {
        Polled::Ready(None)
    };
    let (after, last) = started.poll::<R, E>(
        Event::Attempts { polled, source_terminated: left.ended },
    );
    (after, left, last)
}

/// The race in the failing world, resumed again and again: what it has come to when
/// it is decided, or after `passes` further passes at the latest.
pub open spec fn failing_race<R, E>(
    race: RaceView,
    source: Candidates,
    err: E,
    now: u128,
    passes: nat,
) -> Action<R, E>
    decreases passes,
{
    let (after, left, action) = failing_pass::<R, E>(race, source, err, now);
    if action is Ready || passes == 0 {
        action
    } else {
        failing_race(after, left, err, now, (passes - 1) as nat)
    }
}

/// The race is decided, and with a failure.
pub open spec fn is_failure<R, E>(action: Action<R, E>) -> bool {
    action matches Action::Ready(Err(_))
}

/// The work that lies before a race in the failing world: two for every attempt that
/// has still to fail, started or not, and one more while the race has to be made to
/// want its next attempt.
pub open spec fn work(race: RaceView, source: Candidates) -> nat {
    2 * (source.rest.len() + race.ips.queue.len() + race.in_flight) + if race.want {
        0nat
    } else {
        1nat
    }
}

/// Pulling the source for a race ends with an attempt to start, for which one
/// candidate is used up, or with nothing left at all: the source has ended and the
/// buffer is empty. Only the interleaver of the race changes.
pub proof fn lemma_pull<R, E>(race: RaceView, source: Candidates)
    requires
        race.ips.wf(),
        !race.ips.switch_buffered(),
    ensures
        ({
            let (after, left, action) = pull::<R, E>(race, source);
            &&& after.ips.wf()
            &&& after == RaceView { ips: after.ips, ..race }
            &&& action is Start || action == Action::<R, E>::PollAttempts
            &&& action is Start ==> left.rest.len() + after.ips.queue.len() + 1
                == source.rest.len() + race.ips.queue.len()
            &&& action == Action::<R, E>::PollAttempts ==> left.ended && left.rest.len() == 0
                && after.ips.queue.len() == 0
        }),
    decreases source.rest.len(),
{
    let none = Seq::<Address>::empty();
    if source.rest.len() == 0 {
        lemma_poll_next(race.ips, None, none);
    } else {
        let ip = source.rest[0];
        lemma_poll_next(race.ips, Some(ip), none);
        let (after, action) = race.poll::<R, E>(Event::Source(Polled::Ready(Some(ip))));
        let left = Candidates { rest: source.rest.skip(1), ended: source.ended };
        if action == Action::<R, E>::PullSource {
            lemma_pull::<R, E>(after, left);
        }
    }
}

/// A pass in the failing world decides the race with a failure, or leaves less work
/// and has the race ask to be resumed at once.
pub proof fn lemma_failing_pass<R, E>(race: RaceView, source: Candidates, err: E, now: u128)
    requires
        race.ips.wf(),
    ensures
        ({
            let (after, left, action) = failing_pass::<R, E>(race, source, err, now);
            &&& after.ips.wf()
            &&& is_failure(action) || (action == Action::<R, E>::Pending { wake: true } && work(
                after,
                left,
            ) < work(race, source))
        }),
{
    let none = Seq::<Address>::empty();
    let (resumed, first) = race.poll::<R, E>(Event::Resumed { now });
    lemma_poll_buffered(resumed.ips, none);
    let (asked, second) = if first == Action::<R, E>::CheckReadiness {
        resumed.poll::<R, E>(Event::Readiness(true))
    } else {
        (resumed, first)
    };
    if second == Action::<R, E>::PullSource {
        lemma_pull::<R, E>(asked, source);
    }
}

/// Exhaustion, as a whole: in the failing world a race is decided, and with a
/// failure, after at most as many passes as there is work before it, and one more.
/// It never hangs.
pub proof fn lemma_failing_race_ends<R, E>(race: RaceView, source: Candidates, err: E, now: u128)
    requires
        race.ips.wf(),
    ensures
        is_failure(failing_race::<R, E>(race, source, err, now, work(race, source))),
    decreases work(race, source),
{
    lemma_failing_pass::<R, E>(race, source, err, now);
    let (after, left, action) = failing_pass::<R, E>(race, source, err, now);
    if !(action is Ready) {
        lemma_failing_race_ends::<R, E>(after, left, err, now);
        lemma_more_passes_change_nothing::<R, E>(
            after,
            left,
            err,
            now,
            work(after, left),
            (work(race, source) - 1) as nat,
        );
    }
}

/// Once a race in the failing world is decided within some number of passes, more
/// passes come to the same.
pub proof fn lemma_more_passes_change_nothing<R, E>(
    race: RaceView,
    source: Candidates,
    err: E,
    now: u128,
    passes: nat,
    more: nat,
)
    requires
        passes <= more,
        failing_race::<R, E>(race, source, err, now, passes) is Ready,
    ensures
        failing_race::<R, E>(race, source, err, now, more) == failing_race::<R, E>(
            race,
            source,
            err,
            now,
            passes,
        ),
    decreases passes,
{
    let (after, left, action) = failing_pass::<R, E>(race, source, err, now);
    if !(action is Ready) && passes > 0 {
        lemma_more_passes_change_nothing::<R, E>(
            after,
            left,
            err,
            now,
            (passes - 1) as nat,
            (more - 1) as nat,
        );
    }
}

/// Empty input: a race that begins with no candidates at all is decided in its first
/// pass, with the error that says no address could be used.
pub proof fn lemma_empty_race_ends_at_once<R, E>(delay: nat, begun: nat, err: E, now: u128)
    ensures
        failing_pass::<R, E>(
            RaceView::new(delay, begun),
            Candidates { rest: Seq::empty(), ended: false },
            err,
            now,
        ).2 == Action::<R, E>::Ready(Err(RaceError::NotFound)),
{
}

} // verus!
