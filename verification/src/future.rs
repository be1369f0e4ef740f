//! The race driver: starts connection attempts one after another, a fixed delay
//! apart, and ends with the first success or with one failure.
//!
//! The driver decides; it performs nothing. Whoever runs a race hands it one
//! [`Event`] at a time and carries out the [`Action`] that comes back:
//!
//! | action | what the caller does | event handed back |
//! |---|---|---|
//! | [`Action::CheckReadiness`] | asks the connector whether it takes new work | [`Event::Readiness`] |
//! | [`Action::PullSource`] | pulls the address source once | [`Event::Source`] |
//! | [`Action::Start`] | starts an attempt for the address and keeps it | [`Event::Started`] |
//! | [`Action::PollAttempts`] | asks the outstanding attempts for one that resolved | [`Event::Attempts`] |
//! | [`Action::Pending`] | suspends; asks to be resumed at once where `wake` is set | [`Event::Resumed`], when resumed |
//! | [`Action::Ready`] | drops what is outstanding and returns the result | none |

use crate::address::Address;
use crate::sort::{addresses, lemma_poll_buffered, lemma_poll_next, Next, Sort, SortView};
use crate::timer::{duration_nanos, Timer};
use std::time::Duration;
use vstd::prelude::*;
use vstd::std_specs::convert::FromSpec;

verus! {

/// What a poll of something outside the race came to.
#[derive(Debug, PartialEq, Eq)]
pub enum Polled<T> {
    /// It answered.
    Ready(T),
    /// It has no answer yet.
    Pending,
}

/// Why a race ended without a connection.
#[derive(Debug, PartialEq, Eq)]
pub enum RaceError<E> {
    /// Every attempt failed; this is the error of the one that failed last.
    Attempt(E),
    /// No address could be used: there was no attempt whose error could be returned.
    NotFound,
}

/// The type of errors of std's I/O, which the error of an exhausted race is made from.
#[verifier::external_type_specification]
#[verifier::external_body]
pub struct ExIoError(std::io::Error);

/// The I/O error of kind `NotFound` that carries `message`: what
/// `std::io::Error::new` returns for that kind and that payload.
pub uninterp spec fn not_found_error(message: Seq<char>) -> std::io::Error;

/// Calls `std::io::Error::new` with the kind `NotFound` and `message` as the payload.
/// The result is the error of that kind with that message, which
/// [`not_found_error`] names.
#[verifier::external_body]
fn not_found(message: &str) -> (err: std::io::Error)
    ensures
        err == not_found_error(message@),
{
    std::io::Error::new(std::io::ErrorKind::NotFound, message)
}

/// The error of a race for which no address could be used.
pub fn empty_err() -> (err: std::io::Error)
    ensures
        err == not_found_error("happy eyeballs not found any address"@),
{
    not_found("happy eyeballs not found any address")
}

impl<E> RaceError<E> {
    /// The error in the caller's own type: the error of the last attempt as it is,
    /// and [`empty_err`], converted, where there was none.
    pub fn into_error(self) -> (err: E) where E: From<std::io::Error>
        ensures
            self matches RaceError::Attempt(last) ==> err == last,
            self is NotFound && E::obeys_from_spec() ==> err == E::from_spec(
                not_found_error("happy eyeballs not found any address"@),
            ),
    {
        match self {
            RaceError::Attempt(last) => last,
            RaceError::NotFound => E::from(empty_err()),
        }
    }

    /// The error in the caller's own type: the error of the last attempt as it is,
    /// and what `exhausted` makes where there was none.
    pub fn into_error_with<F: FnOnce() -> E>(self, exhausted: F) -> (err: E)
        requires
            self is NotFound ==> exhausted.requires(()),
        ensures
            self matches RaceError::Attempt(last) ==> err == last,
            self is NotFound ==> exhausted.ensures((), err),
    {
        match self {
            RaceError::Attempt(last) => last,
            RaceError::NotFound => exhausted(),
        }
    }
}

/// What happened outside the race since its last decision.
#[derive(Debug, PartialEq, Eq)]
pub enum Event<R, E> {
    /// The scheduler resumed the race, at the clock reading `now`.
    Resumed { now: u128 },
    /// The connector said whether it is ready to take new work.
    Readiness(bool),
    /// The address source was pulled once: it has no address yet, or yields one, or
    /// has ended.
    Source(Polled<Option<Address>>),
    /// An attempt was started and added to the outstanding ones, at the clock reading
    /// `now`.
    Started { now: u128 },
    /// The outstanding attempts were asked for one that resolved: none has yet, or
    /// there is none outstanding, or one resolved with this result. With it comes
    /// whether the address source reports that it has ended.
    Attempts { polled: Polled<Option<Result<R, E>>>, source_terminated: bool },
}

/// What the race asks its driver to do next.
#[derive(Debug, PartialEq, Eq)]
pub enum Action<R, E> {
    /// Ask the connector whether it is ready to take new work.
    CheckReadiness,
    /// Pull the address source once.
    PullSource,
    /// Start an attempt for this address and add it to the outstanding ones.
    Start(Address),
    /// Ask the outstanding attempts for one that resolved.
    PollAttempts,
    /// The race is not decided. With `wake` set it is to be resumed at once, else
    /// when the timer, the connector, the source or an attempt has news.
    Pending { wake: bool },
    /// The race is decided; whatever is still outstanding is to be dropped.
    Ready(Result<R, RaceError<E>>),
}

/// A race as a mathematical value.
pub struct RaceView {
    /// The delay between the starts of two attempts, in nanoseconds.
    pub delay: nat,
    /// The clock reading from which on the attempt timer counts as elapsed.
    pub deadline: nat,
    /// Whether a new attempt is to be started as soon as the connector is ready.
    pub want: bool,
    /// The interleaver that orders the candidates.
    pub ips: SortView,
    /// The number of attempts that were started and have not resolved.
    pub in_flight: nat,
}

impl RaceView {
    /// A race that begins at the clock reading `now`: it wants its first attempt at
    /// once, and its timer has elapsed already.
    pub open spec fn new(delay: nat, now: nat) -> RaceView {
        RaceView { delay, deadline: now, want: true, ips: SortView::new(), in_flight: 0 }
    }

    /// No attempt is outstanding and no address will ever come.
    pub open spec fn exhausted(self, source_terminated: bool) -> bool {
        self.in_flight == 0 && self.ips.is_terminated(source_terminated)
    }

    /// The number of attempts outstanding once one of them has resolved.
    pub open spec fn one_resolved(self) -> nat {
        if self.in_flight > 0 {
            (self.in_flight - 1) as nat
        } else {
            0
        }
    }

    /// The race resumes: an elapsed timer makes it want the next attempt.
    pub open spec fn on_resumed<R, E>(self, now: nat) -> (RaceView, Action<R, E>) {
        let want = self.want || now >= self.deadline;
        (
            RaceView { want, ..self },
            if want {
                Action::CheckReadiness
            } else {
                Action::PollAttempts
            },
        )
    }

    /// The connector answered: a race that wants an attempt and finds the connector
    /// ready takes the next address, from the buffer where that holds a switch.
    pub open spec fn on_readiness<R, E>(self, ready: bool) -> (RaceView, Action<R, E>) {
        if self.want && ready {
            let (ips, next) = self.ips.poll_buffered();
            (
                RaceView { ips, ..self },
                match next {
                    Some(ip) => Action::Start(ip),
                    None => Action::PullSource,
                },
            )
        } else {
            (self, Action::PollAttempts)
        }
    }

    /// The source answered.
    pub open spec fn on_source<R, E>(self, polled: Polled<Option<Address>>) -> (
        RaceView,
        Action<R, E>,
    ) {
        match polled {
            Polled::Pending => (self, Action::PollAttempts),
            Polled::Ready(item) => {
                let (ips, next) = self.ips.poll_next(item);
                (
                    RaceView { ips, ..self },
                    match next {
                        Next::Ready(Some(ip)) => Action::Start(ip),
                        Next::Ready(None) => Action::PollAttempts,
                        Next::Pull => Action::PullSource,
                    },
                )
            },
        }
    }

    /// An attempt was started: it is outstanding now, the timer is rearmed and the
    /// wish for an attempt is met.
    pub open spec fn on_started<R, E>(self, now: nat) -> (RaceView, Action<R, E>) {
        (
            RaceView {
                in_flight: self.in_flight + 1,
                deadline: now + self.delay,
                want: false,
                ..self
            },
            Action::PollAttempts,
        )
    }

    /// The outstanding attempts answered.
    pub open spec fn on_attempts<R, E>(
        self,
        polled: Polled<Option<Result<R, E>>>,
        source_terminated: bool,
    ) -> (RaceView, Action<R, E>) {
        match polled {
            Polled::Pending => (self, Action::Pending { wake: false }),
            Polled::Ready(Some(Ok(output))) => (
                RaceView { in_flight: 0, ..self },
                Action::Ready(Ok(output)),
            ),
            Polled::Ready(Some(Err(err))) => {
                let left = RaceView { in_flight: self.one_resolved(), ..self };
                if left.exhausted(source_terminated) {
                    (left, Action::Ready(Err(RaceError::Attempt(err))))
                } else {
                    (RaceView { want: true, ..left }, Action::Pending { wake: true })
                }
            },
            Polled::Ready(None) => if self.exhausted(source_terminated) {
                (self, Action::Ready(Err(RaceError::NotFound)))
            } else {
                (RaceView { want: true, ..self }, Action::Pending { wake: true })
            },
        }
    }

    /// The decision of the race on `event`: the state it moves to, and what it asks
    /// for.
    pub open spec fn poll<R, E>(self, event: Event<R, E>) -> (RaceView, Action<R, E>) {
        match event {
            Event::Resumed { now } => self.on_resumed(now as nat),
            Event::Readiness(ready) => self.on_readiness(ready),
            Event::Source(polled) => self.on_source(polled),
            Event::Started { now } => self.on_started(now as nat),
            Event::Attempts { polled, source_terminated } => self.on_attempts(
                polled,
                source_terminated,
            ),
        }
    }
}

/// One race: the attempt delay, the attempt timer, the wish for a next attempt, the
/// interleaver, and the number of attempts outstanding.
pub struct HappyEyeballsFut {
    dur: u128,
    timer: Timer,
    want: bool,
    ips: Sort,
    queue: usize,
}

impl View for HappyEyeballsFut {
    type V = RaceView;

    closed spec fn view(&self) -> RaceView {
        RaceView {
            delay: self.dur as nat,
            deadline: self.timer.deadline(),
            want: self.want,
            ips: self.ips@,
            in_flight: self.queue as nat,
        }
    }
}

impl HappyEyeballsFut {
    /// Begins a race at the clock reading `now`, with `dur` between the starts of two
    /// attempts. The race wants its first attempt at once.
    pub fn new(dur: Duration, now: u128) -> (fut: HappyEyeballsFut)
        ensures
            fut@ == RaceView::new(duration_nanos(dur), now as nat),
            fut@.ips.wf(),
    {
        HappyEyeballsFut {
            dur: dur.as_nanos(),
            want: true,
            ips: Sort::new(),
            queue: 0,
            timer: Timer::sleep_until(now),
        }
    }

    /// The number of attempts that were started and have not resolved.
    pub fn in_flight(&self) -> (count: usize)
        ensures
            count == self@.in_flight,
    {
        self.queue
    }

    /// Decides on one event: moves the race on and says what is to be done next.
    ///
    /// The number of outstanding attempts has to fit its counter: an attempt can be
    /// counted in only while fewer than `usize::MAX` are outstanding.
    pub fn poll<R, E>(&mut self, event: Event<R, E>) -> (action: Action<R, E>)
        requires
            event is Started ==> old(self)@.in_flight < usize::MAX,
        ensures
            (final(self)@, action) == old(self)@.poll(event),
            old(self)@.ips.wf() && (event is Source ==> !old(self)@.ips.switch_buffered())
                ==> final(self)@.ips.wf(),
    {
        match event {
            Event::Resumed { now } => {
                self.want = self.want || self.timer.is_elapsed(now);
                if self.want {
                    Action::CheckReadiness
                } else {
                    Action::PollAttempts
                }
            },
            Event::Readiness(ready) => {
                if self.want && ready {
                    match self.ips.poll_buffered() {
                        Some(ip) => Action::Start(ip),
                        None => Action::PullSource,
                    }
                } else {
                    Action::PollAttempts
                }
            },
            Event::Source(polled) => match polled {
                Polled::Pending => Action::PollAttempts,
                Polled::Ready(item) => match self.ips.poll_next(item) {
                    Next::Ready(Some(ip)) => Action::Start(ip),
                    Next::Ready(None) => Action::PollAttempts,
                    Next::Pull => Action::PullSource,
                },
            },
            Event::Started { now } => {
                self.queue = self.queue + 1;
                self.timer.reset(now, self.dur);
                self.want = false;
                Action::PollAttempts
            },
            Event::Attempts { polled, source_terminated } => match polled {
                Polled::Pending => Action::Pending { wake: false },
                Polled::Ready(Some(Ok(output))) => {
                    self.queue = 0;
                    Action::Ready(Ok(output))
                },
                Polled::Ready(Some(Err(err))) => {
                    if self.queue > 0 {
                        self.queue = self.queue - 1;
                    }
                    if self.queue == 0 && self.ips.is_terminated(source_terminated) {
                        Action::Ready(Err(RaceError::Attempt(err)))
                    } else {
                        self.want = true;
                        Action::Pending { wake: true }
                    }
                },
                Polled::Ready(None) => {
                    if self.queue == 0 && self.ips.is_terminated(source_terminated) {
                        Action::Ready(Err(RaceError::NotFound))
                    } else {
                        self.want = true;
                        Action::Pending { wake: true }
                    }
                },
            },
        }
    }
}

/// Success precedence: the first attempt that is seen to succeed decides the race
/// with its result, whatever else is outstanding, wanted or still to come; nothing is
/// left outstanding afterwards.
pub proof fn lemma_success_decides<R, E>(race: RaceView, output: R, source_terminated: bool)
    ensures
        race.poll(
            Event::<R, E>::Attempts { polled: Polled::Ready(Some(Ok(output))), source_terminated },
        ).1 == Action::<R, E>::Ready(Ok(output)),
        race.poll(
            Event::<R, E>::Attempts { polled: Polled::Ready(Some(Ok(output))), source_terminated },
        ).0.in_flight == 0,
{
}

/// Exhaustion: a failure decides the race exactly when it leaves no attempt
/// outstanding and no address will come any more; the race then ends with the error
/// of that failure. Finding no attempt outstanding decides the race under the same
/// condition, with the error that says no address could be used.
pub proof fn lemma_exhaustion_decides<R, E>(race: RaceView, err: E, source_terminated: bool)
    ensures
        ({
            let failed = Event::<R, E>::Attempts {
                polled: Polled::Ready(Some(Err(err))),
                source_terminated,
            };
            let last = race.in_flight <= 1 && race.ips.is_terminated(source_terminated);
            &&& last ==> race.poll(failed).1 == Action::<R, E>::Ready(Err(RaceError::Attempt(err)))
            &&& !last ==> race.poll(failed).1 == Action::<R, E>::Pending { wake: true }
        }),
        ({
            let empty = Event::<R, E>::Attempts { polled: Polled::Ready(None), source_terminated };
            let last = race.in_flight == 0 && race.ips.is_terminated(source_terminated);
            &&& last ==> race.poll(empty).1 == Action::<R, E>::Ready(Err(RaceError::NotFound))
            &&& !last ==> race.poll(empty).1 == Action::<R, E>::Pending { wake: true }
        }),
{
}

/// The race suspends without asking to be resumed only when the outstanding attempts
/// have been asked and none of them has resolved yet: it never waits with nothing to
/// wait for. Every other event brings a decision or a request to the driver.
pub proof fn lemma_waits_only_for_attempts<R, E>(race: RaceView, event: Event<R, E>)
    ensures
        race.poll(event).1 == (Action::<R, E>::Pending { wake: false }) <==> (event matches Event::Attempts {
            polled: Polled::Pending,
            ..
        }),
{
}

/// Immediate replacement: after a failure that does not decide the race, the race
/// asks to be resumed at once and, once resumed, goes for the next attempt whether or
/// not the timer has elapsed.
pub proof fn lemma_failure_is_replaced_at_once<R, E>(
    race: RaceView,
    err: E,
    source_terminated: bool,
    now: u128,
)
    requires
        !(race.in_flight <= 1 && race.ips.is_terminated(source_terminated)),
    ensures
        ({
            let failed = Event::<R, E>::Attempts {
                polled: Polled::Ready(Some(Err(err))),
                source_terminated,
            };
            let (after, action) = race.poll(failed);
            &&& action == Action::<R, E>::Pending { wake: true }
            &&& after.want
            &&& after.poll(Event::<R, E>::Resumed { now }).1 == Action::<R, E>::CheckReadiness
        }),
{
}

/// Staggering: once an attempt was started at the clock reading `started`, a race
/// that is resumed before `started + delay` starts no further attempt, and one that
/// is resumed at or after that reading goes for the next.
pub proof fn lemma_attempts_are_staggered<R, E>(race: RaceView, started: u128, now: u128)
    ensures
        ({
            let (after, _) = race.poll(Event::<R, E>::Started { now: started });
            &&& after.deadline == started + race.delay
            &&& after.in_flight == race.in_flight + 1
            &&& now < started + race.delay ==> after.poll(Event::<R, E>::Resumed { now }).1
                == Action::<R, E>::PollAttempts
            &&& now >= started + race.delay ==> after.poll(Event::<R, E>::Resumed { now }).1
                == Action::<R, E>::CheckReadiness
        }),
{
}

/// A race asks for a pull of the source only when its interleaver holds no switch in
/// the buffer. So as long as the source is pulled only when the race asks for it, the
/// interleaver stays well formed.
pub proof fn lemma_pulls_keep_interleaver_well_formed<R, E>(race: RaceView, event: Event<R, E>)
    requires
        race.ips.wf(),
        event is Source ==> !race.ips.switch_buffered(),
    ensures
        race.poll(event).0.ips.wf(),
        race.poll(event).1 == Action::<R, E>::PullSource ==> !race.poll(
            event,
        ).0.ips.switch_buffered(),
{
    let none = Seq::<Address>::empty();
    lemma_poll_buffered(race.ips, none);
    match event {
        Event::Source(Polled::Ready(item)) => {
            lemma_poll_next(race.ips, item, none);
        },
        _ => {},
    }
}

/// Attempts are started in the interleaved order: the address that a race asks to
/// start is the first of what its interleaver had still to give, and an address that
/// the race takes in without starting an attempt changes nothing of what is to come.
/// Here `rest` is what the source yields after the event, before it ends; that is
/// nothing where the event says that the source has ended.
pub proof fn lemma_starts_follow_interleaving<R, E>(
    race: RaceView,
    event: Event<R, E>,
    rest: Seq<Address>,
)
    requires
        race.ips.wf(),
        event is Source ==> !race.ips.switch_buffered(),
        event matches Event::Source(Polled::Ready(None)) ==> rest.len() == 0,
    ensures
        ({
            let (after, action) = race.poll(event);
            let before = match event {
                Event::Source(Polled::Ready(item)) => race.ips.output(addresses(item) + rest),
                _ => race.ips.output(rest),
            };
            match action {
                Action::Start(ip) => before == seq![ip] + after.ips.output(rest),
                _ => before == after.ips.output(rest),
            }
        }),
{
    lemma_poll_buffered(race.ips, rest);
    match event {
        Event::Source(Polled::Ready(item)) => {
            lemma_poll_next(race.ips, item, rest);
        },
        _ => {},
    }
}

} // verus!
