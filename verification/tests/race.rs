use std::collections::VecDeque;
use std::time::Duration;
use tower_happy_eyeballs::address::Address;
use tower_happy_eyeballs::future::{Action, Event, HappyEyeballsFut, Polled, RaceError};

const MS: u128 = 1_000_000;

fn v6(last: u128) -> Address {
    Address::V6((1u128 << 112) | last)
}

fn v4(last: u32) -> Address {
    Address::V4(0x0100_0000 | last)
}

/// How the connector of a test treats one address.
#[derive(Clone, Copy, Debug, PartialEq, Eq)]
enum Conn {
    Succeeds { after_ms: u128 },
    Fails { after_ms: u128, code: u32 },
    Never,
}

type Outcome = Result<Address, RaceError<u32>>;

/// Everything outside the race: the clock, the source, the connector and the
/// attempts it has running.
struct World {
    now_ms: u128,
    source: VecDeque<Address>,
    source_ended: bool,
    connect: fn(Address) -> Conn,
    outstanding: Vec<(Address, u128)>,
    starts: Vec<(u128, Address)>,
}

impl World {
    fn new(source: Vec<Address>, connect: fn(Address) -> Conn) -> World {
        World {
            now_ms: 0,
            source: source.into(),
            source_ended: false,
            connect,
            outstanding: Vec::new(),
            starts: Vec::new(),
        }
    }

    fn poll_attempts(&mut self) -> Polled<Option<Result<Address, u32>>> {
        if self.outstanding.is_empty() {
            return Polled::Ready(None);
        }
        for i in 0..self.outstanding.len() {
            let (ip, started) = self.outstanding[i];
            let waited = self.now_ms - started;
            match (self.connect)(ip) {
                Conn::Succeeds { after_ms } if waited >= after_ms => {
                    self.outstanding.remove(i);
                    return Polled::Ready(Some(Ok(ip)));
                }
                Conn::Fails { after_ms, code } if waited >= after_ms => {
                    self.outstanding.remove(i);
                    return Polled::Ready(Some(Err(code)));
                }
                _ => {}
            }
        }
        Polled::Pending
    }

    /// One scheduling pass: resumes the race and does what it asks for until it
    /// suspends or is decided.
    fn pass(&mut self, fut: &mut HappyEyeballsFut) -> Action<Address, u32> {
        let now = self.now_ms * MS;
        let mut action = fut.poll(Event::Resumed { now });
        loop {
            action = match action {
                Action::CheckReadiness => fut.poll(Event::Readiness(true)),
                Action::PullSource => {
                    let item = self.source.pop_front();
                    if item.is_none() {
                        self.source_ended = true;
                    }
                    fut.poll(Event::Source(Polled::Ready(item)))
                }
                Action::Start(ip) => {
                    self.outstanding.push((ip, self.now_ms));
                    self.starts.push((self.now_ms, ip));
                    assert!(fut.in_flight() < usize::MAX);
                    fut.poll(Event::Started { now })
                }
                Action::PollAttempts => {
                    let polled = self.poll_attempts();
                    fut.poll(Event::Attempts { polled, source_terminated: self.source_ended })
                }
                done => return done,
            };
        }
    }

    /// Runs the race to its end, one millisecond of clock at a time; `None` if it is
    /// still undecided after `limit_ms`.
    fn run(&mut self, fut: &mut HappyEyeballsFut, limit_ms: u128) -> Option<Outcome> {
        loop {
            match self.pass(fut) {
                Action::Ready(outcome) => return Some(outcome),
                Action::Pending { wake: true } => {}
                Action::Pending { wake: false } => {
                    self.now_ms += 1;
                    if self.now_ms > limit_ms {
                        return None;
                    }
                }
                other => panic!("a pass ended with {:?}", other),
            }
        }
    }
}

fn race(delay_ms: u64) -> HappyEyeballsFut {
    HappyEyeballsFut::new(Duration::from_millis(delay_ms), 0)
}

#[test]
fn test_happy_eyeballs() {
    let ips = vec![v6(1), v6(2), v6(3), v4(1), v4(2), v4(3)];
    fn connect(ip: Address) -> Conn {
        if ip == v4(3) {
            Conn::Succeeds { after_ms: 0 }
        } else if ip == v6(2) {
            Conn::Fails { after_ms: 0, code: 104 }
        } else {
            Conn::Never
        }
    }
    let mut world = World::new(ips, connect);
    let mut fut = race(250);
    let ip = world.run(&mut fut, 10_000).expect("the race ends").expect("the race succeeds");

    assert_eq!(Duration::from_millis(world.now_ms as u64).as_secs(), 1);
    assert_eq!(ip, v4(3));
    assert_eq!(
        world.starts,
        vec![
            (0, v6(1)),
            (250, v4(1)),
            (500, v6(2)),
            (500, v4(2)),
            (750, v6(3)),
            (1000, v4(3)),
        ]
    );
}

#[test]
fn race_stagger_timing() {
    // A and B never resolve, C succeeds at once
    let (a, b, c) = (v6(1), v4(1), v6(2));
    fn connect(ip: Address) -> Conn {
        if ip == v6(2) {
            Conn::Succeeds { after_ms: 0 }
        } else {
            Conn::Never
        }
    }
    let mut world = World::new(vec![a, b, c], connect);
    let mut fut = race(250);
    let outcome = world.run(&mut fut, 10_000);
    assert_eq!(outcome, Some(Ok(c)));
    assert_eq!(world.starts, vec![(0, a), (250, b), (500, c)]);
    assert!(world.now_ms >= 500 && world.now_ms < 750);
    assert_eq!(world.now_ms, 500);
}

#[test]
fn race_starts_nothing_before_the_delay_is_over() {
    let mut fut = race(250);
    assert_eq!(fut.poll::<Address, u32>(Event::Resumed { now: 0 }), Action::CheckReadiness);
    assert_eq!(fut.poll::<Address, u32>(Event::Readiness(true)), Action::PullSource);
    assert_eq!(
        fut.poll::<Address, u32>(Event::Source(Polled::Ready(Some(v4(1))))),
        Action::Start(v4(1))
    );
    assert_eq!(fut.poll::<Address, u32>(Event::Started { now: 7 * MS }), Action::PollAttempts);
    assert_eq!(fut.in_flight(), 1);
    assert_eq!(
        fut.poll::<Address, u32>(Event::Attempts {
            polled: Polled::Pending,
            source_terminated: false
        }),
        Action::Pending { wake: false }
    );
    // one nanosecond before the deadline
    assert_eq!(
        fut.poll::<Address, u32>(Event::Resumed { now: 257 * MS - 1 }),
        Action::PollAttempts
    );
    // at the deadline
    assert_eq!(fut.poll::<Address, u32>(Event::Resumed { now: 257 * MS }), Action::CheckReadiness);
}

#[test]
fn race_immediate_replacement_on_failure() {
    let (a, b) = (v6(1), v4(1));
    fn connect(ip: Address) -> Conn {
        if ip == v6(1) {
            Conn::Fails { after_ms: 0, code: 111 }
        } else {
            Conn::Succeeds { after_ms: 0 }
        }
    }
    let mut world = World::new(vec![a, b], connect);
    let mut fut = race(250);
    let outcome = world.run(&mut fut, 10_000);
    assert_eq!(outcome, Some(Ok(b)));
    assert_eq!(world.starts, vec![(0, a), (0, b)]);
    assert_eq!(world.now_ms, 0);
}

#[test]
fn race_replacement_step_by_step() {
    let mut fut = race(250);
    fut.poll::<Address, u32>(Event::Resumed { now: 0 });
    fut.poll::<Address, u32>(Event::Readiness(true));
    fut.poll::<Address, u32>(Event::Source(Polled::Ready(Some(v6(1)))));
    fut.poll::<Address, u32>(Event::Started { now: 0 });
    // the attempt fails while the source has more to give
    assert_eq!(
        fut.poll::<Address, u32>(Event::Attempts {
            polled: Polled::Ready(Some(Err(111))),
            source_terminated: false
        }),
        Action::Pending { wake: true }
    );
    assert_eq!(fut.in_flight(), 0);
    // resumed long before the timer elapses, the race goes for the next attempt
    assert_eq!(fut.poll::<Address, u32>(Event::Resumed { now: 1 }), Action::CheckReadiness);
}

#[test]
fn race_empty_input() {
    fn connect(_: Address) -> Conn {
        Conn::Succeeds { after_ms: 0 }
    }
    let mut world = World::new(Vec::new(), connect);
    let mut fut = race(250);
    let outcome = world.run(&mut fut, 10_000);
    assert_eq!(outcome, Some(Err(RaceError::NotFound)));
    assert_eq!(world.now_ms, 0);
    assert!(world.starts.is_empty());
}

#[test]
fn race_empty_input_step_by_step() {
    let mut fut = race(250);
    assert_eq!(fut.poll::<Address, u32>(Event::Resumed { now: 5 }), Action::CheckReadiness);
    assert_eq!(fut.poll::<Address, u32>(Event::Readiness(true)), Action::PullSource);
    assert_eq!(
        fut.poll::<Address, u32>(Event::Source(Polled::Ready(None))),
        Action::PollAttempts
    );
    assert_eq!(
        fut.poll::<Address, u32>(Event::Attempts {
            polled: Polled::Ready(None),
            source_terminated: true
        }),
        Action::Ready(Err(RaceError::NotFound))
    );
}

#[test]
fn race_success_precedence() {
    // two attempts hang, the third one succeeds after a while
    fn connect(ip: Address) -> Conn {
        if ip == v6(2) {
            Conn::Succeeds { after_ms: 40 }
        } else {
            Conn::Never
        }
    }
    let mut world = World::new(vec![v6(1), v6(2), v4(1), v4(2)], connect);
    let mut fut = race(100);
    let outcome = world.run(&mut fut, 10_000);
    assert_eq!(outcome, Some(Ok(v6(2))));
    // v6(1) at 0, v4(1) at 100, v6(2) at 200, which succeeds 40 ms later
    assert_eq!(world.starts, vec![(0, v6(1)), (100, v4(1)), (200, v6(2))]);
    assert_eq!(world.now_ms, 240);
    assert_eq!(world.outstanding.len(), 2);
    assert_eq!(fut.in_flight(), 0);
}

#[test]
fn race_success_wins_whatever_the_state() {
    let mut fut = race(250);
    // nothing was ever started, the source has ended: a success still decides
    assert_eq!(
        fut.poll::<Address, u32>(Event::Attempts {
            polled: Polled::Ready(Some(Ok(v4(9)))),
            source_terminated: true
        }),
        Action::Ready(Ok(v4(9)))
    );
}

#[test]
fn race_all_attempts_fail_at_once() {
    // each failure is replaced at once; when the last one fails the source has not
    // said yet that it has ended, so the race finds out on its next pass
    fn connect(_: Address) -> Conn {
        Conn::Fails { after_ms: 0, code: 111 }
    }
    let mut world = World::new(vec![v6(1), v6(2), v4(1)], connect);
    let mut fut = race(250);
    let outcome = world.run(&mut fut, 10_000);
    assert_eq!(outcome, Some(Err(RaceError::NotFound)));
    assert_eq!(world.starts, vec![(0, v6(1)), (0, v4(1)), (0, v6(2))]);
    assert_eq!(world.now_ms, 0);
}

#[test]
fn race_all_attempts_fail_last_error_wins() {
    // the attempts fail late, after the source has ended: the error of the one that
    // fails last is the error of the race
    fn connect(ip: Address) -> Conn {
        if ip == v6(1) {
            Conn::Fails { after_ms: 900, code: 1 }
        } else if ip == v4(1) {
            Conn::Fails { after_ms: 300, code: 2 }
        } else {
            Conn::Fails { after_ms: 600, code: 3 }
        }
    }
    let mut world = World::new(vec![v6(1), v6(2), v4(1)], connect);
    let mut fut = race(100);
    let outcome = world.run(&mut fut, 10_000);
    // v6(1) starts at 0 and fails at 900, v4(1) starts at 100 and fails at 400,
    // v6(2) starts at 200 and fails at 800
    assert_eq!(world.starts, vec![(0, v6(1)), (100, v4(1)), (200, v6(2))]);
    assert_eq!(outcome, Some(Err(RaceError::Attempt(1))));
    assert_eq!(world.now_ms, 900);
}

#[test]
fn race_connector_not_ready_starts_nothing() {
    let mut fut = race(250);
    assert_eq!(fut.poll::<Address, u32>(Event::Resumed { now: 0 }), Action::CheckReadiness);
    assert_eq!(fut.poll::<Address, u32>(Event::Readiness(false)), Action::PollAttempts);
    // nothing outstanding, the source still open: the race asks to be resumed
    assert_eq!(
        fut.poll::<Address, u32>(Event::Attempts {
            polled: Polled::Ready(None),
            source_terminated: false
        }),
        Action::Pending { wake: true }
    );
    // nothing outstanding and the source has ended: no address could be used
    assert_eq!(
        fut.poll::<Address, u32>(Event::Attempts {
            polled: Polled::Ready(None),
            source_terminated: true
        }),
        Action::Ready(Err(RaceError::NotFound))
    );
}

#[test]
fn race_source_not_ready_falls_through() {
    let mut fut = race(250);
    fut.poll::<Address, u32>(Event::Resumed { now: 0 });
    assert_eq!(fut.poll::<Address, u32>(Event::Readiness(true)), Action::PullSource);
    assert_eq!(fut.poll::<Address, u32>(Event::Source(Polled::Pending)), Action::PollAttempts);
    assert_eq!(fut.in_flight(), 0);
}

#[test]
fn race_buffers_addresses_of_the_same_family() {
    let mut fut = race(250);
    fut.poll::<Address, u32>(Event::Resumed { now: 0 });
    fut.poll::<Address, u32>(Event::Readiness(true));
    assert_eq!(
        fut.poll::<Address, u32>(Event::Source(Polled::Ready(Some(v6(1))))),
        Action::Start(v6(1))
    );
    fut.poll::<Address, u32>(Event::Started { now: 0 });
    fut.poll::<Address, u32>(Event::Attempts { polled: Polled::Pending, source_terminated: false });
    fut.poll::<Address, u32>(Event::Resumed { now: 250 * MS });
    assert_eq!(fut.poll::<Address, u32>(Event::Readiness(true)), Action::PullSource);
    // an address of the family tried last is buffered, and the source pulled again
    assert_eq!(
        fut.poll::<Address, u32>(Event::Source(Polled::Ready(Some(v6(2))))),
        Action::PullSource
    );
    assert_eq!(
        fut.poll::<Address, u32>(Event::Source(Polled::Ready(Some(v4(1))))),
        Action::Start(v4(1))
    );
    fut.poll::<Address, u32>(Event::Started { now: 250 * MS });
    // a failure with one attempt left and an address in the buffer does not end the race
    assert_eq!(
        fut.poll::<Address, u32>(Event::Attempts {
            polled: Polled::Ready(Some(Err(5))),
            source_terminated: true
        }),
        Action::Pending { wake: true }
    );
    assert_eq!(fut.in_flight(), 1);
    fut.poll::<Address, u32>(Event::Resumed { now: 250 * MS });
    // the buffered address is served without a pull
    assert_eq!(fut.poll::<Address, u32>(Event::Readiness(true)), Action::Start(v6(2)));
}

#[test]
fn race_last_failure_after_the_source_ended() {
    let mut fut = race(250);
    fut.poll::<Address, u32>(Event::Resumed { now: 0 });
    fut.poll::<Address, u32>(Event::Readiness(true));
    fut.poll::<Address, u32>(Event::Source(Polled::Ready(Some(v4(1)))));
    fut.poll::<Address, u32>(Event::Started { now: 0 });
    assert_eq!(
        fut.poll::<Address, u32>(Event::Attempts {
            polled: Polled::Ready(Some(Err(42))),
            source_terminated: true
        }),
        Action::Ready(Err(RaceError::Attempt(42)))
    );
}
