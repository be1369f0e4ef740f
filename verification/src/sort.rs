//! The address interleaver: reorders candidates, as they arrive, so that the two
//! families take turns.
//!
//! The interleaver never touches the address source itself. Whoever drives it asks
//! [`Sort::poll_buffered`] first; when that has nothing to give, the driver pulls the
//! source and hands what came back to [`Sort::poll_next`].

use crate::address::Address;
use crate::interleaving::{
    all_of_family, alternate, interleaved, lemma_alternate_alone, lemma_alternate_first,
    lemma_of_family_concat, lemma_of_family_first, lemma_of_family_uniform, of_family,
};
use std::collections::VecDeque;
use vstd::prelude::*;

verus! {

/// What one pull on the interleaved sequence comes to.
#[derive(Clone, Copy, Debug, PartialEq, Eq, Structural)]
pub enum Next {
    /// The sequence yields this address, or has ended.
    Ready(Option<Address>),
    /// The address was buffered; the source is to be pulled again.
    Pull,
}

impl Next {
    /// What the pull gave out: the address that it yields, if it yields one.
    pub open spec fn emitted(self) -> Seq<Address> {
        match self {
            Next::Ready(item) => addresses(item),
            Next::Pull => Seq::empty(),
        }
    }
}

/// The sequence of the one address that `item` holds, or of none.
pub open spec fn addresses(item: Option<Address>) -> Seq<Address> {
    match item {
        Some(ip) => seq![ip],
        None => Seq::empty(),
    }
}

/// The interleaver as a mathematical value.
pub struct SortView {
    /// Addresses buffered for later, oldest first.
    pub queue: Seq<Address>,
    /// The family of the address emitted last, once there was one.
    pub ipflag: Option<bool>,
}

impl SortView {
    /// The state before any address was seen.
    pub open spec fn new() -> SortView {
        SortView { queue: Seq::empty(), ipflag: None }
    }

    /// The buffered addresses share one family, and nothing is buffered before the first
    /// address was emitted.
    pub open spec fn wf(self) -> bool {
        &&& self.ipflag is None ==> self.queue.len() == 0
        &&& self.queue.len() > 0 ==> all_of_family(self.queue, self.queue[0].family())
    }

    /// The oldest buffered address differs in family from the address emitted last.
    pub open spec fn switch_buffered(self) -> bool {
        &&& self.ipflag is Some
        &&& self.queue.len() > 0
        &&& self.queue[0].family() != self.ipflag->0
    }

    /// Serving a switch of family from the buffer, where it holds one.
    pub open spec fn poll_buffered(self) -> (SortView, Option<Address>) {
        if self.switch_buffered() {
            (
                SortView { queue: self.queue.skip(1), ipflag: Some(self.queue[0].family()) },
                Some(self.queue[0]),
            )
        } else {
            (self, None)
        }
    }

    /// Taking in what the source answered: an address, or `None` once it has ended.
    pub open spec fn poll_next(self, polled: Option<Address>) -> (SortView, Next) {
        match (self.ipflag, polled) {
            (None, Some(ip)) => (
                SortView { queue: self.queue, ipflag: Some(ip.family()) },
                Next::Ready(Some(ip)),
            ),
            (None, None) => (self, Next::Ready(None)),
            (Some(flag), Some(ip)) => if ip.family() != flag {
                (SortView { queue: self.queue, ipflag: Some(ip.family()) }, Next::Ready(Some(ip)))
            } else {
                (SortView { queue: self.queue.push(ip), ipflag: self.ipflag }, Next::Pull)
            },
            (Some(_), None) => if self.queue.len() > 0 {
                (
                    SortView { queue: self.queue.skip(1), ipflag: self.ipflag },
                    Next::Ready(Some(self.queue[0])),
                )
            } else {
                (self, Next::Ready(None))
            },
        }
    }

    /// Nothing is buffered and the source has ended: no address will ever come.
    pub open spec fn is_terminated(self, source_terminated: bool) -> bool {
        self.queue.len() == 0 && source_terminated
    }

    /// Everything that is still to come out, in order, if the source yields `rest`
    /// and then ends.
    pub open spec fn output(self, rest: Seq<Address>) -> Seq<Address> {
        match self.ipflag {
            None => interleaved(self.queue + rest),
            Some(flag) => alternate(
                of_family(self.queue + rest, !flag),
                of_family(self.queue + rest, flag),
            ),
        }
    }
}

/// The interleaver: the addresses buffered while waiting for the other family, and the
/// family of the address emitted last.
pub struct Sort {
    queue: VecDeque<Address>,
    ipflag: Option<bool>,
}

impl View for Sort {
    type V = SortView;

    closed spec fn view(&self) -> SortView {
        SortView { queue: self.queue@, ipflag: self.ipflag }
    }
}

impl Sort {
    /// An interleaver that has seen no address yet.
    pub fn new() -> (sort: Sort)
        ensures
            sort@ == SortView::new(),
            sort@.wf(),
    {
        Sort { queue: VecDeque::new(), ipflag: None }
    }

    /// Serves a switch of family from the buffer without touching the source: where the
    /// oldest buffered address differs in family from the one emitted last, it is taken
    /// out and returned. Otherwise nothing changes and the source has to be pulled.
    ///
    /// What comes out is the first address of what was still to come.
    pub fn poll_buffered(&mut self) -> (next: Option<Address>)
        ensures
            (final(self)@, next) == old(self)@.poll_buffered(),
            old(self)@.wf() ==> final(self)@.wf(),
            forall|rest: Seq<Address>|
                old(self)@.output(rest) == addresses(next) + #[trigger] final(self)@.output(rest),
    {
        let ghost before = self@;
        let next = match self.ipflag {
            Some(flag) => {
                if self.queue.len() > 0 && self.queue[0].is_ipv6() != flag {
                    let ip = self.queue.pop_front();
                    self.ipflag = Some(!flag);
                    ip
                } else {
                    None
                }
            },
            None => None,
        };
        proof {
            assert forall|rest: Seq<Address>|
                before.output(rest) == addresses(next) + #[trigger] self@.output(rest) by {
                lemma_poll_buffered(before, rest);
            }
            lemma_poll_buffered(before, Seq::empty());
        }
        next
    }

    /// Takes in what the source answered to one pull: `Some` address, or `None` once
    /// the source has ended.
    ///
    /// The first address ever seen is emitted and sets the family. Later, an address
    /// of the other family than the one emitted last is emitted at once; one of the
    /// same family is buffered, and the source is to be pulled again. Once the source
    /// has ended, the buffer is drained oldest first, and then the sequence ends.
    ///
    /// In a well-formed interleaver that was asked for a buffered switch first, what
    /// comes out is the first address of what was still to come, `rest` being what the
    /// source yields after `polled`; and the sequence ends only when the source has
    /// ended and nothing is left to come.
    pub fn poll_next(&mut self, polled: Option<Address>) -> (next: Next)
        ensures
            (final(self)@, next) == old(self)@.poll_next(polled),
            old(self)@.wf() && !old(self)@.switch_buffered() ==> final(self)@.wf(),
            forall|rest: Seq<Address>|
                old(self)@.wf() && !old(self)@.switch_buffered() && (polled is None
                    ==> rest.len() == 0) ==> old(self)@.output(addresses(polled) + rest)
                    == next.emitted() + #[trigger] final(self)@.output(rest),
            old(self)@.wf() && !old(self)@.switch_buffered() && next == Next::Ready(None)
                ==> polled is None && final(self)@.output(Seq::empty()) == Seq::<Address>::empty(),
    {
        let ghost before = self@;
        let next = match self.ipflag {
            Some(flag) => match polled {
                Some(ip) => {
                    if ip.is_ipv6() != flag {
                        self.ipflag = Some(ip.is_ipv6());
                        Next::Ready(Some(ip))
                    } else {
                        self.queue.push_back(ip);
                        Next::Pull
                    }
                },
                None => {
                    let ip = self.queue.pop_front();
                    Next::Ready(ip)
                },
            },
            None => {
                match polled {
                    Some(ip) => {
                        self.ipflag = Some(ip.is_ipv6());
                    },
                    None => {},
                }
                Next::Ready(polled)
            },
        };
        proof {
            if before.wf() && !before.switch_buffered() {
                assert forall|rest: Seq<Address>| (polled is None ==> rest.len() == 0) implies before.output(
                    addresses(polled) + rest,
                ) == next.emitted() + #[trigger] self@.output(rest) by {
                    lemma_poll_next(before, polled, rest);
                }
                lemma_poll_next(before, polled, Seq::empty());
            }
        }
        next
    }

    /// Tells whether the interleaved sequence is exhausted: nothing is buffered and the
    /// source, as `source_terminated` reports it, has ended.
    pub fn is_terminated(&self, source_terminated: bool) -> (done: bool)
        ensures
            done == self@.is_terminated(source_terminated),
    {
        self.queue.len() == 0 && source_terminated
    }
}

/// Runs the interleaver over candidates that are all at hand: the source yields
/// `input` in order, never suspends, and then ends. Returns the addresses in the order
/// in which the interleaved sequence yields them.
pub fn interleave(input: &[Address]) -> (out: Vec<Address>)
    ensures
        out@ == interleaved(input@),
{
    let mut sort = Sort::new();
    let mut out: Vec<Address> = Vec::new();
    let mut taken: usize = 0;
    assert(sort@.queue + input@.skip(0) =~= input@);
    loop
        invariant
            taken <= input.len(),
            sort@.wf(),
            out@ + sort@.output(input@.skip(taken as int)) == interleaved(input@),
        decreases 2 * (input.len() - taken) + sort@.queue.len(),
    {
        let ghost sofar = out@;
        let ghost rest = input@.skip(taken as int);
        match sort.poll_buffered() {
            Some(ip) => {
                out.push(ip);
                assert(out@ + sort@.output(rest) =~= sofar + (seq![ip] + sort@.output(rest)));
            },
            None => {
                let polled = if taken < input.len() {
                    Some(input[taken])
                } else {
                    None
                };
                if taken < input.len() {
                    taken = taken + 1;
                }
                let ghost later = input@.skip(taken as int);
                assert(rest =~= addresses(polled) + later);
                let next = sort.poll_next(polled);
                assert(sofar + (next.emitted() + sort@.output(later)) == interleaved(input@));
                match next {
                    Next::Ready(Some(ip)) => {
                        out.push(ip);
                        assert(out@ + sort@.output(later) =~= sofar + (seq![ip] + sort@.output(
                            later,
                        )));
                    },
                    Next::Ready(None) => {
                        assert(later =~= Seq::<Address>::empty());
                        assert(sofar + (next.emitted() + sort@.output(later)) =~= sofar);
                        return out;
                    },
                    Next::Pull => {
                        assert(sofar + (next.emitted() + sort@.output(later)) =~= sofar
                            + sort@.output(later));
                    },
                }
            },
        }
    }
}

/// Serving a switch from the buffer takes the first address out of what was still to
/// come, and keeps the state well formed.
pub proof fn lemma_poll_buffered(v: SortView, rest: Seq<Address>)
    ensures
        v.wf() ==> v.poll_buffered().0.wf(),
        v.output(rest) == addresses(v.poll_buffered().1) + v.poll_buffered().0.output(rest),
        v.poll_buffered().1 is None ==> v.poll_buffered().0 == v && !v.switch_buffered(),
{
    if v.switch_buffered() {
        let flag = v.ipflag->0;
        let ip = v.queue[0];
        let tail = v.queue.skip(1);
        assert(v.queue + rest =~= seq![ip] + (tail + rest));
        lemma_of_family_first(ip, tail + rest, !flag);
        lemma_of_family_first(ip, tail + rest, flag);
        lemma_alternate_first(ip, of_family(tail + rest, !flag), of_family(tail + rest, flag));
        if v.wf() {
            assert forall|i: int| 0 <= i < tail.len() implies (#[trigger] tail[i]).family()
                == tail[0].family() by {}
        }
    }
}

/// The first address ever seen comes out first; the other family is served next.
proof fn lemma_first_address(ip: Address, rest: Seq<Address>)
    ensures
        interleaved(seq![ip] + rest) == seq![ip] + alternate(
            of_family(rest, !ip.family()),
            of_family(rest, ip.family()),
        ),
{
    let g = ip.family();
    lemma_of_family_first(ip, rest, g);
    lemma_of_family_first(ip, rest, !g);
    lemma_alternate_first(ip, of_family(rest, g), of_family(rest, !g));
}

/// With only addresses of the family emitted last in the buffer, an address of the
/// other family that arrives is the next to come out.
proof fn lemma_switch(queue: Seq<Address>, ip: Address, rest: Seq<Address>, flag: bool)
    requires
        all_of_family(queue, flag),
        ip.family() != flag,
    ensures
        alternate(
            of_family(queue + (seq![ip] + rest), !flag),
            of_family(queue + (seq![ip] + rest), flag),
        ) == seq![ip] + alternate(of_family(queue + rest, flag), of_family(queue + rest, !flag)),
{
    let other = !flag;
    let tail = seq![ip] + rest;
    lemma_of_family_uniform(queue, flag, flag);
    lemma_of_family_uniform(queue, flag, other);
    lemma_of_family_concat(queue, tail, other);
    lemma_of_family_concat(queue, tail, flag);
    lemma_of_family_concat(queue, rest, other);
    lemma_of_family_concat(queue, rest, flag);
    lemma_of_family_first(ip, rest, other);
    lemma_of_family_first(ip, rest, flag);
    lemma_alternate_first(ip, of_family(rest, other), queue + of_family(rest, flag));
}

/// With only addresses of the family emitted last in the buffer and nothing more to
/// arrive, the buffer comes out as it is.
proof fn lemma_drain(queue: Seq<Address>, flag: bool)
    requires
        all_of_family(queue, flag),
    ensures
        alternate(of_family(queue, !flag), of_family(queue, flag)) == queue,
{
    lemma_of_family_uniform(queue, flag, flag);
    lemma_of_family_uniform(queue, flag, !flag);
    lemma_alternate_alone(queue);
}

/// The first address that the source yields comes out at once.
proof fn lemma_poll_next_first(v: SortView, ip: Address, rest: Seq<Address>)
    requires
        v.ipflag is None,
        v.queue.len() == 0,
    ensures
        v.output(seq![ip] + rest) == seq![ip] + v.poll_next(Some(ip)).0.output(rest),
{
    lemma_first_address(ip, rest);
}

/// An address of the other family than the one emitted last comes out at once.
proof fn lemma_poll_next_switch(v: SortView, ip: Address, rest: Seq<Address>)
    requires
        v.ipflag is Some,
        all_of_family(v.queue, v.ipflag->0),
        ip.family() != v.ipflag->0,
    ensures
        v.output(seq![ip] + rest) == seq![ip] + v.poll_next(Some(ip)).0.output(rest),
{
    lemma_switch(v.queue, ip, rest, v.ipflag->0);
}

/// An address of the family emitted last is buffered: what is to come stays as it is.
proof fn lemma_poll_next_same(v: SortView, ip: Address, rest: Seq<Address>)
    requires
        v.ipflag is Some,
        ip.family() == v.ipflag->0,
    ensures
        v.output(seq![ip] + rest) == v.poll_next(Some(ip)).0.output(rest),
{
    assert(v.queue + (seq![ip] + rest) =~= v.queue.push(ip) + rest);
}

/// Once the source has ended, the buffer comes out oldest first.
proof fn lemma_poll_next_ended(v: SortView)
    requires
        v.ipflag is Some,
        all_of_family(v.queue, v.ipflag->0),
    ensures
        v.output(Seq::empty()) == v.queue,
        v.queue.len() > 0 ==> v.poll_next(None).0.output(Seq::empty()) == v.queue.skip(1),
{
    let flag = v.ipflag->0;
    lemma_drain(v.queue, flag);
    if v.queue.len() > 0 {
        let tail = v.queue.skip(1);
        assert forall|i: int| 0 <= i < tail.len() implies (#[trigger] tail[i]).family()
            == flag by {}
        lemma_drain(tail, flag);
    }
}

/// Taking in what the source answered, in a well-formed state that holds no switch in
/// its buffer, keeps the state well formed. What is emitted is the first address of
/// what was still to come, and an address that is buffered changes nothing of what is
/// to come; `rest` is what the source yields after `polled`, which is nothing once it
/// has ended. The sequence ends only when the source has ended, and after an address
/// was buffered the buffer holds no switch.
pub proof fn lemma_poll_next(v: SortView, polled: Option<Address>, rest: Seq<Address>)
    requires
        v.wf(),
        !v.switch_buffered(),
        polled is None ==> rest.len() == 0,
    ensures
        v.poll_next(polled).0.wf(),
        v.output(addresses(polled) + rest) == v.poll_next(polled).1.emitted() + v.poll_next(
            polled,
        ).0.output(rest),
        v.poll_next(polled).1 == Next::Ready(None) ==> polled is None && v.queue.len() == 0
            && v.output(Seq::empty()) == Seq::<Address>::empty(),
        v.poll_next(polled).1 == Next::Pull ==> polled is Some && !v.poll_next(
            polled,
        ).0.switch_buffered(),
{
    let none = Seq::<Address>::empty();
    match polled {
        Some(ip) => {
            match v.ipflag {
                None => {
                    lemma_poll_next_first(v, ip, rest);
                },
                Some(flag) => {
                    if ip.family() != flag {
                        lemma_poll_next_switch(v, ip, rest);
                    } else {
                        lemma_poll_next_same(v, ip, rest);
                        assert(none + v.poll_next(polled).0.output(rest) =~= v.poll_next(
                            polled,
                        ).0.output(rest));
                    }
                },
            }
        },
        None => {
            assert(addresses(polled) + rest =~= none);
            match v.ipflag {
                None => {
                    assert(v.queue + none =~= none);
                    assert(none + none =~= none);
                },
                Some(flag) => {
                    lemma_poll_next_ended(v);
                    if v.queue.len() > 0 {
                        let after = v.poll_next(polled).0;
                        assert(seq![v.queue[0]] + v.queue.skip(1) =~= v.queue);
                        assert forall|i: int| 0 <= i < after.queue.len() implies (
                        #[trigger] after.queue[i]).family() == after.queue[0].family() by {
                            assert(after.queue[i] == v.queue[i + 1]);
                            assert(after.queue[0] == v.queue[1]);
                        }
                    } else {
                        assert(none + none =~= none);
                    }
                },
            }
        },
    }
}

} // verus!
