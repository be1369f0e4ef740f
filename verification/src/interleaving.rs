//! The order in which candidate addresses are tried, as a function on sequences.
//!
//! Candidates of the two families are served in turn, beginning with the family of
//! the first candidate; within a family the order of arrival is kept. Once one family
//! has run out, what is left of the other follows.

use crate::address::Address;
use vstd::multiset::Multiset;
use vstd::prelude::*;
use vstd::seq_lib::lemma_multiset_commutative;

verus! {

/// The predicate "belongs to family `f`".
pub open spec fn in_family(f: bool) -> spec_fn(Address) -> bool {
    |a: Address| a.family() == f
}

/// The addresses of `s` that belong to family `f`, in the order of `s`.
pub open spec fn of_family(s: Seq<Address>, f: bool) -> Seq<Address> {
    s.filter(in_family(f))
}

/// Every address of `s` belongs to family `f`.
pub open spec fn all_of_family(s: Seq<Address>, f: bool) -> bool {
    forall|i: int| 0 <= i < s.len() ==> (#[trigger] s[i]).family() == f
}

/// `a` and `b` taken in turn, `a` first; when one has run out the rest of the other follows.
#[verifier::opaque]
pub open spec fn alternate(a: Seq<Address>, b: Seq<Address>) -> Seq<Address>
    decreases a.len() + b.len(),
{
    if a.len() == 0 {
        b
    } else {
        seq![a[0]] + alternate(b, a.skip(1))
    }
}

/// The order in which the candidates `s` are tried.
pub open spec fn interleaved(s: Seq<Address>) -> Seq<Address> {
    if s.len() == 0 {
        s
    } else {
        alternate(of_family(s, s[0].family()), of_family(s, !s[0].family()))
    }
}

/// `n` where it is positive, else zero.
pub open spec fn excess(n: int) -> int {
    if n > 0 {
        n
    } else {
        0
    }
}

/// Selecting a family from a sequence that starts with `x`.
pub proof fn lemma_of_family_first(x: Address, s: Seq<Address>, f: bool)
    ensures
        x.family() == f ==> of_family(seq![x] + s, f) == seq![x] + of_family(s, f),
        x.family() != f ==> of_family(seq![x] + s, f) == of_family(s, f),
{
    let p = in_family(f);
    let one = seq![x];
    Seq::filter_distributes_over_add(one, s, p);
    reveal(Seq::filter);
    assert(one.drop_last() =~= Seq::<Address>::empty());
    assert(one.drop_last().filter(p) =~= Seq::<Address>::empty());
    assert(one.last() == x);
    if x.family() == f {
        assert(p(x));
        assert(one.filter(p) =~= one);
    } else {
        assert(!p(x));
        assert(one.filter(p) =~= Seq::<Address>::empty());
        assert(Seq::<Address>::empty() + s.filter(p) =~= s.filter(p));
    }
}

/// Selecting a family distributes over concatenation.
pub proof fn lemma_of_family_concat(a: Seq<Address>, b: Seq<Address>, f: bool)
    ensures
        of_family(a + b, f) == of_family(a, f) + of_family(b, f),
{
    Seq::filter_distributes_over_add(a, b, in_family(f));
}

/// Selecting a family from a sequence that holds one family only.
pub proof fn lemma_of_family_uniform(s: Seq<Address>, g: bool, f: bool)
    requires
        all_of_family(s, g),
    ensures
        f == g ==> of_family(s, f) == s,
        f != g ==> of_family(s, f) == Seq::<Address>::empty(),
    decreases s.len(),
{
    if s.len() == 0 {
        reveal(Seq::filter);
        assert(of_family(s, f) =~= s);
    } else {
        let x = s[0];
        let t = s.skip(1);
        assert(s =~= seq![x] + t);
        assert forall|i: int| 0 <= i < t.len() implies (#[trigger] t[i]).family() == g by {
            assert(t[i] == s[i + 1]);
        }
        lemma_of_family_uniform(t, g, f);
        lemma_of_family_first(x, t, f);
        assert(x.family() == g);
    }
}

/// What a selection holds belongs to the selected family.
pub proof fn lemma_of_family_is_uniform(s: Seq<Address>, f: bool)
    ensures
        all_of_family(of_family(s, f), f),
{
    let p = in_family(f);
    assert forall|i: int| 0 <= i < of_family(s, f).len() implies (#[trigger] of_family(
        s,
        f,
    )[i]).family() == f by {
        s.lemma_filter_pred(p, i);
        assert(p(s.filter(p)[i]));
    }
}

/// The two selections of a sequence together hold as many addresses as the sequence.
pub proof fn lemma_of_family_len(s: Seq<Address>, f: bool)
    ensures
        of_family(s, f).len() + of_family(s, !f).len() == s.len(),
    decreases s.len(),
{
    if s.len() == 0 {
        reveal(Seq::filter);
    } else {
        let x = s[0];
        let t = s.skip(1);
        assert(s =~= seq![x] + t);
        lemma_of_family_len(t, f);
        lemma_of_family_first(x, t, f);
        lemma_of_family_first(x, t, !f);
    }
}

/// Taking turns, where the first side is known to start with `x`: `x` comes first,
/// and then it is the other side's turn.
pub proof fn lemma_alternate_first(x: Address, a: Seq<Address>, b: Seq<Address>)
    ensures
        alternate(seq![x] + a, b) == seq![x] + alternate(b, a),
{
    reveal(alternate);
    assert((seq![x] + a).skip(1) =~= a);
}

/// Taking turns neither loses nor adds an address.
pub proof fn lemma_alternate_len(a: Seq<Address>, b: Seq<Address>)
    ensures
        alternate(a, b).len() == a.len() + b.len(),
    decreases a.len() + b.len(),
{
    reveal(alternate);
    if a.len() > 0 {
        lemma_alternate_len(b, a.skip(1));
    }
}

/// Taking turns with nothing on the other side changes nothing.
pub proof fn lemma_alternate_alone(a: Seq<Address>)
    ensures
        alternate(a, Seq::<Address>::empty()) == a,
        alternate(Seq::<Address>::empty(), a) == a,
{
    reveal(alternate);
    let none = Seq::<Address>::empty();
    if a.len() > 0 {
        assert(alternate(none, a.skip(1)) == a.skip(1));
        assert(seq![a[0]] + a.skip(1) =~= a);
    }
}

/// Taking turns keeps every address, each as often as it occurs.
pub proof fn lemma_alternate_multiset(a: Seq<Address>, b: Seq<Address>)
    ensures
        alternate(a, b).to_multiset() == a.to_multiset().add(b.to_multiset()),
    decreases a.len() + b.len(),
{
    reveal(alternate);
    if a.len() == 0 {
        assert(a.to_multiset() =~= Multiset::<Address>::empty()) by {
            a.to_multiset_ensures();
        }
        assert(a.to_multiset().add(b.to_multiset()) =~= b.to_multiset());
    } else {
        let first = seq![a[0]];
        let later = a.skip(1);
        lemma_alternate_multiset(b, later);
        lemma_multiset_commutative(first, alternate(b, later));
        lemma_multiset_commutative(first, later);
        assert(first + later =~= a);
        assert(first.to_multiset().add(b.to_multiset().add(later.to_multiset()))
            =~= first.to_multiset().add(later.to_multiset()).add(b.to_multiset()));
    }
}

/// The two selections of a sequence hold, between them, every address of it, each as
/// often as it occurs.
pub proof fn lemma_of_family_multiset(s: Seq<Address>, f: bool)
    ensures
        of_family(s, f).to_multiset().add(of_family(s, !f).to_multiset()) == s.to_multiset(),
    decreases s.len(),
{
    if s.len() == 0 {
        reveal(Seq::filter);
        assert(of_family(s, f) =~= s);
        assert(of_family(s, !f) =~= s);
        assert(s.to_multiset() =~= Multiset::<Address>::empty()) by {
            s.to_multiset_ensures();
        }
        assert(s.to_multiset().add(s.to_multiset()) =~= s.to_multiset());
    } else {
        let x = s[0];
        let first = seq![x];
        let t = s.skip(1);
        assert(s =~= first + t);
        lemma_of_family_multiset(t, f);
        lemma_of_family_first(x, t, f);
        lemma_of_family_first(x, t, !f);
        lemma_multiset_commutative(first, t);
        lemma_multiset_commutative(first, of_family(t, f));
        lemma_multiset_commutative(first, of_family(t, !f));
        let m = first.to_multiset();
        let mf = of_family(t, f).to_multiset();
        let mo = of_family(t, !f).to_multiset();
        if x.family() == f {
            assert(m.add(mf).add(mo) =~= m.add(mf.add(mo)));
        } else {
            assert(mf.add(m.add(mo)) =~= m.add(mf.add(mo)));
        }
    }
}

/// Taking turns between two families and selecting one of them again gives back
/// that family's side.
pub proof fn lemma_alternate_of_family(a: Seq<Address>, b: Seq<Address>, g: bool)
    requires
        all_of_family(a, g),
        all_of_family(b, !g),
    ensures
        of_family(alternate(a, b), g) == a,
        of_family(alternate(a, b), !g) == b,
    decreases a.len() + b.len(),
{
    reveal(alternate);
    if a.len() == 0 {
        lemma_of_family_uniform(b, !g, g);
        lemma_of_family_uniform(b, !g, !g);
        assert(a =~= Seq::<Address>::empty());
    } else {
        let x = a[0];
        let later = a.skip(1);
        assert forall|i: int| 0 <= i < later.len() implies (#[trigger] later[i]).family()
            == g by {
            assert(later[i] == a[i + 1]);
        }
        assert(all_of_family(later, !!g));
        lemma_alternate_of_family(b, later, !g);
        lemma_of_family_first(x, alternate(b, later), g);
        lemma_of_family_first(x, alternate(b, later), !g);
        assert(seq![x] + later =~= a);
    }
}

/// How far one family can be ahead of the other in a prefix of two families taking
/// turns: the side that starts is at most one ahead while the other side lasts, and
/// the other side is not ahead at all while the starting side lasts.
pub proof fn lemma_alternate_balance(a: Seq<Address>, b: Seq<Address>, g: bool, k: int)
    requires
        all_of_family(a, g),
        all_of_family(b, !g),
        0 <= k <= a.len() + b.len(),
    ensures
        of_family(alternate(a, b).take(k), g).len() + of_family(alternate(a, b).take(k), !g).len()
            == k,
        of_family(alternate(a, b).take(k), g).len() - of_family(alternate(a, b).take(k), !g).len()
            <= 1 + excess(k - 2 * b.len() - 1),
        of_family(alternate(a, b).take(k), !g).len() - of_family(alternate(a, b).take(k), g).len()
            <= excess(k - 2 * a.len()),
    decreases a.len() + b.len(),
{
    reveal(alternate);
    let prefix = alternate(a, b).take(k);
    lemma_alternate_len(a, b);
    lemma_of_family_len(prefix, g);
    if k == 0 {
    } else if a.len() == 0 {
        assert forall|i: int| 0 <= i < prefix.len() implies (#[trigger] prefix[i]).family()
            == !g by {
            assert(prefix[i] == b[i]);
        }
        lemma_of_family_uniform(prefix, !g, g);
        lemma_of_family_uniform(prefix, !g, !g);
    } else {
        let x = a[0];
        let later = a.skip(1);
        let turn = alternate(b, later);
        assert forall|i: int| 0 <= i < later.len() implies (#[trigger] later[i]).family()
            == g by {
            assert(later[i] == a[i + 1]);
        }
        assert(all_of_family(later, !!g));
        lemma_alternate_len(b, later);
        lemma_alternate_balance(b, later, !g, k - 1);
        assert(prefix =~= seq![x] + turn.take(k - 1));
        lemma_of_family_first(x, turn.take(k - 1), g);
        lemma_of_family_first(x, turn.take(k - 1), !g);
    }
}

/// Totality: the interleaved order holds every candidate, each as often as it occurs
/// among the candidates; none is lost and none is added.
pub proof fn lemma_interleaved_is_permutation(s: Seq<Address>)
    ensures
        interleaved(s).to_multiset() == s.to_multiset(),
        interleaved(s).len() == s.len(),
{
    if s.len() > 0 {
        let f = s[0].family();
        lemma_alternate_multiset(of_family(s, f), of_family(s, !f));
        lemma_of_family_multiset(s, f);
        lemma_alternate_len(of_family(s, f), of_family(s, !f));
        lemma_of_family_len(s, f);
    }
}

/// Order preservation: within each family, the interleaved order keeps the candidates
/// in the order in which they arrived.
pub proof fn lemma_interleaved_keeps_family_order(s: Seq<Address>, f: bool)
    ensures
        of_family(interleaved(s), f) == of_family(s, f),
{
    if s.len() > 0 {
        let g = s[0].family();
        lemma_of_family_is_uniform(s, g);
        lemma_of_family_is_uniform(s, !g);
        lemma_alternate_of_family(of_family(s, g), of_family(s, !g), g);
    }
}

/// Single-family passthrough: candidates of one family come out in the order in
/// which they arrived.
pub proof fn lemma_interleaved_single_family(s: Seq<Address>, f: bool)
    requires
        all_of_family(s, f),
    ensures
        interleaved(s) == s,
{
    if s.len() > 0 {
        lemma_of_family_uniform(s, f, f);
        lemma_of_family_uniform(s, f, !f);
        lemma_alternate_alone(s);
    }
}

/// Fairness: in every prefix of the interleaved order, a family is at most one
/// address ahead of the other, apart from what it emits after the other family has
/// run out. The family that does not come first is not ahead at all, apart from what
/// it emits after the first family has run out.
///
/// Here `k` is the length of the prefix and `f` the family that is looked at. The
/// other family, with `n` candidates, has run out once the prefix holds `2 * n`
/// addresses; the next address is the one by which `f` may be ahead anyway.
pub proof fn lemma_interleaved_is_fair(s: Seq<Address>, k: int, f: bool)
    requires
        0 <= k <= s.len(),
    ensures
        of_family(interleaved(s).take(k), f).len() - of_family(interleaved(s).take(k), !f).len()
            <= 1 + excess(k - 2 * of_family(s, !f).len() - 1),
        s.len() > 0 && s[0].family() != f ==> of_family(interleaved(s).take(k), f).len()
            - of_family(interleaved(s).take(k), !f).len() <= excess(
            k - 2 * of_family(s, !f).len(),
        ),
{
    if s.len() > 0 {
        let lead = s[0].family();
        lemma_of_family_is_uniform(s, lead);
        lemma_of_family_is_uniform(s, !lead);
        lemma_of_family_len(s, lead);
        lemma_alternate_balance(of_family(s, lead), of_family(s, !lead), lead, k);
        assert(f == lead || f == !lead);
        assert(!!lead == lead);
    } else {
        assert(interleaved(s).take(k) =~= s);
        lemma_of_family_len(s, f);
    }
}

} // verus!
