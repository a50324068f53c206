use vstd::prelude::*;
use crate::digits::int_chars;
use crate::model::{asc_seq, secluded_of, SpecDomain, SpecValue};

verus! {

/// Narrowing from below is idempotent: raising the lower boundary by the
/// same endpoint twice gives exactly the domain that raising it once gives,
/// because the second application never finds the boundary strictly tighter.
pub proof fn lemma_gt_idempotent(d: SpecDomain, value: SpecValue)
    ensures
        d.gt_spec(value).gt_spec(value) == d.gt_spec(value),
{
}

/// Narrowing from above is idempotent, symmetric to `lemma_gt_idempotent`.
pub proof fn lemma_lt_idempotent(d: SpecDomain, value: SpecValue)
    ensures
        d.lt_spec(value).lt_spec(value) == d.lt_spec(value),
{
}

/// Narrowing from below is monotonic: every member of the narrowed domain is
/// a member of the receiver, since the lower boundary only ever rises.
pub proof fn lemma_gt_narrows(d: SpecDomain, value: SpecValue)
    ensures
        forall|x: int| #[trigger] d.gt_spec(value).contains(x) ==> d.contains(x),
{
}

/// Narrowing from above is monotonic, symmetric to `lemma_gt_narrows`.
pub proof fn lemma_lt_narrows(d: SpecDomain, value: SpecValue)
    ensures
        forall|x: int| #[trigger] d.lt_spec(value).contains(x) ==> d.contains(x),
{
}

/// Narrowing from below is commutative: two `gt` narrowings may be applied
/// in either order, the tightest boundary wins either way.
pub proof fn lemma_gt_commutes(d: SpecDomain, x: SpecValue, y: SpecValue)
    ensures
        d.gt_spec(x).gt_spec(y) == d.gt_spec(y).gt_spec(x),
{
}

/// Narrowing from above is commutative, symmetric to `lemma_gt_commutes`.
pub proof fn lemma_lt_commutes(d: SpecDomain, x: SpecValue, y: SpecValue)
    ensures
        d.lt_spec(x).lt_spec(y) == d.lt_spec(y).lt_spec(x),
{
}

/// Round trip between walking and rendering, for an interval bounded on
/// both sides by excluded points — the only bounded shape a chain of `gt`
/// and `lt` narrowings of the full line can produce.  The walk holds
/// exactly the integers `x` with `a < x < b`, which is the set that the
/// rendering `(a;b)` denotes, each exactly once and in ascending order.
pub proof fn lemma_walk_matches_repr(a: int, b: int)
    ensures
        forall|x: int|
            #[trigger] SpecDomain::Interval(SpecValue::Secluded(a), SpecValue::Secluded(b))
                .gen_seq()
                .contains(x) <==> a < x < b,
        forall|i: int, j: int|
            0 <= i < j
                < SpecDomain::Interval(SpecValue::Secluded(a), SpecValue::Secluded(b))
                .gen_seq()
                .len() ==> #[trigger] SpecDomain::Interval(
                SpecValue::Secluded(a),
                SpecValue::Secluded(b),
            ).gen_seq()[i] < #[trigger] SpecDomain::Interval(
                SpecValue::Secluded(a),
                SpecValue::Secluded(b),
            ).gen_seq()[j],
        SpecDomain::Interval(SpecValue::Secluded(a), SpecValue::Secluded(b)).repr_seq() == seq![
            '(',
        ] + int_chars(a) + seq![';'] + int_chars(b) + seq![')'],
{
    let d = SpecDomain::Interval(SpecValue::Secluded(a), SpecValue::Secluded(b));
    let walk = d.gen_seq();
    assert(walk == asc_seq(a + 1, b - 1));
    assert forall|x: int| #[trigger] walk.contains(x) implies a < x < b by {
        let i = choose|i: int| 0 <= i < walk.len() && walk[i] == x;
        assert(walk[i] == a + 1 + i);
    }
    assert forall|x: int| a < x < b implies #[trigger] walk.contains(x) by {
        assert(walk[x - (a + 1)] == x);
    }
}

/// The collapse convention: narrowing by an unbounded endpoint, on either
/// side, yields the empty domain whatever the receiver was.
pub proof fn lemma_unbounded_narrowing_empties(d: SpecDomain)
    ensures
        d.gt_spec(SpecValue::Infinite) == SpecDomain::Empty,
        d.lt_spec(SpecValue::Infinite) == SpecDomain::Empty,
{
    assert(secluded_of(SpecValue::Infinite, true) is None);
}

} // verus!
