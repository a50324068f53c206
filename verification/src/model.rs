use vstd::prelude::*;
use crate::digits::int_chars;

verus! {

/// The mathematical reading of a `Value`: one endpoint of an interval over
/// the unbounded integers.
pub enum SpecValue {
    Included(int),
    Secluded(int),
    Infinite,
}

/// The mathematical reading of a `Domain`: the empty set, one interval, or a
/// union of sub-domains.
pub enum SpecDomain {
    Union(Seq<SpecDomain>),
    Interval(SpecValue, SpecValue),
    Empty,
}

/// The exclusive integer boundary an endpoint stands for, at the
/// mathematical level: an `Included` point moves one step (down when the
/// boundary tightens from below, up when it tightens from above), a
/// `Secluded` point is already exclusive, and `Infinite` has none.
pub open spec fn secluded_of(value: SpecValue, gt: bool) -> Option<int> {
    match value {
        SpecValue::Included(i) => Option::Some(
            if gt {
                i - 1
            } else {
                i + 1
            },
        ),
        SpecValue::Secluded(i) => Option::Some(i),
        SpecValue::Infinite => Option::None,
    }
}

impl SpecValue {
    /// Does `x` satisfy this endpoint when it delimits an interval from below?
    pub open spec fn lower_ok(self, x: int) -> bool {
        match self {
            SpecValue::Included(v) => x >= v,
            SpecValue::Secluded(v) => x > v,
            SpecValue::Infinite => true,
        }
    }

    /// Does `x` satisfy this endpoint when it delimits an interval from above?
    pub open spec fn upper_ok(self, x: int) -> bool {
        match self {
            SpecValue::Included(v) => x <= v,
            SpecValue::Secluded(v) => x < v,
            SpecValue::Infinite => true,
        }
    }

    /// Is the endpoint a finite boundary?
    pub open spec fn is_finite(self) -> bool {
        !(self is Infinite)
    }

    /// The first integer inside an interval that this endpoint delimits from
    /// below (meaningful only for a finite endpoint).
    pub open spec fn first_inside(self) -> int {
        match self {
            SpecValue::Included(v) => v,
            SpecValue::Secluded(v) => v + 1,
            SpecValue::Infinite => 0,
        }
    }

    /// The last integer inside an interval that this endpoint delimits from
    /// above (meaningful only for a finite endpoint).
    pub open spec fn last_inside(self) -> int {
        match self {
            SpecValue::Included(v) => v,
            SpecValue::Secluded(v) => v - 1,
            SpecValue::Infinite => 0,
        }
    }

    /// The rendering of this endpoint as the opening half of an interval:
    /// `[v` for an included point, `(v` for an excluded one, `(-∞` for no
    /// constraint.
    pub open spec fn lower_chars(self) -> Seq<char> {
        match self {
            SpecValue::Included(v) => seq!['['] + int_chars(v),
            SpecValue::Secluded(v) => seq!['('] + int_chars(v),
            SpecValue::Infinite => seq!['(', '-', '∞'],
        }
    }

    /// The rendering of this endpoint as the closing half of an interval:
    /// `v]`, `v)`, or `∞)`.
    pub open spec fn upper_chars(self) -> Seq<char> {
        match self {
            SpecValue::Included(v) => int_chars(v) + seq![']'],
            SpecValue::Secluded(v) => int_chars(v) + seq![')'],
            SpecValue::Infinite => seq!['∞', ')'],
        }
    }
}

/// The integers of `s` read as unbounded mathematical integers.
pub open spec fn ints_of(s: Seq<i32>) -> Seq<int> {
    Seq::new(s.len(), |j: int| s[j] as int)
}

/// The ascending run of integers from `lo` to `hi`, both inclusive; empty
/// when `lo > hi`.
pub open spec fn asc_seq(lo: int, hi: int) -> Seq<int> {
    if lo > hi {
        Seq::empty()
    } else {
        Seq::new((hi - lo + 1) as nat, |i: int| lo + i)
    }
}

/// The descending run of integers from `hi` down to `lo`, both inclusive;
/// empty when `hi < lo`.
pub open spec fn desc_seq(hi: int, lo: int) -> Seq<int> {
    if hi < lo {
        Seq::empty()
    } else {
        Seq::new((hi - lo + 1) as nat, |i: int| hi - i)
    }
}

/// The exact order in which an interval's members are walked: ascending from
/// the lower boundary when that side is finite, otherwise descending from
/// the upper boundary; an unbounded walked-away-from side stops at the edge
/// of the representable 32-bit range, and an interval unbounded on both
/// sides walks nothing.
pub open spec fn interval_gen(l: SpecValue, u: SpecValue) -> Seq<int> {
    if !l.is_finite() && !u.is_finite() {
        Seq::empty()
    } else if l.is_finite() {
        asc_seq(
            l.first_inside(),
            if u.is_finite() {
                u.last_inside()
            } else {
                i32::MAX as int
            },
        )
    } else {
        desc_seq(u.last_inside(), i32::MIN as int)
    }
}

impl SpecDomain {
    /// The set of integers the domain stands for.
    pub open spec fn contains(self, x: int) -> bool
        decreases self,
    {
        match self {
            SpecDomain::Empty => false,
            SpecDomain::Interval(l, u) => l.lower_ok(x) && u.upper_ok(x),
            SpecDomain::Union(ds) => exists|i: int| 0 <= i < ds.len() && ds[i].contains(x),
        }
    }

    /// The domain after raising the lower boundary to `value`: the tighter
    /// (larger) boundary wins and the receiver's inclusivity category is
    /// kept, an unbounded receiver side always adopts the incoming exclusive
    /// boundary, an unbounded incoming `value` collapses the domain to
    /// `Empty`, and a receiver that is not a single interval is left as it
    /// is.
    pub open spec fn gt_spec(self, value: SpecValue) -> SpecDomain {
        match secluded_of(value, true) {
            Option::None => SpecDomain::Empty,
            Option::Some(s) => match self {
                SpecDomain::Interval(l, u) => match l {
                    SpecValue::Included(i) => if s > i {
                        SpecDomain::Interval(SpecValue::Included(s), u)
                    } else {
                        self
                    },
                    SpecValue::Secluded(i) => if s > i {
                        SpecDomain::Interval(SpecValue::Secluded(s), u)
                    } else {
                        self
                    },
                    SpecValue::Infinite => SpecDomain::Interval(SpecValue::Secluded(s), u),
                },
                _ => self,
            },
        }
    }

    /// The domain after lowering the upper boundary to `value`, symmetric to
    /// `gt_spec`: the tighter (smaller) boundary wins.
    pub open spec fn lt_spec(self, value: SpecValue) -> SpecDomain {
        match secluded_of(value, true) {
            Option::None => SpecDomain::Empty,
            Option::Some(s) => match self {
                SpecDomain::Interval(l, u) => match u {
                    SpecValue::Included(i) => if s < i {
                        SpecDomain::Interval(l, SpecValue::Included(s))
                    } else {
                        self
                    },
                    SpecValue::Secluded(i) => if s < i {
                        SpecDomain::Interval(l, SpecValue::Secluded(s))
                    } else {
                        self
                    },
                    SpecValue::Infinite => SpecDomain::Interval(l, SpecValue::Secluded(s)),
                },
                _ => self,
            },
        }
    }

    /// The canonical rendering of the domain: `∅` for the empty set, the two
    /// endpoint halves around `;` for an interval, and the children joined
    /// by `⋃` for a union.
    pub open spec fn repr_seq(self) -> Seq<char>
        decreases self,
    {
        match self {
            SpecDomain::Empty => seq!['∅'],
            SpecDomain::Interval(l, u) => l.lower_chars() + seq![';'] + u.upper_chars(),
            SpecDomain::Union(ds) => join_reprs(ds),
        }
    }

    /// The exact order in which the domain's members are walked: each child
    /// of a union in sequence order, an interval as `interval_gen` says, the
    /// empty set not at all.
    pub open spec fn gen_seq(self) -> Seq<int>
        decreases self,
    {
        match self {
            SpecDomain::Empty => Seq::empty(),
            SpecDomain::Interval(l, u) => interval_gen(l, u),
            SpecDomain::Union(ds) => concat_gens(ds),
        }
    }
}

/// The renderings of the domains in `ds`, joined by the union glyph.
pub open spec fn join_reprs(ds: Seq<SpecDomain>) -> Seq<char>
    decreases ds,
{
    if ds.len() == 0 {
        Seq::empty()
    } else if ds.len() == 1 {
        ds[0].repr_seq()
    } else {
        ds[0].repr_seq() + seq!['⋃'] + join_reprs(ds.drop_first())
    }
}

/// The walks of the domains in `ds`, one after the other.
pub open spec fn concat_gens(ds: Seq<SpecDomain>) -> Seq<int>
    decreases ds,
{
    if ds.len() == 0 {
        Seq::empty()
    } else {
        ds[0].gen_seq() + concat_gens(ds.drop_first())
    }
}

/// Extending a joined rendering by one more domain appends a union glyph and
/// that domain's rendering (or is just that rendering when nothing came
/// before).
pub proof fn lemma_join_reprs_push(ds: Seq<SpecDomain>, d: SpecDomain)
    ensures
        join_reprs(ds.push(d)) == if ds.len() == 0 {
            d.repr_seq()
        } else {
            join_reprs(ds) + seq!['⋃'] + d.repr_seq()
        },
    decreases ds,
{
    if ds.len() == 0 {
        assert(ds.push(d)[0] == d);
    } else if ds.len() == 1 {
        assert(ds.push(d)[0] == ds[0]);
        assert(ds.push(d).drop_first() =~= seq![d]);
        assert(join_reprs(seq![d]) == d.repr_seq());
    } else {
        lemma_join_reprs_push(ds.drop_first(), d);
        assert(ds.push(d)[0] == ds[0]);
        assert(ds.push(d).drop_first() =~= ds.drop_first().push(d));
        assert(join_reprs(ds.push(d)) =~= join_reprs(ds) + seq!['⋃'] + d.repr_seq());
    }
}

/// Extending a concatenated walk by one more domain appends that domain's
/// walk.
pub proof fn lemma_concat_gens_push(ds: Seq<SpecDomain>, d: SpecDomain)
    ensures
        concat_gens(ds.push(d)) == concat_gens(ds) + d.gen_seq(),
    decreases ds,
{
    if ds.len() == 0 {
        assert(ds.push(d)[0] == d);
        assert(ds.push(d).drop_first() =~= Seq::<SpecDomain>::empty());
        assert(concat_gens(ds) == Seq::<int>::empty());
        assert(concat_gens(Seq::<SpecDomain>::empty()) == Seq::<int>::empty());
        assert(concat_gens(ds.push(d)) == d.gen_seq() + Seq::<int>::empty());
        assert(concat_gens(ds.push(d)) =~= concat_gens(ds) + d.gen_seq());
    } else {
        lemma_concat_gens_push(ds.drop_first(), d);
        assert(ds.push(d)[0] == ds[0]);
        assert(ds.push(d).drop_first() =~= ds.drop_first().push(d));
        assert(concat_gens(ds.push(d)) == ds[0].gen_seq() + concat_gens(
            ds.drop_first().push(d),
        ));
        assert(concat_gens(ds) == ds[0].gen_seq() + concat_gens(ds.drop_first()));
        assert(concat_gens(ds.push(d)) =~= concat_gens(ds) + d.gen_seq());
    }
}

/// Every value a domain's walk produces is a member of the domain.
pub proof fn lemma_gen_seq_in_domain(d: SpecDomain)
    ensures
        forall|j: int| 0 <= j < d.gen_seq().len() ==> d.contains(#[trigger] d.gen_seq()[j]),
    decreases d,
{
    match d {
        SpecDomain::Empty => {},
        SpecDomain::Interval(l, u) => {},
        SpecDomain::Union(ds) => {
            lemma_concat_gens_in(ds);
            assert forall|j: int| #![trigger d.gen_seq()[j]] 0 <= j < d.gen_seq().len() implies d.contains(
                d.gen_seq()[j],
            ) by {
                assert(d.gen_seq() == concat_gens(ds));
                assert(d.gen_seq()[j] == concat_gens(ds)[j]);
                let k = choose|k: int|
                    0 <= k < ds.len() && (#[trigger] ds[k]).contains(concat_gens(ds)[j]);
                assert(ds[k].contains(d.gen_seq()[j]));
            }
        },
    }
}

/// Every value in the concatenated walk of `ds` is a member of one of the
/// domains in `ds`.
pub proof fn lemma_concat_gens_in(ds: Seq<SpecDomain>)
    ensures
        forall|j: int|
            0 <= j < concat_gens(ds).len() ==> exists|k: int|
                0 <= k < ds.len() && (#[trigger] ds[k]).contains(#[trigger] concat_gens(ds)[j]),
    decreases ds,
{
    if ds.len() > 0 {
        lemma_gen_seq_in_domain(ds[0]);
        lemma_concat_gens_in(ds.drop_first());
        assert forall|j: int| #![trigger concat_gens(ds)[j]] 0 <= j < concat_gens(ds).len() implies exists|k: int|
            0 <= k < ds.len() && (#[trigger] ds[k]).contains(concat_gens(ds)[j]) by {
            let x = concat_gens(ds)[j];
            if j < ds[0].gen_seq().len() {
                assert(x == ds[0].gen_seq()[j]);
                assert(ds[0].contains(x));
            } else {
                let j2 = j - ds[0].gen_seq().len();
                let tail = ds.drop_first();
                assert(x == concat_gens(tail)[j2]);
                let k2 = choose|k2: int| 0 <= k2 < tail.len() && tail[k2].contains(concat_gens(tail)[j2]);
                assert(tail[k2] == ds[k2 + 1]);
                assert(ds[k2 + 1].contains(x));
            }
        }
    }
}

} // verus!
