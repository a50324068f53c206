use vstd::prelude::*;

pub mod digits;
pub mod laws;
pub mod model;
pub mod util;

use vstd::string::StringExecFns;
use crate::model::{
    SpecDomain, SpecValue, concat_gens, interval_gen, ints_of, join_reprs, lemma_concat_gens_push,
    lemma_gen_seq_in_domain, lemma_join_reprs_push,
};

verus! {

/// One endpoint of an interval: a point that belongs to the interval
/// (`Included`), a point that is left out (`Secluded`), or no constraint at
/// all on that side (`Infinite`).
#[derive(Clone, Copy)]
pub enum Value<T> {
    Included(T),
    Secluded(T),
    Infinite,
}

/// A set of integers: a union of sub-domains (which must never directly hold
/// another union), a single contiguous interval delimited by two `Value`
/// endpoints, or the empty set.
pub enum Domain<T> {
    Union(Vec<Domain<T>>),
    Domain(Value<T>, Value<T>),
    Empty,
}

impl View for Value<i32> {
    type V = SpecValue;

    open spec fn view(&self) -> SpecValue {
        match *self {
            Value::Included(v) => SpecValue::Included(v as int),
            Value::Secluded(v) => SpecValue::Secluded(v as int),
            Value::Infinite => SpecValue::Infinite,
        }
    }
}

/// The mathematical reading of a domain value.  The guard inside the union
/// case keeps the function total; an in-range index always takes the first
/// branch.
pub open spec fn dom_view(d: Domain<i32>) -> SpecDomain
    decreases d,
{
    match d {
        Domain::Union(ds) => SpecDomain::Union(
            Seq::new(
                ds@.len(),
                |i: int|
                    if 0 <= i < ds@.len() {
                        dom_view(ds@[i])
                    } else {
                        SpecDomain::Empty
                    },
            ),
        ),
        Domain::Domain(l, u) => SpecDomain::Interval(l@, u@),
        Domain::Empty => SpecDomain::Empty,
    }
}

impl View for Domain<i32> {
    type V = SpecDomain;

    open spec fn view(&self) -> SpecDomain {
        dom_view(*self)
    }
}

impl Domain<i32> {
    /// Creates the unconstrained domain of all integers: an interval whose
    /// two endpoints are both unbounded.
    pub fn new() -> (res: Self)
        ensures
            res@ == SpecDomain::Interval(SpecValue::Infinite, SpecValue::Infinite),
    {
        Domain::Domain(Value::Infinite, Value::Infinite)
    }

    /// Produces a structurally identical copy of the domain.
    #[verifier::loop_isolation(false)]
    pub fn duplicate(&self) -> (res: Self)
        ensures
            res@ == self@,
        decreases *self,
    {
        match self {
            Domain::Union(ds) => {
                let mut items: Vec<Domain<i32>> = Vec::new();
                let mut i: usize = 0;
                while i < ds.len()
                    invariant
                        i <= ds.len(),
                        items@.len() == i,
                        forall|j: int| 0 <= j < i ==> items@[j]@ == ds@[j]@,
                    decreases ds.len() - i,
                {
                    proof {
                        assert(decreases_to!(*self => (*self)->Union_0));
                        assert((*self)->Union_0 == *ds);
                        assert(decreases_to!(*ds => ds@));
                        assert(decreases_to!(ds@ => ds@[i as int]));
                    }
                    items.push(ds[i].duplicate());
                    i += 1;
                }
                proof {
                    let lhs = (Domain::<i32>::Union(items))@->Union_0;
                    let rhs = (Domain::<i32>::Union(*ds))@->Union_0;
                    assert(lhs =~= rhs);
                }
                Domain::Union(items)
            },
            Domain::Domain(l, u) => Domain::Domain(*l, *u),
            Domain::Empty => Domain::Empty,
        }
    }

    /// Narrows the domain from below: the result keeps only the members that
    /// lie above the normalized exclusive boundary of `value`, as
    /// `gt_spec` states it.  An unbounded `value` collapses the domain to
    /// the empty set; a receiver that is not a single interval is returned
    /// unchanged.
    pub fn gt(&self, value: Value<i32>) -> (res: Self)
        requires
            value matches Value::Included(i) ==> i > i32::MIN,
        ensures
            res@ == self@.gt_spec(value@),
    {
        let secluded_value = match crate::util::convert_to_secluded(value, true) {
            Some(i) => i,
            None => {
                return Domain::Empty;
            },
        };
        match self {
            Domain::Domain(left, right) => {
                match left {
                    Value::Included(i) => {
                        if secluded_value > *i {
                            return Domain::Domain(Value::Included(secluded_value), *right);
                        }
                    },
                    Value::Secluded(i) => {
                        if secluded_value > *i {
                            return Domain::Domain(Value::Secluded(secluded_value), *right);
                        }
                    },
                    Value::Infinite => {
                        return Domain::Domain(Value::Secluded(secluded_value), *right);
                    },
                }
            },
            _ => {},
        }
        self.duplicate()
    }

    /// Narrows the domain from above, symmetric to `gt`: the result keeps
    /// only the members that lie below the normalized exclusive boundary of
    /// `value`, as `lt_spec` states it.
    pub fn lt(&self, value: Value<i32>) -> (res: Self)
        requires
            value matches Value::Included(i) ==> i > i32::MIN,
        ensures
            res@ == self@.lt_spec(value@),
    {
        let secluded_value = match crate::util::convert_to_secluded(value, true) {
            Some(i) => i,
            None => {
                return Domain::Empty;
            },
        };
        match self {
            Domain::Domain(left, right) => {
                match right {
                    Value::Included(i) => {
                        if secluded_value < *i {
                            return Domain::Domain(*left, Value::Included(secluded_value));
                        }
                    },
                    Value::Secluded(i) => {
                        if secluded_value < *i {
                            return Domain::Domain(*left, Value::Secluded(secluded_value));
                        }
                    },
                    Value::Infinite => {
                        return Domain::Domain(*left, Value::Secluded(secluded_value));
                    },
                }
            },
            _ => {},
        }
        self.duplicate()
    }
}

impl Domain<i32> {
    /// Renders the domain in canonical interval notation, as `repr_seq`
    /// states it.
    #[verifier::loop_isolation(false)]
    fn render(&self) -> (res: String)
        ensures
            res@ == self@.repr_seq(),
        decreases *self,
    {
        match self {
            Domain::Empty => {
                proof {
                    reveal_strlit("∅");
                }
                let mut s = String::new();
                s.append("∅");
                proof {
                    assert(s@ =~= self@.repr_seq());
                }
                s
            },
            Domain::Domain(l, u) => {
                let mut s = String::new();
                match l {
                    Value::Included(v) => {
                        proof {
                            reveal_strlit("[");
                        }
                        s.append("[");
                        let num = crate::digits::int_string(*v);
                        s.append(num.as_str());
                    },
                    Value::Secluded(v) => {
                        proof {
                            reveal_strlit("(");
                        }
                        s.append("(");
                        let num = crate::digits::int_string(*v);
                        s.append(num.as_str());
                    },
                    Value::Infinite => {
                        proof {
                            reveal_strlit("(-∞");
                        }
                        s.append("(-∞");
                    },
                }
                proof {
                    reveal_strlit(";");
                    assert(s@ =~= l@.lower_chars());
                }
                s.append(";");
                match u {
                    Value::Included(v) => {
                        let num = crate::digits::int_string(*v);
                        s.append(num.as_str());
                        proof {
                            reveal_strlit("]");
                        }
                        s.append("]");
                    },
                    Value::Secluded(v) => {
                        let num = crate::digits::int_string(*v);
                        s.append(num.as_str());
                        proof {
                            reveal_strlit(")");
                        }
                        s.append(")");
                    },
                    Value::Infinite => {
                        proof {
                            reveal_strlit("∞)");
                        }
                        s.append("∞)");
                    },
                }
                proof {
                    assert(s@ =~= self@.repr_seq());
                }
                s
            },
            Domain::Union(ds) => {
                let mut s = String::new();
                let mut i: usize = 0;
                proof {
                    let vs = self@->Union_0;
                    assert(vs.take(0) =~= Seq::<SpecDomain>::empty());
                    assert(join_reprs(vs.take(0)) == Seq::<char>::empty());
                }
                while i < ds.len()
                    invariant
                        i <= ds.len(),
                        s@ == join_reprs(self@->Union_0.take(i as int)),
                    decreases ds.len() - i,
                {
                    if i > 0 {
                        proof {
                            reveal_strlit("⋃");
                        }
                        s.append("⋃");
                    }
                    proof {
                        assert(decreases_to!(*self => (*self)->Union_0));
                        assert((*self)->Union_0 == *ds);
                        assert(decreases_to!(*ds => ds@));
                        assert(decreases_to!(ds@ => ds@[i as int]));
                    }
                    let piece = ds[i].render();
                    s.append(piece.as_str());
                    proof {
                        let vs = self@->Union_0;
                        lemma_join_reprs_push(vs.take(i as int), vs[i as int]);
                        assert(vs.take(i as int + 1) =~= vs.take(i as int).push(vs[i as int]));
                        assert(piece@ == vs[i as int].repr_seq());
                        assert(s@ =~= join_reprs(vs.take(i as int + 1)));
                    }
                    i += 1;
                }
                proof {
                    let vs = self@->Union_0;
                    assert(vs.take(vs.len() as int) =~= vs);
                }
                s
            },
        }
    }

    /// Collects the members of one interval, walking as `interval_gen`
    /// states it: ascending when the lower endpoint is finite, descending
    /// from the upper endpoint when only that one is, and not at all when
    /// neither is.
    #[verifier::loop_isolation(false)]
    fn interval_members(l: Value<i32>, u: Value<i32>) -> (res: Vec<i32>)
        ensures
            ints_of(res@) == interval_gen(l@, u@),
    {
        let mut res: Vec<i32> = Vec::new();
        let l_finite = !matches!(l, Value::Infinite);
        let u_finite = !matches!(u, Value::Infinite);
        if !l_finite && !u_finite {
            proof {
                assert(ints_of(res@) =~= interval_gen(l@, u@));
            }
            return res;
        }
        if l_finite {
            let lo: i64 = match l {
                Value::Included(v) => v as i64,
                Value::Secluded(v) => v as i64 + 1,
                Value::Infinite => 0,
            };
            let hi: i64 = match u {
                Value::Included(v) => v as i64,
                Value::Secluded(v) => v as i64 - 1,
                Value::Infinite => i32::MAX as i64,
            };
            let mut x: i64 = lo;
            while x <= hi
                invariant
                    lo <= x,
                    x == lo || x <= hi + 1,
                    res@.len() == x - lo,
                    forall|j: int| 0 <= j < res@.len() ==> res@[j] == lo + j,
                decreases hi - x + 1,
            {
                res.push(x as i32);
                x = x + 1;
            }
            proof {
                assert(ints_of(res@) =~= interval_gen(l@, u@));
            }
        } else {
            let start: i64 = match u {
                Value::Included(v) => v as i64,
                Value::Secluded(v) => v as i64 - 1,
                Value::Infinite => 0,
            };
            let mut x: i64 = start;
            while x >= i32::MIN as i64
                invariant
                    x <= start,
                    i32::MIN - 1 <= x,
                    res@.len() == start - x,
                    forall|j: int| 0 <= j < res@.len() ==> res@[j] == start - j,
                decreases x - i32::MIN + 1,
            {
                res.push(x as i32);
                x = x - 1;
            }
            proof {
                assert(ints_of(res@) =~= interval_gen(l@, u@));
            }
        }
        res
    }

    /// Collects every member of the domain into a vector, in the exact walk
    /// order that `gen_seq` states: each child of a union in sequence order,
    /// an interval ascending from a finite lower endpoint or else descending
    /// from its upper one, the empty set contributing nothing.  A side that
    /// is unbounded is walked to the edge of the representable 32-bit range.
    #[verifier::loop_isolation(false)]
    pub fn members(&self) -> (res: Vec<i32>)
        ensures
            ints_of(res@) == self@.gen_seq(),
        decreases *self,
    {
        match self {
            Domain::Empty => {
                let res: Vec<i32> = Vec::new();
                proof {
                    assert(ints_of(res@) =~= self@.gen_seq());
                }
                res
            },
            Domain::Domain(l, u) => {
                let res = Self::interval_members(*l, *u);
                res
            },
            Domain::Union(ds) => {
                let mut res: Vec<i32> = Vec::new();
                let mut i: usize = 0;
                proof {
                    let vs = self@->Union_0;
                    assert(vs.take(0) =~= Seq::<SpecDomain>::empty());
                    assert(concat_gens(vs.take(0)) == Seq::<int>::empty());
                    assert(ints_of(res@) =~= Seq::<int>::empty());
                }
                while i < ds.len()
                    invariant
                        i <= ds.len(),
                        ints_of(res@) == concat_gens(self@->Union_0.take(i as int)),
                    decreases ds.len() - i,
                {
                    proof {
                        assert(decreases_to!(*self => (*self)->Union_0));
                        assert((*self)->Union_0 == *ds);
                        assert(decreases_to!(*ds => ds@));
                        assert(decreases_to!(ds@ => ds@[i as int]));
                    }
                    let mut part = ds[i].members();
                    let ghost res_before = res@;
                    let ghost part_view = part@;
                    res.append(&mut part);
                    proof {
                        let vs = self@->Union_0;
                        lemma_concat_gens_push(vs.take(i as int), vs[i as int]);
                        assert(vs.take(i as int + 1) =~= vs.take(i as int).push(vs[i as int]));
                        assert(res@ == res_before + part_view);
                        assert(ints_of(part_view) == vs[i as int].gen_seq());
                        assert(ints_of(res@) =~= concat_gens(vs.take(i as int + 1)));
                    }
                    i += 1;
                }
                proof {
                    let vs = self@->Union_0;
                    assert(vs.take(vs.len() as int) =~= vs);
                }
                res
            },
        }
    }

    /// Walks every member of the domain in the order `gen_seq` states and
    /// hands each one to `receiver`, together with a copy of `context`.
    /// The receiver must accept every member of the domain.
    #[verifier::loop_isolation(false)]
    pub fn generate<Context: Clone, F: Fn(i32, Context)>(&self, receiver: F, context: Context)
        requires
            forall|n: i32, c: Context|
                self@.contains(n as int) ==> #[trigger] call_requires(receiver, (n, c)),
    {
        let items = self.members();
        proof {
            lemma_gen_seq_in_domain(self@);
        }
        let mut i: usize = 0;
        while i < items.len()
            decreases items.len() - i,
        {
            proof {
                assert(ints_of(items@)[i as int] == items@[i as int] as int);
                assert(self@.contains(items@[i as int] as int));
            }
            receiver(items[i], context.clone());
            i += 1;
        }
    }

    /// Renders the domain in the canonical mathematical notation: `∅` for
    /// the empty set, endpoint halves around `;` for an interval (`[v` or
    /// `v]` for an included point, `(v` or `v)` for an excluded one, `-∞`
    /// and `∞` for an unbounded side), and the children joined by `⋃` for a
    /// union.
    pub fn repr(self) -> (res: String)
        ensures
            res@ == self@.repr_seq(),
    {
        self.render()
    }
}

impl Clone for Domain<i32> {
    /// A clone reads the same as the cloned value under the mathematical view.
    fn clone(&self) -> (res: Self)
        ensures
            res@ == self@,
    {
        self.duplicate()
    }
}

} // verus!
