//! Vectors of values that are worked on lane by lane.
use crate::evaluate::enums::Operator;
use crate::float::{ask, below, is_float_unit, is_zero, same_number, works_by, FloatOp};
use vstd::array::spec_array_update;
use vstd::prelude::*;

verus! {

broadcast use vstd::array::group_array_axioms;

/// A vector of `LANES` values that are worked on together.
#[derive(Debug, Clone, Copy, PartialEq, Eq)]
pub enum Simd<const LANES: usize> {
    /// Floating-point numbers by their bit patterns.
    Float([u64; LANES]),
}

/// The request that an arithmetic operator makes of the floating-point unit
/// for two numbers.
pub open spec fn request(op: Operator, a: u64, b: u64) -> FloatOp
    recommends
        op.is_arithmetic(),
{
    match op {
        Operator::Add => FloatOp::Add(a, b),
        Operator::Sub => FloatOp::Sub(a, b),
        Operator::Mul => FloatOp::Mul(a, b),
        Operator::Div => FloatOp::Div(a, b),
        Operator::Mod => FloatOp::Rem(a, b),
        _ => FloatOp::Powf(a, b),
    }
}

/// The lanes of `l`, the first `n` of them replaced by what the unit answers
/// for the lanes of `l` and `r` at their places.
pub open spec fn combine_lanes<const LANES: usize>(
    l: [u64; LANES],
    r: [u64; LANES],
    op: Operator,
    rule: spec_fn(FloatOp) -> u64,
    n: nat,
) -> [u64; LANES]
    decreases n,
{
    if n == 0 {
        l
    } else {
        spec_array_update(
            combine_lanes(l, r, op, rule, (n - 1) as nat),
            n - 1,
            rule(request(op, l@[n - 1], r@[n - 1])),
        )
    }
}

/// Whether two vectors agree in their first `n` lanes.
pub open spec fn lanes_same(l: Seq<u64>, r: Seq<u64>, n: int) -> bool {
    forall|j: int| 0 <= j < n ==> same_number(#[trigger] l[j], r[j])
}

/// Whether some lane among the first `n` is not zero.
pub open spec fn lanes_truth(l: Seq<u64>, n: int) -> bool {
    exists|j: int| 0 <= j < n && !is_zero(#[trigger] l[j])
}

/// Whether `l` comes before `r` within the first `n` lanes: at the first
/// lane where the two are not equal, the lane of `l` is below that of `r`.
pub open spec fn lanes_under(l: Seq<u64>, r: Seq<u64>, n: int) -> bool {
    exists|k: int| 0 <= k < n && lanes_same(l, r, k) && below(#[trigger] l[k], r[k])
}

/// The first `n` lanes hold what the unit answers, the others are the lanes
/// of `l`.
pub proof fn lemma_combine_lanes<const LANES: usize>(
    l: [u64; LANES],
    r: [u64; LANES],
    op: Operator,
    rule: spec_fn(FloatOp) -> u64,
    n: nat,
)
    requires
        n <= LANES,
    ensures
        forall|i: int|
            0 <= i < n ==> #[trigger] combine_lanes(l, r, op, rule, n)@[i] ==
                rule(request(op, l@[i], r@[i]),
            ),
        forall|i: int| n <= i < LANES ==> #[trigger] combine_lanes(l, r, op, rule, n)@[i] == l@[i],
    decreases n,
{
    if n > 0 {
        lemma_combine_lanes(l, r, op, rule, (n - 1) as nat);
        let before = combine_lanes(l, r, op, rule, (n - 1) as nat);
        let v = rule(request(op, l@[n - 1], r@[n - 1]));
        assert(combine_lanes(l, r, op, rule, n)@ == before@.update(n - 1, v));
    }
}

impl<const LANES: usize> Simd<LANES> {
    /// The lanes, the first lane first.
    pub open spec fn lanes(self) -> [u64; LANES] {
        match self {
            Simd::Float(v) => v,
        }
    }

    /// Lane by lane what the unit answers for `op`.
    pub open spec fn combined(
        self,
        rhs: Simd<LANES>,
        op: Operator,
        rule: spec_fn(FloatOp) -> u64,
    ) -> Simd<LANES> {
        Simd::Float(combine_lanes(self.lanes(), rhs.lanes(), op, rule, LANES as nat))
    }

    /// A vector counts as true if some lane is not zero.
    pub open spec fn truth(self) -> bool {
        lanes_truth(self.lanes()@, LANES as int)
    }

    /// Two vectors are equal if they are equal in every lane.
    pub open spec fn same(self, rhs: Simd<LANES>) -> bool {
        lanes_same(self.lanes()@, rhs.lanes()@, LANES as int)
    }

    /// Vectors are ordered like words: by the first lane in which they
    /// differ.
    pub open spec fn under(self, rhs: Simd<LANES>) -> bool {
        lanes_under(self.lanes()@, rhs.lanes()@, LANES as int)
    }

    /// The lanes, the first lane first.
    pub fn as_float(&self) -> (lanes: [u64; LANES])
        ensures
            lanes == self.lanes(),
    {
        match self {
            Simd::Float(v) => *v,
        }
    }

    /// A vector that holds `v` in every lane.
    pub fn splat(v: u64) -> (r: Simd<LANES>)
        ensures
            r == Simd::Float(vstd::array::spec_array_fill_for_copy_type::<u64, LANES>(v)),
            forall|i: int| 0 <= i < LANES ==> r.lanes()@[i] == v,
    {
        Simd::Float([v;LANES])
    }

    /// Applies an arithmetic operator lane by lane.
    pub fn combine<U: Fn(FloatOp) -> u64>(self, rhs: Simd<LANES>, op: Operator, unit: &U) -> (r:
        Simd<LANES>)
        requires
            is_float_unit(unit),
        ensures
            forall|rule: spec_fn(FloatOp) -> u64|
                works_by(unit, rule) ==> r == self.combined(rhs, op, rule),
    {
        let l = self.as_float();
        let r = rhs.as_float();
        let mut lanes = l;
        let mut i: usize = 0;
        while i < LANES
            invariant
                i <= LANES,
                is_float_unit(unit),
                forall|rule: spec_fn(FloatOp) -> u64|
                    works_by(unit, rule) ==> lanes == combine_lanes(l, r, op, rule, i as nat),
            decreases LANES - i,
        {
            let a = l[i];
            let b = r[i];
            let req = match op {
                Operator::Add => FloatOp::Add(a, b),
                Operator::Sub => FloatOp::Sub(a, b),
                Operator::Mul => FloatOp::Mul(a, b),
                Operator::Div => FloatOp::Div(a, b),
                Operator::Mod => FloatOp::Rem(a, b),
                _ => FloatOp::Powf(a, b),
            };
            let v = ask(unit, req);
            lanes[i] = v;
            i += 1;
            assert forall|rule: spec_fn(FloatOp) -> u64| works_by(unit, rule) implies lanes
                == combine_lanes(l, r, op, rule, i as nat) by {
                assert(lanes =~= combine_lanes(l, r, op, rule, i as nat));
            }
        }
        Simd::Float(lanes)
    }

    /// The sum, lane by lane.
    pub fn add<U: Fn(FloatOp) -> u64>(self, rhs: Simd<LANES>, unit: &U) -> (r: Simd<LANES>)
        requires
            is_float_unit(unit),
        ensures
            forall|rule: spec_fn(FloatOp) -> u64|
                works_by(unit, rule) ==> r == self.combined(rhs, Operator::Add, rule),
    {
        self.combine(rhs, Operator::Add, unit)
    }

    /// The difference, lane by lane.
    pub fn sub<U: Fn(FloatOp) -> u64>(self, rhs: Simd<LANES>, unit: &U) -> (r: Simd<LANES>)
        requires
            is_float_unit(unit),
        ensures
            forall|rule: spec_fn(FloatOp) -> u64|
                works_by(unit, rule) ==> r == self.combined(rhs, Operator::Sub, rule),
    {
        self.combine(rhs, Operator::Sub, unit)
    }

    /// The product, lane by lane.
    pub fn mul<U: Fn(FloatOp) -> u64>(self, rhs: Simd<LANES>, unit: &U) -> (r: Simd<LANES>)
        requires
            is_float_unit(unit),
        ensures
            forall|rule: spec_fn(FloatOp) -> u64|
                works_by(unit, rule) ==> r == self.combined(rhs, Operator::Mul, rule),
    {
        self.combine(rhs, Operator::Mul, unit)
    }

    /// The quotient, lane by lane.
    pub fn div<U: Fn(FloatOp) -> u64>(self, rhs: Simd<LANES>, unit: &U) -> (r: Simd<LANES>)
        requires
            is_float_unit(unit),
        ensures
            forall|rule: spec_fn(FloatOp) -> u64|
                works_by(unit, rule) ==> r == self.combined(rhs, Operator::Div, rule),
    {
        self.combine(rhs, Operator::Div, unit)
    }

    /// The remainder, lane by lane.
    pub fn rem<U: Fn(FloatOp) -> u64>(self, rhs: Simd<LANES>, unit: &U) -> (r: Simd<LANES>)
        requires
            is_float_unit(unit),
        ensures
            forall|rule: spec_fn(FloatOp) -> u64|
                works_by(unit, rule) ==> r == self.combined(rhs, Operator::Mod, rule),
    {
        self.combine(rhs, Operator::Mod, unit)
    }

    /// The power, lane by lane.
    pub fn pow<U: Fn(FloatOp) -> u64>(self, rhs: Simd<LANES>, unit: &U) -> (r: Simd<LANES>)
        requires
            is_float_unit(unit),
        ensures
            forall|rule: spec_fn(FloatOp) -> u64|
                works_by(unit, rule) ==> r == self.combined(rhs, Operator::Pow, rule),
    {
        self.combine(rhs, Operator::Pow, unit)
    }

    /// Whether some lane is not zero.
    pub fn as_bool(&self) -> (r: bool)
        ensures
            r == self.truth(),
    {
        let l = self.as_float();
        let mut i: usize = 0;
        while i < LANES
            invariant
                i <= LANES,
                l == self.lanes(),
                !lanes_truth(l@, i as int),
            decreases LANES - i,
        {
            if !crate::float::zero(l[i]) {
                assert(!is_zero(l@[i as int]));
                return true;
            }
            i += 1;
        }
        false
    }

    /// Whether two vectors are equal in every lane.
    pub fn is_same(&self, rhs: &Simd<LANES>) -> (r: bool)
        ensures
            r == self.same(*rhs),
    {
        let l = self.as_float();
        let r = rhs.as_float();
        let mut i: usize = 0;
        while i < LANES
            invariant
                i <= LANES,
                l == self.lanes(),
                r == rhs.lanes(),
                lanes_same(l@, r@, i as int),
            decreases LANES - i,
        {
            if !crate::float::equal(l[i], r[i]) {
                assert(!same_number(l@[i as int], r@[i as int]));
                return false;
            }
            i += 1;
        }
        true
    }

    /// Whether the vector comes before the other in the order of vectors.
    pub fn is_under(&self, rhs: &Simd<LANES>) -> (r: bool)
        ensures
            r == self.under(*rhs),
    {
        let l = self.as_float();
        let r = rhs.as_float();
        let mut i: usize = 0;
        while i < LANES
            invariant
                i <= LANES,
                l == self.lanes(),
                r == rhs.lanes(),
                lanes_same(l@, r@, i as int),
            decreases LANES - i,
        {
            if crate::float::less(l[i], r[i]) {
                assert(below(l@[i as int], r@[i as int]));
                return true;
            }
            if !crate::float::equal(l[i], r[i]) {
                assert forall|k: int| 0 <= k < LANES implies !(lanes_same(l@, r@, k) && below(
                    #[trigger] l@[k],
                    r@[k],
                )) by {
                    if k > i {
                        assert(!same_number(l@[i as int], r@[i as int]));
                    }
                }
                return false;
            }
            i += 1;
        }
        assert forall|k: int| 0 <= k < LANES implies !(lanes_same(l@, r@, k) && below(
            #[trigger] l@[k],
            r@[k],
        )) by {
            assert(same_number(l@[k], r@[k]));
        }
        false
    }
}

} // verus!
