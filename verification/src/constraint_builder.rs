//! Collects the constraints of a gate.
use vstd::prelude::*;
use crate::expression::{not, Expr, Trace};
use crate::prime::{is_bit, is_prime, is_zero, same, tells};
use crate::prime::{lemma_product_is_zero, lemma_product_with_zero, lemma_same_symmetric};

verus! {

/// Named constraints under a common condition.
pub struct BaseConstraintBuilder {
    /// The constraints so far, each with its name.
    pub constraints: Vec<(&'static str, Expr)>,
    /// The condition on the constraints that follow: they hold wherever it is zero.
    pub condition: Option<Expr>,
}

/// The value of the condition is zero, so that a constraint under it holds.
pub open spec fn off(condition: Option<Expr>, t: Trace, row: int, p: int) -> bool {
    condition matches Some(c) && c.vanishes(t, row, p)
}

/// What a constraint under the condition evaluates to.
pub open spec fn conditioned(condition: Option<Expr>, value: int, t: Trace, row: int) -> int {
    match condition {
        Some(c) => c.eval(t, row) * value,
        None => value,
    }
}

/// The condition is within the first `n` advice columns.
pub open spec fn condition_fits(condition: Option<Expr>, n: nat) -> bool {
    condition matches Some(c) ==> c.fits(n)
}

/// The condition refers to cells in the current row and the next two only.
pub open spec fn condition_near(condition: Option<Expr>) -> bool {
    condition matches Some(c) ==> c.near()
}

/// The constraints of a gate state, one by one, what a table of named statements says of a row:
/// modulo `p` a constraint vanishes where its statement holds, and where `p` is prime, only there.
pub open spec fn states(
    constraints: Seq<(Seq<char>, Expr)>,
    t: Trace,
    row: int,
    p: int,
    table: Seq<(Seq<char>, bool)>,
) -> bool {
    &&& constraints.len() == table.len()
    &&& forall|k: int|
        0 <= k < table.len() ==> (#[trigger] constraints[k]).0 == table[k].0 && tells(
            constraints[k].1.vanishes(t, row, p),
            table[k].1,
            p,
        )
}

/// The constraints of a gate evaluate, one by one, to what a table of named values says of a row.
pub open spec fn evaluates(
    constraints: Seq<(Seq<char>, Expr)>,
    t: Trace,
    row: int,
    values: Seq<(Seq<char>, int)>,
) -> bool {
    &&& constraints.len() == values.len()
    &&& forall|k: int|
        0 <= k < values.len() ==> (#[trigger] constraints[k]).0 == values[k].0
            && constraints[k].1.eval(t, row) == values[k].1
}

impl BaseConstraintBuilder {
    /// A builder without constraints and without a condition.
    pub fn new() -> (r: BaseConstraintBuilder)
        ensures
            r.constraints@.len() == 0,
            r.condition is None,
    {
        BaseConstraintBuilder { constraints: Vec::new(), condition: None }
    }

    /// Puts the constraints that follow under a condition.
    pub fn begin_condition(&mut self, condition: Expr)
        ensures
            final(self).constraints == old(self).constraints,
            final(self).condition == Some(condition),
    {
        self.condition = Some(condition);
    }

    /// Ends the condition.
    pub fn end_condition(&mut self)
        ensures
            final(self).constraints == old(self).constraints,
            final(self).condition is None,
    {
        self.condition = None;
    }

    /// Requires that an expression is zero.
    pub fn require_zero(&mut self, name: &'static str, constraint: Expr)
        ensures
            final(self).condition == old(self).condition,
            final(self).constraints@ == old(self).constraints@.push(
                final(self).constraints@.last(),
            ),
            final(self).constraints@.last().0 == name,
            forall|t: Trace, row: int, p: int|
                tells(
                    #[trigger] final(self).constraints@.last().1.vanishes(t, row, p),
                    off(old(self).condition, t, row, p) || is_zero(constraint.eval(t, row), p),
                    p,
                ),
            forall|t: Trace, row: int| #[trigger]
                final(self).constraints@.last().1.eval(t, row) == conditioned(
                    old(self).condition,
                    constraint.eval(t, row),
                    t,
                    row,
                ),
            forall|n: nat| #[trigger]
                final(self).constraints@.last().1.fits(n) == (condition_fits(
                    old(self).condition,
                    n,
                ) && constraint.fits(n)),
            final(self).constraints@.last().1.near() == (condition_near(old(self).condition)
                && constraint.near()),
    {
        let conditioned = match &self.condition {
            Some(c) => c.duplicate().times(constraint),
            None => constraint,
        };
        self.constraints.push((name, conditioned));
        assert(self.constraints@.last() == (name, conditioned));
    }

    /// Requires that two expressions are equal.
    pub fn require_equal(&mut self, name: &'static str, lhs: Expr, rhs: Expr)
        ensures
            final(self).condition == old(self).condition,
            final(self).constraints@ == old(self).constraints@.push(
                final(self).constraints@.last(),
            ),
            final(self).constraints@.last().0 == name,
            forall|t: Trace, row: int, p: int|
                tells(
                    #[trigger] final(self).constraints@.last().1.vanishes(t, row, p),
                    off(old(self).condition, t, row, p) || same(
                        lhs.eval(t, row),
                        rhs.eval(t, row),
                        p,
                    ),
                    p,
                ),
            forall|t: Trace, row: int| #[trigger]
                final(self).constraints@.last().1.eval(t, row) == conditioned(
                    old(self).condition,
                    lhs.eval(t, row) - rhs.eval(t, row),
                    t,
                    row,
                ),
            forall|n: nat| #[trigger]
                final(self).constraints@.last().1.fits(n) == (condition_fits(
                    old(self).condition,
                    n,
                ) && lhs.fits(n) && rhs.fits(n)),
            final(self).constraints@.last().1.near() == (condition_near(old(self).condition)
                && lhs.near() && rhs.near()),
    {
        self.require_zero(name, lhs.minus(rhs));
    }

    /// Requires that an expression is zero or one.
    pub fn require_boolean(&mut self, name: &'static str, value: Expr)
        ensures
            final(self).condition == old(self).condition,
            final(self).constraints@ == old(self).constraints@.push(
                final(self).constraints@.last(),
            ),
            final(self).constraints@.last().0 == name,
            forall|t: Trace, row: int, p: int|
                tells(
                    #[trigger] final(self).constraints@.last().1.vanishes(t, row, p),
                    off(old(self).condition, t, row, p) || is_bit(value.eval(t, row), p),
                    p,
                ),
            forall|t: Trace, row: int| #[trigger]
                final(self).constraints@.last().1.eval(t, row) == conditioned(
                    old(self).condition,
                    value.eval(t, row) * (1 - value.eval(t, row)),
                    t,
                    row,
                ),
            forall|n: nat| #[trigger]
                final(self).constraints@.last().1.fits(n) == (condition_fits(
                    old(self).condition,
                    n,
                ) && value.fits(n)),
            final(self).constraints@.last().1.near() == (condition_near(old(self).condition)
                && value.near()),
    {
        let complement = not(value.duplicate());
        let bit = value.times(complement);
        assert forall|t: Trace, row: int, p: int|
            tells(
                #[trigger] is_zero(bit.eval(t, row), p),
                is_bit(value.eval(t, row), p),
                p,
            ) by {
            let v = value.eval(t, row);
            assert(is_zero(v - 0, p) == is_zero(v, p));
            if is_prime(p) {
                lemma_product_is_zero(v, 1 - v, p);
                if same(1, v, p) {
                    lemma_same_symmetric(1, v, p);
                }
            }
            if p > 1 && is_bit(v, p) {
                if same(v, 1, p) {
                    lemma_same_symmetric(v, 1, p);
                }
                lemma_product_with_zero(v, 1 - v, p);
            }
        }
        self.require_zero(name, bit);
    }

    /// The constraints, each multiplied by the selector of the custom gate.
    pub fn gate(self, selector: Expr) -> (r: Vec<(&'static str, Expr)>)
        ensures
            r@.len() == self.constraints@.len(),
            forall|k: int|
                0 <= k < r@.len() ==> (#[trigger] r@[k]).0 == self.constraints@[k].0,
            forall|k: int, t: Trace, row: int, p: int|
                0 <= k < r@.len() ==> tells(
                    #[trigger] r@[k].1.vanishes(t, row, p),
                    selector.vanishes(t, row, p) || self.constraints@[k].1.vanishes(t, row, p),
                    p,
                ),
            forall|k: int, t: Trace, row: int|
                0 <= k < r@.len() ==> #[trigger] r@[k].1.eval(t, row) == selector.eval(t, row)
                    * self.constraints@[k].1.eval(t, row),
            forall|k: int, n: nat|
                0 <= k < r@.len() ==> #[trigger] r@[k].1.fits(n) == (selector.fits(n)
                    && self.constraints@[k].1.fits(n)),
            forall|k: int|
                0 <= k < r@.len() ==> #[trigger] r@[k].1.near() == (selector.near()
                    && self.constraints@[k].1.near()),
    {
        let mut r: Vec<(&'static str, Expr)> = Vec::new();
        let mut k: usize = 0;
        while k < self.constraints.len()
            invariant
                k <= self.constraints@.len(),
                r@.len() == k,
                forall|j: int| 0 <= j < k ==> (#[trigger] r@[j]).0 == self.constraints@[j].0,
                forall|j: int, t: Trace, row: int, p: int|
                    0 <= j < k ==> tells(
                        #[trigger] r@[j].1.vanishes(t, row, p),
                        selector.vanishes(t, row, p) || self.constraints@[j].1.vanishes(t, row, p),
                        p,
                    ),
                forall|j: int, t: Trace, row: int|
                    0 <= j < k ==> #[trigger] r@[j].1.eval(t, row) == selector.eval(t, row)
                        * self.constraints@[j].1.eval(t, row),
                forall|j: int, n: nat|
                    0 <= j < k ==> #[trigger] r@[j].1.fits(n) == (selector.fits(n)
                        && self.constraints@[j].1.fits(n)),
                forall|j: int|
                    0 <= j < k ==> #[trigger] r@[j].1.near() == (selector.near()
                        && self.constraints@[j].1.near()),
            decreases self.constraints@.len() - k,
        {
            let poly = selector.duplicate().times(self.constraints[k].1.duplicate());
            r.push((self.constraints[k].0, poly));
            k += 1;
        }
        r
    }
}

} // verus!
