//! Polynomial expressions over the cells of the circuit, and what they evaluate to.
use vstd::prelude::*;
use halo2_axiom::plonk::{Challenge, Selector};
use crate::prime::{is_prime, is_zero, tells};
use crate::prime::{lemma_product_is_zero, lemma_product_with_zero};

verus! {

/// The selector handle of `halo2_axiom::plonk`, carried through as it is.
#[verifier::external_type_specification]
#[verifier::external_body]
pub struct ExSelector(Selector);

/// The challenge handle of `halo2_axiom::plonk`, carried through as it is.
#[verifier::external_type_specification]
#[verifier::external_body]
pub struct ExChallenge(Challenge);

/// The phase of the proof in which an advice column is committed.
#[derive(Clone, Copy, Debug, PartialEq, Eq, Structural)]
pub enum Phase {
    /// Before any challenge is known.
    First,
    /// After the challenges of the first phase.
    Second,
}

/// A column of the witness.
#[derive(Clone, Copy, Debug, PartialEq, Eq, Structural)]
pub struct AdviceColumn {
    /// The place of the column among the advice columns.
    pub index: usize,
    /// The phase in which the column is committed.
    pub phase: Phase,
}

/// A column whose cells are part of the circuit.
#[derive(Clone, Copy, Debug, PartialEq, Eq, Structural)]
pub struct FixedColumn {
    /// The place of the column among the fixed columns.
    pub index: usize,
}

/// A polynomial over cells at fixed distances from the current row.
#[derive(Debug)]
pub enum Expr {
    /// A number.
    Constant(u64),
    /// A selector at the current row.
    Selector(Selector),
    /// The cell of a fixed column, at a distance.
    Fixed(FixedColumn, i32),
    /// The cell of an advice column, at a distance.
    Advice(AdviceColumn, i32),
    /// A challenge.
    Challenge(Challenge),
    /// The negation of a polynomial.
    Negated(Box<Expr>),
    /// The sum of two polynomials.
    Sum(Box<Expr>, Box<Expr>),
    /// The product of two polynomials.
    Product(Box<Expr>, Box<Expr>),
}

/// What the cells of all columns hold, as representatives of field elements.
pub struct Trace {
    /// The cells of the advice columns.
    pub advice: spec_fn(AdviceColumn, int) -> int,
    /// The cells of the fixed columns.
    pub fixed: spec_fn(FixedColumn, int) -> int,
    /// One where a selector is enabled, zero elsewhere.
    pub selector: spec_fn(Selector, int) -> int,
    /// The challenges.
    pub challenge: spec_fn(Challenge) -> int,
}

impl Expr {
    /// What the expression evaluates to at a row, as an integer. The field element is its
    /// residue.
    pub open spec fn eval(self, t: Trace, row: int) -> int
        decreases self,
    {
        match self {
            Expr::Constant(c) => c as int,
            Expr::Selector(s) => (t.selector)(s, row),
            Expr::Fixed(c, at) => (t.fixed)(c, row + at),
            Expr::Advice(c, at) => (t.advice)(c, row + at),
            Expr::Challenge(c) => (t.challenge)(c),
            Expr::Negated(a) => -a.eval(t, row),
            Expr::Sum(a, b) => a.eval(t, row) + b.eval(t, row),
            Expr::Product(a, b) => a.eval(t, row) * b.eval(t, row),
        }
    }

    /// Whether the expression is zero at a row, in the field of integers modulo `p`.
    pub open spec fn vanishes(self, t: Trace, row: int, p: int) -> bool {
        is_zero(self.eval(t, row), p)
    }

    /// Whether every advice column of the expression is among the first `n`.
    pub open spec fn fits(self, n: nat) -> bool
        decreases self,
    {
        match self {
            Expr::Advice(c, _) => c.index < n,
            Expr::Negated(a) => a.fits(n),
            Expr::Sum(a, b) => a.fits(n) && b.fits(n),
            Expr::Product(a, b) => a.fits(n) && b.fits(n),
            _ => true,
        }
    }

    /// Whether every cell that the expression refers to is in the current row or in one of the
    /// next two.
    pub open spec fn near(self) -> bool
        decreases self,
    {
        match self {
            Expr::Fixed(_, at) => 0 <= at <= 2,
            Expr::Advice(_, at) => 0 <= at <= 2,
            Expr::Negated(a) => a.near(),
            Expr::Sum(a, b) => a.near() && b.near(),
            Expr::Product(a, b) => a.near() && b.near(),
            _ => true,
        }
    }

    /// A copy of the expression.
    pub fn duplicate(&self) -> (r: Expr)
        ensures
            r == *self,
        decreases self,
    {
        match self {
            Expr::Constant(c) => Expr::Constant(*c),
            Expr::Selector(s) => Expr::Selector(*s),
            Expr::Fixed(c, at) => Expr::Fixed(*c, *at),
            Expr::Advice(c, at) => Expr::Advice(*c, *at),
            Expr::Challenge(c) => Expr::Challenge(*c),
            Expr::Negated(a) => Expr::Negated(Box::new(a.duplicate())),
            Expr::Sum(a, b) => Expr::Sum(Box::new(a.duplicate()), Box::new(b.duplicate())),
            Expr::Product(a, b) => Expr::Product(Box::new(a.duplicate()), Box::new(b.duplicate())),
        }
    }

    /// The sum of two expressions.
    pub fn plus(self, other: Expr) -> (r: Expr)
        ensures
            forall|t: Trace, row: int| #[trigger]
                r.eval(t, row) == self.eval(t, row) + other.eval(t, row),
            forall|n: nat| #[trigger] r.fits(n) == (self.fits(n) && other.fits(n)),
            r.near() == (self.near() && other.near()),
    {
        Expr::Sum(Box::new(self), Box::new(other))
    }

    /// The negation of an expression.
    pub fn negated(self) -> (r: Expr)
        ensures
            forall|t: Trace, row: int| #[trigger] r.eval(t, row) == -self.eval(t, row),
            forall|n: nat| #[trigger] r.fits(n) == self.fits(n),
            r.near() == self.near(),
    {
        Expr::Negated(Box::new(self))
    }

    /// The difference of two expressions.
    pub fn minus(self, other: Expr) -> (r: Expr)
        ensures
            forall|t: Trace, row: int| #[trigger]
                r.eval(t, row) == self.eval(t, row) - other.eval(t, row),
            forall|n: nat| #[trigger] r.fits(n) == (self.fits(n) && other.fits(n)),
            r.near() == (self.near() && other.near()),
    {
        self.plus(other.negated())
    }

    /// The product of two expressions.
    pub fn times(self, other: Expr) -> (r: Expr)
        ensures
            forall|t: Trace, row: int| #[trigger]
                r.eval(t, row) == self.eval(t, row) * other.eval(t, row),
            forall|t: Trace, row: int, p: int|
                tells(
                    #[trigger] r.vanishes(t, row, p),
                    self.vanishes(t, row, p) || other.vanishes(t, row, p),
                    p,
                ),
            forall|n: nat| #[trigger] r.fits(n) == (self.fits(n) && other.fits(n)),
            r.near() == (self.near() && other.near()),
    {
        let r = Expr::Product(Box::new(self), Box::new(other));
        assert forall|t: Trace, row: int, p: int|
            tells(
                #[trigger] r.vanishes(t, row, p),
                self.vanishes(t, row, p) || other.vanishes(t, row, p),
                p,
            ) by {
            assert(r.eval(t, row) == self.eval(t, row) * other.eval(t, row));
            if is_prime(p) {
                lemma_product_is_zero(self.eval(t, row), other.eval(t, row), p);
            }
            if p > 1 && (self.vanishes(t, row, p) || other.vanishes(t, row, p)) {
                lemma_product_with_zero(self.eval(t, row), other.eval(t, row), p);
            }
        }
        r
    }

    /// A number.
    pub fn constant(c: u64) -> (r: Expr)
        ensures
            forall|t: Trace, row: int| #[trigger] r.eval(t, row) == c,
            forall|n: nat| #[trigger] r.fits(n),
            r.near(),
    {
        Expr::Constant(c)
    }

    /// The cell of an advice column, at a distance from the current row.
    pub fn advice(column: AdviceColumn, at: i32) -> (r: Expr)
        ensures
            forall|t: Trace, row: int| #[trigger] r.eval(t, row) == (t.advice)(column, row + at),
            forall|n: nat| #[trigger] r.fits(n) == (column.index < n),
            r.near() == (0 <= at <= 2),
    {
        Expr::Advice(column, at)
    }

    /// The cell of a fixed column at the current row.
    pub fn fixed(column: FixedColumn) -> (r: Expr)
        ensures
            forall|t: Trace, row: int| #[trigger] r.eval(t, row) == (t.fixed)(column, row),
            forall|n: nat| #[trigger] r.fits(n),
            r.near(),
    {
        Expr::Fixed(column, 0)
    }

    /// A selector at the current row.
    pub fn selector(selector: Selector) -> (r: Expr)
        ensures
            forall|t: Trace, row: int| #[trigger] r.eval(t, row) == (t.selector)(selector, row),
            forall|n: nat| #[trigger] r.fits(n),
            r.near(),
    {
        Expr::Selector(selector)
    }
}

impl Clone for Expr {
    fn clone(&self) -> (r: Expr)
        ensures
            r == *self,
    {
        self.duplicate()
    }
}

/// The negation of a boolean expression: one minus it.
pub fn not(e: Expr) -> (r: Expr)
    ensures
        forall|t: Trace, row: int| #[trigger] r.eval(t, row) == 1 - e.eval(t, row),
        forall|n: nat| #[trigger] r.fits(n) == e.fits(n),
        r.near() == e.near(),
{
    Expr::constant(1).minus(e)
}

/// The disjunction of two boolean expressions.
pub fn or(a: Expr, b: Expr) -> (r: Expr)
    ensures
        forall|t: Trace, row: int| #[trigger]
            r.eval(t, row) == 1 - (1 - a.eval(t, row)) * (1 - b.eval(t, row)),
        forall|n: nat| #[trigger] r.fits(n) == (a.fits(n) && b.fits(n)),
        r.near() == (a.near() && b.near()),
{
    not(not(a).times(not(b)))
}

/// `when_true` where the boolean expression `selector` is one, and `when_false` where it is
/// zero.
pub fn select(selector: Expr, when_true: Expr, when_false: Expr) -> (r: Expr)
    ensures
        forall|t: Trace, row: int| #[trigger]
            r.eval(t, row) == selector.eval(t, row) * when_true.eval(t, row) + (1 - selector.eval(
                t,
                row,
            )) * when_false.eval(t, row),
        forall|n: nat| #[trigger]
            r.fits(n) == (selector.fits(n) && when_true.fits(n) && when_false.fits(n)),
        r.near() == (selector.near() && when_true.near() && when_false.near()),
{
    let unselected = not(selector.duplicate());
    selector.times(when_true).plus(unselected.times(when_false))
}

} // verus!
