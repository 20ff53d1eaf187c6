//! The constraint system of `halo2_axiom` that the circuit declares its columns, gates and
//! lookups in.
use vstd::prelude::*;
use halo2_axiom::circuit::Cell;
use halo2_axiom::halo2curves::bn256::Fr;
use halo2_axiom::plonk::{Advice, ColumnType, Expression, FirstPhase, Fixed, SecondPhase};
use halo2_axiom::plonk::{Challenge, Selector};
use halo2_axiom::poly::Rotation;
use crate::expression::{AdviceColumn, Expr, FixedColumn, Phase};

verus! {

/// The scalar field of the BN254 curve in `halo2curves`.
#[verifier::external_type_specification]
#[verifier::external_body]
pub struct ExFr(Fr);

/// The expression tree of `halo2_axiom::plonk`.
#[verifier::external_type_specification]
#[verifier::external_body]
#[verifier::reject_recursive_types(F)]
pub struct ExExpression<F>(Expression<F>);

/// The cell pointer of `halo2_axiom::circuit`, which carries the handle of a column.
#[verifier::external_type_specification]
#[verifier::external_body]
pub struct ExCell(Cell);

/// A borrowed `halo2_axiom::plonk::ConstraintSystem` over the scalar field.
#[verifier::external_body]
pub struct ConstraintSystem<'a> {
    /// The constraint system that declarations go to.
    pub inner: &'a mut halo2_axiom::plonk::ConstraintSystem<Fr>,
}

/// What tells the columns of a constraint system apart: their kind, the number of the phase of an
/// advice column, and their place among the columns of their kind.
pub enum ColumnKey {
    /// A column of the witness: its phase and its place.
    Advice(nat, nat),
    /// A column whose cells are part of the circuit.
    Fixed(nat),
    /// A column of public values.
    Instance(nat),
}

/// A name for the column of a cell.
#[derive(Clone, Copy, Debug)]
pub struct Annotation {
    /// A cell in the column.
    pub cell: Cell,
    /// The name of the column.
    pub name: &'static str,
}

/// The names of columns after more of them were annotated, one after the other: a later name for a
/// column takes the place of an earlier one.
pub open spec fn annotated(names: Map<ColumnKey, Seq<char>>, more: Seq<Annotation>) -> Map<
    ColumnKey,
    Seq<char>,
>
    decreases more.len(),
{
    if more.len() == 0 {
        names
    } else {
        annotated(names, more.drop_last()).insert(column_key(more.last().cell), more.last().name@)
    }
}

/// A gate: constraints that must vanish at every row, each with its name.
pub struct Gate {
    /// The name of the custom gate.
    pub name: Seq<char>,
    /// The constraints, each with its name.
    pub constraints: Seq<(Seq<char>, Expr)>,
}

/// A lookup: at every row the values of the inputs must be found together in a row of the
/// table.
pub struct Lookup {
    /// The name of the lookup.
    pub name: Seq<char>,
    /// Each input with the table expression it is looked up in.
    pub pairs: Seq<(Expr, Expr)>,
}

impl Gate {
    /// Every constraint refers to cells in the current row and the next two only.
    pub open spec fn near(self) -> bool {
        forall|k: int|
            0 <= k < self.constraints.len() ==> (#[trigger] self.constraints[k]).1.near()
    }
}

impl Lookup {
    /// Every pair refers to cells in the current row and the next two only.
    pub open spec fn near(self) -> bool {
        forall|k: int|
            0 <= k < self.pairs.len() ==> (#[trigger] self.pairs[k]).0.near()
                && self.pairs[k].1.near()
    }
}

/// The phases of the advice columns that a constraint system holds, in the order of their
/// allocation.
pub uninterp spec fn advice_phases(meta: ConstraintSystem<'_>) -> Seq<Phase>;

/// The number of selectors that a constraint system has handed out.
pub uninterp spec fn num_selectors(meta: ConstraintSystem<'_>) -> nat;

/// The gates that a constraint system holds, in the order of their creation.
pub uninterp spec fn gates(meta: ConstraintSystem<'_>) -> Seq<Gate>;

/// The lookups that a constraint system holds, in the order of their creation.
pub uninterp spec fn lookups(meta: ConstraintSystem<'_>) -> Seq<Lookup>;

/// The names that columns of a constraint system are annotated with.
pub uninterp spec fn annotations(meta: ConstraintSystem<'_>) -> Map<ColumnKey, Seq<char>>;

/// The column that a cell is in.
pub uninterp spec fn column_key(cell: Cell) -> ColumnKey;

/// The place of a selector among the selectors of its constraint system.
pub uninterp spec fn selector_index(selector: Selector) -> nat;

/// Whether a selector is simple, so that it must not occur in lookups.
pub uninterp spec fn is_simple(selector: Selector) -> bool;

/// The polynomial that an expression tree holds.
pub uninterp spec fn polynomial(e: Expression<Fr>) -> Expr;

/// Calls `ConstraintSystem::complex_selector`, which hands out the next selector, one that is not
/// simple. The claim: it counts one selector more and leaves the columns, gates and lookups as
/// they are.
#[verifier::external_body]
pub(crate) fn complex_selector(meta: &mut ConstraintSystem<'_>) -> (r: Selector)
    ensures
        selector_index(r) == num_selectors(*old(meta)),
        !is_simple(r),
        num_selectors(*final(meta)) == num_selectors(*old(meta)) + 1,
        annotations(*final(meta)) == annotations(*old(meta)),
        advice_phases(*final(meta)) == advice_phases(*old(meta)),
        gates(*final(meta)) == gates(*old(meta)),
        lookups(*final(meta)) == lookups(*old(meta)),
{
    meta.inner.complex_selector()
}

/// Calls `ConstraintSystem::advice_column`, which allocates an advice column of the first phase,
/// and gives the index of the column. The claim: the index is the number of advice columns so
/// far, and nothing but the list of advice columns changes.
#[verifier::external_body]
fn first_phase_column(meta: &mut ConstraintSystem<'_>) -> (r: usize)
    ensures
        r == advice_phases(*old(meta)).len(),
        advice_phases(*final(meta)) == advice_phases(*old(meta)).push(Phase::First),
        num_selectors(*final(meta)) == num_selectors(*old(meta)),
        annotations(*final(meta)) == annotations(*old(meta)),
        gates(*final(meta)) == gates(*old(meta)),
        lookups(*final(meta)) == lookups(*old(meta)),
{
    meta.inner.advice_column().index()
}

/// Calls `ConstraintSystem::advice_column_in` with `SecondPhase`, which allocates an advice
/// column of the second phase, and gives the index of the column. The call panics unless a
/// column of the first phase exists. The claim: the index is the number of advice columns so
/// far, and nothing but the list of advice columns changes.
#[verifier::external_body]
fn second_phase_column(meta: &mut ConstraintSystem<'_>) -> (r: usize)
    requires
        advice_phases(*old(meta)).contains(Phase::First),
    ensures
        r == advice_phases(*old(meta)).len(),
        advice_phases(*final(meta)) == advice_phases(*old(meta)).push(Phase::Second),
        num_selectors(*final(meta)) == num_selectors(*old(meta)),
        annotations(*final(meta)) == annotations(*old(meta)),
        gates(*final(meta)) == gates(*old(meta)),
        lookups(*final(meta)) == lookups(*old(meta)),
{
    meta.inner.advice_column_in(SecondPhase).index()
}

/// Calls `ConstraintSystem::create_gate`, which appends a gate with the given constraints. The
/// call panics where there is no constraint, or where a constraint queries an advice column that
/// was not allocated. The claim: the custom gate is appended, and nothing else changes.
#[verifier::external_body]
fn append_gate(
    meta: &mut ConstraintSystem<'_>,
    name: &'static str,
    constraints: Vec<(&'static str, Expression<Fr>)>,
)
    requires
        constraints@.len() > 0,
        forall|k: int|
            0 <= k < constraints@.len() ==> polynomial((#[trigger] constraints@[k]).1).fits(
                advice_phases(*old(meta)).len(),
            ),
    ensures
        gates(*final(meta)) == gates(*old(meta)).push(
            Gate {
                name: name@,
                constraints: constraints@.map_values(
                    |c: (&'static str, Expression<Fr>)| (c.0@, polynomial(c.1)),
                ),
            },
        ),
        advice_phases(*final(meta)) == advice_phases(*old(meta)),
        num_selectors(*final(meta)) == num_selectors(*old(meta)),
        annotations(*final(meta)) == annotations(*old(meta)),
        lookups(*final(meta)) == lookups(*old(meta)),
{
    meta.inner.create_gate(name, |_| constraints)
}

/// Calls `ConstraintSystem::lookup_any`, which appends a lookup of the given inputs in the given
/// table expressions. The call panics where an expression queries an advice column that was not
/// allocated. The claim: the lookup is appended, and nothing else changes.
#[verifier::external_body]
fn append_lookup(
    meta: &mut ConstraintSystem<'_>,
    name: &'static str,
    pairs: Vec<(Expression<Fr>, Expression<Fr>)>,
)
    requires
        forall|k: int|
            0 <= k < pairs@.len() ==> polynomial((#[trigger] pairs@[k]).0).fits(
                advice_phases(*old(meta)).len(),
            ) && polynomial(pairs@[k].1).fits(advice_phases(*old(meta)).len()),
    ensures
        lookups(*final(meta)) == lookups(*old(meta)).push(
            Lookup {
                name: name@,
                pairs: pairs@.map_values(
                    |c: (Expression<Fr>, Expression<Fr>)| (polynomial(c.0), polynomial(c.1)),
                ),
            },
        ),
        advice_phases(*final(meta)) == advice_phases(*old(meta)),
        num_selectors(*final(meta)) == num_selectors(*old(meta)),
        annotations(*final(meta)) == annotations(*old(meta)),
        gates(*final(meta)) == gates(*old(meta)),
{
    meta.inner.lookup_any(name, |_| pairs);
}

/// Calls `ConstraintSystem::annotate_lookup_any_column` with the column of a cell, which keeps a
/// name for the column in place of any earlier one. The claim: the name is kept for that column,
/// and nothing else changes.
#[verifier::external_body]
fn annotate_column(meta: &mut ConstraintSystem<'_>, cell: Cell, name: &'static str)
    ensures
        annotations(*final(meta)) == annotations(*old(meta)).insert(column_key(cell), name@),
        advice_phases(*final(meta)) == advice_phases(*old(meta)),
        num_selectors(*final(meta)) == num_selectors(*old(meta)),
        gates(*final(meta)) == gates(*old(meta)),
        lookups(*final(meta)) == lookups(*old(meta)),
{
    meta.inner.annotate_lookup_any_column(cell.column, || name)
}

/// Makes an `Expression::Constant` of the number's residue, taken by `Fr::from`.
#[verifier::external_body]
fn constant(c: u64) -> (r: Expression<Fr>)
    ensures
        polynomial(r) == Expr::Constant(c),
{
    Expression::Constant(Fr::from(c))
}

/// Calls `Selector::expr`, which queries the selector at the current row.
#[verifier::external_body]
fn selector(s: Selector) -> (r: Expression<Fr>)
    ensures
        polynomial(r) == Expr::Selector(s),
{
    s.expr()
}

/// Calls `Challenge::expr`, which queries the challenge.
#[verifier::external_body]
fn challenge(c: Challenge) -> (r: Expression<Fr>)
    ensures
        polynomial(r) == Expr::Challenge(c),
{
    c.expr()
}

/// Calls `ColumnType::query_cell` of `Fixed`, which queries the cell of a fixed column at a
/// distance.
#[verifier::external_body]
fn fixed_cell(index: usize, at: i32) -> (r: Expression<Fr>)
    ensures
        polynomial(r) == Expr::Fixed(FixedColumn { index }, at),
{
    Fixed.query_cell(index, Rotation(at))
}

/// Calls `ColumnType::query_cell` of `Advice` in the first phase, which queries the cell of an
/// advice column at a distance.
#[verifier::external_body]
fn first_phase_cell(index: usize, at: i32) -> (r: Expression<Fr>)
    ensures
        polynomial(r) == Expr::Advice(AdviceColumn { index, phase: Phase::First }, at),
{
    Advice::new(FirstPhase).query_cell(index, Rotation(at))
}

/// Calls `ColumnType::query_cell` of `Advice` in the second phase, which queries the cell of an
/// advice column at a distance.
#[verifier::external_body]
fn second_phase_cell(index: usize, at: i32) -> (r: Expression<Fr>)
    ensures
        polynomial(r) == Expr::Advice(AdviceColumn { index, phase: Phase::Second }, at),
{
    Advice::new(SecondPhase).query_cell(index, Rotation(at))
}

/// Makes an `Expression::Negated`.
#[verifier::external_body]
fn negated(a: Expression<Fr>) -> (r: Expression<Fr>)
    ensures
        polynomial(r) == Expr::Negated(Box::new(polynomial(a))),
{
    Expression::Negated(Box::new(a))
}

/// Makes an `Expression::Sum`.
#[verifier::external_body]
fn sum(a: Expression<Fr>, b: Expression<Fr>) -> (r: Expression<Fr>)
    ensures
        polynomial(r) == Expr::Sum(Box::new(polynomial(a)), Box::new(polynomial(b))),
{
    Expression::Sum(Box::new(a), Box::new(b))
}

/// Makes an `Expression::Product`.
#[verifier::external_body]
fn product(a: Expression<Fr>, b: Expression<Fr>) -> (r: Expression<Fr>)
    ensures
        polynomial(r) == Expr::Product(Box::new(polynomial(a)), Box::new(polynomial(b))),
{
    Expression::Product(Box::new(a), Box::new(b))
}

/// The expression tree that holds a polynomial.
pub fn expression_of(e: &Expr) -> (r: Expression<Fr>)
    ensures
        polynomial(r) == *e,
    decreases e,
{
    match e {
        Expr::Constant(c) => constant(*c),
        Expr::Selector(s) => selector(*s),
        Expr::Fixed(c, at) => fixed_cell(c.index, *at),
        Expr::Advice(c, at) => match c.phase {
            Phase::First => first_phase_cell(c.index, *at),
            Phase::Second => second_phase_cell(c.index, *at),
        },
        Expr::Challenge(c) => challenge(*c),
        Expr::Negated(a) => negated(expression_of(a)),
        Expr::Sum(a, b) => sum(expression_of(a), expression_of(b)),
        Expr::Product(a, b) => product(expression_of(a), expression_of(b)),
    }
}

/// Allocates an advice column of the first phase.
pub(crate) fn advice_column(meta: &mut ConstraintSystem<'_>) -> (r: AdviceColumn)
    ensures
        r.index == advice_phases(*old(meta)).len(),
        r.phase == Phase::First,
        advice_phases(*final(meta)) == advice_phases(*old(meta)).push(Phase::First),
        num_selectors(*final(meta)) == num_selectors(*old(meta)),
        annotations(*final(meta)) == annotations(*old(meta)),
        gates(*final(meta)) == gates(*old(meta)),
        lookups(*final(meta)) == lookups(*old(meta)),
{
    AdviceColumn { index: first_phase_column(meta), phase: Phase::First }
}

/// Allocates an advice column of the second phase.
pub(crate) fn advice_column_in_second_phase(meta: &mut ConstraintSystem<'_>) -> (r: AdviceColumn)
    requires
        advice_phases(*old(meta)).contains(Phase::First),
    ensures
        r.index == advice_phases(*old(meta)).len(),
        r.phase == Phase::Second,
        advice_phases(*final(meta)) == advice_phases(*old(meta)).push(Phase::Second),
        num_selectors(*final(meta)) == num_selectors(*old(meta)),
        annotations(*final(meta)) == annotations(*old(meta)),
        gates(*final(meta)) == gates(*old(meta)),
        lookups(*final(meta)) == lookups(*old(meta)),
{
    AdviceColumn { index: second_phase_column(meta), phase: Phase::Second }
}

/// The constraints of a gate with the names as character sequences.
pub open spec fn named(constraints: Seq<(&'static str, Expr)>) -> Seq<(Seq<char>, Expr)> {
    constraints.map_values(|c: (&'static str, Expr)| (c.0@, c.1))
}

/// Creates a gate.
pub(crate) fn create_gate(
    meta: &mut ConstraintSystem<'_>,
    name: &'static str,
    constraints: &Vec<(&'static str, Expr)>,
)
    requires
        constraints@.len() > 0,
        forall|k: int|
            0 <= k < constraints@.len() ==> (#[trigger] constraints@[k]).1.fits(
                advice_phases(*old(meta)).len(),
            ),
    ensures
        gates(*final(meta)) == gates(*old(meta)).push(
            Gate { name: name@, constraints: named(constraints@) },
        ),
        advice_phases(*final(meta)) == advice_phases(*old(meta)),
        num_selectors(*final(meta)) == num_selectors(*old(meta)),
        annotations(*final(meta)) == annotations(*old(meta)),
        lookups(*final(meta)) == lookups(*old(meta)),
{
    let mut polys: Vec<(&'static str, Expression<Fr>)> = Vec::new();
    let mut k: usize = 0;
    while k < constraints.len()
        invariant
            k <= constraints@.len(),
            polys@.len() == k,
            forall|j: int|
                0 <= j < k ==> (#[trigger] polys@[j]).0 == constraints@[j].0 && polynomial(
                    polys@[j].1,
                ) == constraints@[j].1,
        decreases constraints@.len() - k,
    {
        polys.push((constraints[k].0, expression_of(&constraints[k].1)));
        k += 1;
    }
    assert(polys@.map_values(|c: (&'static str, Expression<Fr>)| (c.0@, polynomial(c.1)))
        =~= named(constraints@));
    append_gate(meta, name, polys);
}

/// Annotates columns.
pub(crate) fn annotate_columns(meta: &mut ConstraintSystem<'_>, names: &Vec<Annotation>)
    ensures
        annotations(*final(meta)) == annotated(annotations(*old(meta)), names@),
        advice_phases(*final(meta)) == advice_phases(*old(meta)),
        num_selectors(*final(meta)) == num_selectors(*old(meta)),
        gates(*final(meta)) == gates(*old(meta)),
        lookups(*final(meta)) == lookups(*old(meta)),
{
    let mut k: usize = 0;
    assert(names@.take(0) =~= Seq::empty());
    while k < names.len()
        invariant
            k <= names@.len(),
            annotations(*meta) == annotated(annotations(*old(meta)), names@.take(k as int)),
            advice_phases(*meta) == advice_phases(*old(meta)),
            num_selectors(*meta) == num_selectors(*old(meta)),
            gates(*meta) == gates(*old(meta)),
            lookups(*meta) == lookups(*old(meta)),
        decreases names@.len() - k,
    {
        annotate_column(meta, names[k].cell, names[k].name);
        assert(names@.take(k + 1).drop_last() =~= names@.take(k as int));
        k += 1;
    }
    assert(names@.take(k as int) =~= names@);
}

/// Creates a lookup.
pub(crate) fn lookup_any(
    meta: &mut ConstraintSystem<'_>,
    name: &'static str,
    pairs: &Vec<(Expr, Expr)>,
)
    requires
        forall|k: int|
            0 <= k < pairs@.len() ==> (#[trigger] pairs@[k]).0.fits(
                advice_phases(*old(meta)).len(),
            ) && pairs@[k].1.fits(advice_phases(*old(meta)).len()),
    ensures
        lookups(*final(meta)) == lookups(*old(meta)).push(Lookup { name: name@, pairs: pairs@ }),
        advice_phases(*final(meta)) == advice_phases(*old(meta)),
        num_selectors(*final(meta)) == num_selectors(*old(meta)),
        annotations(*final(meta)) == annotations(*old(meta)),
        gates(*final(meta)) == gates(*old(meta)),
{
    let mut trees: Vec<(Expression<Fr>, Expression<Fr>)> = Vec::new();
    let mut k: usize = 0;
    while k < pairs.len()
        invariant
            k <= pairs@.len(),
            trees@.len() == k,
            forall|j: int|
                0 <= j < k ==> polynomial((#[trigger] trees@[j]).0) == pairs@[j].0 && polynomial(
                    trees@[j].1,
                ) == pairs@[j].1,
        decreases pairs@.len() - k,
    {
        trees.push((expression_of(&pairs[k].0), expression_of(&pairs[k].1)));
        k += 1;
    }
    assert(trees@.map_values(
        |c: (Expression<Fr>, Expression<Fr>)| (polynomial(c.0), polynomial(c.1)),
    ) =~= pairs@);
    append_lookup(meta, name, trees);
}

} // verus!
