//! Field elements, expressions, constraints and comparisons on given values.
use copy_circuit::assign::unwrap_value;
use copy_circuit::binary_number::BinaryNumberConfig;
use copy_circuit::constraint_builder::BaseConstraintBuilder;
use copy_circuit::constraint_system::expression_of;
use copy_circuit::copy_event::{CopyDataType, PrecompileCalls};
use copy_circuit::expression::{not, or, select, AdviceColumn, Expr, FixedColumn, Phase};
use copy_circuit::field::Scalar;
use copy_circuit::less_than::LtConfig;
use copy_circuit::region::{Assignment, Label, Region};
use halo2_axiom::halo2curves::bn256::Fr;
use halo2_axiom::plonk::Expression;

const MODULUS: [u64; 4] =
    [0x43e1f593f0000001, 0x2833e84879b97091, 0xb85045b68181585d, 0x30644e72e131a029];

fn largest() -> Scalar {
    let mut limbs = MODULUS;
    limbs[0] -= 1;
    Scalar::from_limbs(limbs).unwrap()
}

fn column(index: usize) -> AdviceColumn {
    AdviceColumn { index, phase: Phase::First }
}

/// Evaluates an expression with the cell of the advice column `c` at a distance `at` holding
/// `10 * c + at`, fixed cells holding five and selectors holding one.
fn eval(e: &Expr) -> Fr {
    let tree: Expression<Fr> = expression_of(e);
    tree.evaluate(
        &|c| c,
        &|_| Fr::from(1),
        &|_| Fr::from(5),
        &|q| Fr::from((10 * q.column_index() as i64 + q.rotation().0 as i64) as u64),
        &|_| unreachable!(),
        &|_| unreachable!(),
        &|a| -a,
        &|a, b| a + b,
        &|a, b| a * b,
        &|a, f| a * f,
    )
}

#[test]
fn sums_wrap_at_the_modulus() {
    assert_eq!(Scalar::from_u64(3).plus(Scalar::from_u64(4)), Scalar::from_u64(7));
    assert_eq!(largest().plus(Scalar::one()), Scalar::zero());
    assert_eq!(largest().plus(Scalar::from_u64(9)), Scalar::from_u64(8));
    let carry = Scalar::from_u64(u64::MAX).plus(Scalar::one());
    assert_eq!(carry.to_limbs(), [0, 1, 0, 0]);
    let mut doubled = MODULUS;
    doubled[0] -= 2;
    assert_eq!(largest().plus(largest()).to_limbs(), doubled);
}

#[test]
fn differences_wrap_at_the_modulus() {
    assert_eq!(Scalar::from_u64(9).minus(Scalar::from_u64(4)), Scalar::from_u64(5));
    assert_eq!(Scalar::zero().minus(Scalar::one()), largest());
    assert_eq!(largest().minus(largest()), Scalar::zero());
    let mut expected = MODULUS;
    expected[0] -= 3;
    assert_eq!(Scalar::from_u64(2).minus(Scalar::from_u64(5)).to_limbs(), expected);
}

#[test]
fn only_numbers_below_the_modulus_are_elements() {
    assert!(Scalar::from_limbs(MODULUS).is_none());
    assert!(Scalar::from_limbs([u64::MAX; 4]).is_none());
    assert!(Scalar::from_limbs([0, 0, 0, 0x30644e72e131a02a]).is_none());
    assert_eq!(Scalar::from_limbs([7, 0, 0, 0]), Some(Scalar::from_u64(7)));
    assert_eq!(Scalar::from_limbs([1, 2, 3, 4]).unwrap().to_limbs(), [1, 2, 3, 4]);
}

#[test]
fn elements_are_compared_as_numbers() {
    assert!(Scalar::zero().is_below(&Scalar::one()));
    assert!(!Scalar::one().is_below(&Scalar::one()));
    assert!(Scalar::from_u64(u64::MAX).is_below(&largest()));
    let a = Scalar::from_limbs([0, 1, 0, 0]).unwrap();
    let b = Scalar::from_limbs([u64::MAX, 0, 0, 0]).unwrap();
    assert!(b.is_below(&a) && !a.is_below(&b));
    assert_eq!(unwrap_value(Some(a)), a);
}

#[test]
fn expressions_evaluate() {
    assert_eq!(eval(&Expr::constant(31)), Fr::from(31));
    assert_eq!(eval(&Expr::advice(column(4), 2)), Fr::from(42));
    assert_eq!(eval(&Expr::fixed(FixedColumn { index: 3 })), Fr::from(5));
    let a = || Expr::advice(column(4), 0);
    let b = || Expr::advice(column(1), 1);
    assert_eq!(eval(&a().plus(b())), Fr::from(51));
    assert_eq!(eval(&a().minus(b())), Fr::from(29));
    assert_eq!(eval(&b().minus(a())), -Fr::from(29));
    assert_eq!(eval(&a().times(b())), Fr::from(440));
    assert_eq!(eval(&a().negated()), -Fr::from(40));
    assert_eq!(eval(&a().times(b()).duplicate()), Fr::from(440));
}

#[test]
fn second_phase_cells_are_queried_in_their_phase() {
    let e = Expr::advice(AdviceColumn { index: 6, phase: Phase::Second }, 1);
    match expression_of(&e) {
        Expression::Advice(q) => {
            assert_eq!((q.column_index(), q.rotation().0, q.phase()), (6, 1, 1));
        }
        _ => panic!(),
    }
    match expression_of(&Expr::advice(column(6), 2)) {
        Expression::Advice(q) => {
            assert_eq!((q.column_index(), q.rotation().0, q.phase()), (6, 2, 0));
        }
        _ => panic!(),
    }
    match expression_of(&Expr::Fixed(FixedColumn { index: 8 }, -1)) {
        Expression::Fixed(q) => assert_eq!((q.column_index(), q.rotation().0), (8, -1)),
        _ => panic!(),
    }
}

#[test]
fn boolean_expressions_evaluate() {
    for a in [0, 1] {
        assert_eq!(eval(&not(Expr::constant(a))), Fr::from(1 - a));
        for b in [0, 1] {
            assert_eq!(eval(&or(Expr::constant(a), Expr::constant(b))), Fr::from(a | b));
        }
        let chosen = select(Expr::constant(a), Expr::constant(7), Expr::constant(9));
        assert_eq!(eval(&chosen), Fr::from(if a == 1 { 7 } else { 9 }));
    }
    assert_eq!(eval(&not(Expr::constant(3))), -Fr::from(2));
}

#[test]
fn constraints_are_conditioned() {
    let mut cb = BaseConstraintBuilder::new();
    cb.require_zero("zero", Expr::constant(3));
    cb.begin_condition(Expr::constant(10));
    cb.require_equal("equal", Expr::constant(9), Expr::constant(4));
    cb.end_condition();
    cb.require_boolean("boolean", Expr::constant(3));
    let constraints = cb.gate(Expr::constant(100));
    let names: Vec<&str> = constraints.iter().map(|c| c.0).collect();
    assert_eq!(names, vec!["zero", "equal", "boolean"]);
    assert_eq!(eval(&constraints[0].1), Fr::from(300));
    assert_eq!(eval(&constraints[1].1), Fr::from(5000));
    assert_eq!(eval(&constraints[2].1), -Fr::from(600));
}

fn tag() -> BinaryNumberConfig {
    BinaryNumberConfig { bit_8: column(0), bit_4: column(0), bit_2: column(0), bit_1: column(0) }
}

#[test]
fn numbers_are_read_from_bits() {
    let config = BinaryNumberConfig {
        bit_8: column(1),
        bit_4: column(2),
        bit_2: column(3),
        bit_1: column(4),
    };
    assert_eq!(eval(&config.value(0)), Fr::from(80 + 80 + 60 + 40));
    assert_eq!(eval(&config.value(2)), Fr::from(96 + 88 + 64 + 42));
}

#[test]
fn indicators_tell_data_types_apart() {
    // All bits are zero at the current row, and one at the next.
    assert_eq!(eval(&tag().value_equals(CopyDataType::Padding, 0)), Fr::from(1));
    assert_eq!(eval(&tag().value_equals(CopyDataType::Padding, 1)), Fr::from(0));
    for data_type in [
        CopyDataType::Bytecode,
        CopyDataType::Memory,
        CopyDataType::TxLog,
        CopyDataType::Precompile(PrecompileCalls::Blake2F),
    ] {
        assert_eq!(eval(&tag().value_equals(data_type, 0)), Fr::from(0));
        assert_eq!(eval(&tag().value_equals(data_type, 1)), Fr::from(0));
    }
}

fn compared(n: usize, lhs: Scalar, rhs: Scalar) -> Vec<u64> {
    let config = LtConfig { lt: column(0), diff: (1..n + 1).map(column).collect() };
    let mut region = Region::new();
    config.assign(&mut region, 9, lhs, rhs);
    region
        .assignments
        .iter()
        .enumerate()
        .map(|(k, a)| match a {
            Assignment::Advice(c, 9, Some(v), _) => {
                assert_eq!(c.index, k);
                v.to_limbs()[0]
            }
            _ => panic!(),
        })
        .collect()
}

#[test]
fn comparisons_are_written() {
    let n = Scalar::from_u64;
    assert_eq!(compared(1, n(5), n(31)), vec![1, 230]);
    assert_eq!(compared(1, n(31), n(31)), vec![0, 0]);
    assert_eq!(compared(1, n(200), n(31)), vec![0, 169]);
    assert_eq!(compared(2, n(0), n(1)), vec![1, 255, 255]);
    assert_eq!(compared(8, n(0), n(u64::MAX)), vec![1, 1, 0, 0, 0, 0, 0, 0, 0]);
    assert_eq!(compared(8, n(u64::MAX), n(1)), vec![0, 254, 255, 255, 255, 255, 255, 255, 255]);
    assert_eq!(compared(8, n(0x0102030405060708), n(0)), vec![0, 8, 7, 6, 5, 4, 3, 2, 1]);
    assert_eq!(compared(0, n(1), n(2)), vec![1]);
    // A number of more bytes than the comparison keeps its low bytes only.
    assert_eq!(compared(1, n(0x1234), n(0x34)), vec![0, 0]);
    assert_eq!(eval(&LtConfig { lt: column(3), diff: Vec::new() }.is_lt()), Fr::from(30));
}

#[test]
fn a_region_keeps_the_order() {
    let mut region = Region::new();
    assert!(region.assignments.is_empty());
    region.name_column(column(1), "a");
    region.assign_number(Label::Text("b"), column(2), 3, 4);
    region.assign_advice(Label::AtRow("c"), column(5), 6, None);
    region.assign_fixed(Label::PaddingRow, FixedColumn { index: 7 }, 8, Scalar::from_u64(9));
    assert_eq!(region.assignments.len(), 4);
    assert!(matches!(region.assignments[0], Assignment::Name(c, "a") if c.index == 1));
    assert!(matches!(region.assignments[1],
        Assignment::Advice(c, 3, Some(v), Label::Text("b"))
            if c.index == 2 && v == Scalar::from_u64(4)));
    assert!(matches!(region.assignments[2],
        Assignment::Advice(c, 6, None, Label::AtRow("c")) if c.index == 5));
    assert!(matches!(region.assignments[3],
        Assignment::Fixed(c, 8, v, Label::PaddingRow) if c.index == 7 && v == Scalar::from_u64(9)));
}
