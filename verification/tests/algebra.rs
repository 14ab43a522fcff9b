use range_check::expr::{EvalError, Expression};
use range_check::field::Fe;
use range_check::prover::{row_count, CellReport, FailureKind, MockProver, VerifyFailure};
use range_check::range_check::range_polynomial;
use range_check::system::{Constraint, ConstraintSystem};
use range_check::table::{AssignmentTable, Value};

fn constant(x: u64) -> Box<Expression> {
    Box::new(Expression::Constant(Fe::from_u64(x)))
}

fn cell(column: usize, rotation: i32) -> Box<Expression> {
    Box::new(Expression::Advice(column, rotation))
}

fn table_with(values: &[u64]) -> AssignmentTable {
    let mut table = AssignmentTable::new(values.len(), 1, 1);
    let region = table.open_region("values".to_string());
    for (row, v) in values.iter().enumerate() {
        region.assign_advice(&mut table, 0, row, Value::known(Fe::from_u64(*v))).unwrap();
    }
    table
}

#[test]
fn scalars_add_negate_and_multiply() {
    let a = Fe::from_u64(6);
    let b = Fe::from_u64(7);
    assert_eq!(a.add(&b), Fe::from_u64(13));
    assert_eq!(a.mul(&b), Fe::from_u64(42));
    assert_eq!(a.add(&a.neg()), Fe::from_u64(0));
    assert_eq!(b.add(&a.neg()), Fe::from_u64(1));
    assert_ne!(a.neg(), a);
    assert_eq!(Fe::from_u64(0).neg(), Fe::from_u64(0));
    assert!(Fe::from_u64(0).is_zero());
    assert!(!Fe::from_u64(1).is_zero());
    assert!(!Fe::from_u64(1).neg().is_zero());
    let big = Fe::from_u64(u64::MAX);
    assert_eq!(big.mul(&big).to_hex(), "0xfffffffffffffffe0000000000000001");
}

#[test]
fn scalars_in_hexadecimal() {
    assert_eq!(Fe::from_u64(0).to_hex(), "0x0");
    assert_eq!(Fe::from_u64(1).to_hex(), "0x1");
    assert_eq!(Fe::from_u64(22).to_hex(), "0x16");
    assert_eq!(Fe::from_u64(255).to_hex(), "0xff");
    assert_eq!(Fe::from_u64(256).to_hex(), "0x100");
    assert_eq!(Fe::from_u64(0xabcdef).to_hex(), "0xabcdef");
    assert_eq!(Fe::from_u64(u64::MAX).to_hex(), "0xffffffffffffffff");
    assert_eq!(
        Fe::from_u64(1).neg().to_hex(),
        "0x40000000000000000000000000000000224698fc094cf91b992d30ed00000000"
    );
}

#[test]
fn expressions_evaluate() {
    let table = table_with(&[3, 10, 4]);
    let e = Expression::Sum(
        Box::new(Expression::Product(cell(0, 0), cell(0, 1))),
        Box::new(Expression::Neg(constant(5))),
    );
    assert_eq!(e.evaluate(&table, 0), Ok(Fe::from_u64(25)));
    assert_eq!(e.evaluate(&table, 1), Ok(Fe::from_u64(35)));
    assert_eq!(Expression::Advice(0, -1).evaluate(&table, 2), Ok(Fe::from_u64(10)));
    assert_eq!(Expression::Constant(Fe::from_u64(9)).evaluate(&table, 2), Ok(Fe::from_u64(9)));
}

#[test]
fn selectors_evaluate_to_their_bit() {
    let mut table = table_with(&[3, 10]);
    let region = table.open_region("bits".to_string());
    region.enable_selector(&mut table, 0, 1).unwrap();
    assert_eq!(Expression::Selector(0).evaluate(&table, 0), Ok(Fe::from_u64(0)));
    assert_eq!(Expression::Selector(0).evaluate(&table, 1), Ok(Fe::from_u64(1)));
}

#[test]
fn evaluation_errors() {
    let mut table = AssignmentTable::new(4, 1, 0);
    let region = table.open_region("one".to_string());
    region.assign_advice(&mut table, 0, 1, Value::known(Fe::from_u64(2))).unwrap();
    assert_eq!(Expression::Advice(0, 0).evaluate(&table, 0), Err(EvalError::CellUnassigned));
    assert_eq!(Expression::Advice(0, -1).evaluate(&table, 0), Err(EvalError::RowOutOfRange));
    assert_eq!(Expression::Advice(0, 1).evaluate(&table, 3), Err(EvalError::RowOutOfRange));
    assert_eq!(Expression::Advice(0, i32::MIN).evaluate(&table, 3), Err(EvalError::RowOutOfRange));
    assert_eq!(Expression::Advice(0, 1).evaluate(&table, 0), Ok(Fe::from_u64(2)));
    let both = Expression::Sum(cell(0, 0), cell(0, -1));
    assert_eq!(both.evaluate(&table, 0), Err(EvalError::CellUnassigned));
    let both = Expression::Product(cell(0, -1), cell(0, 0));
    assert_eq!(both.evaluate(&table, 0), Err(EvalError::RowOutOfRange));
    assert_eq!(Expression::Neg(cell(0, 0)).evaluate(&table, 2), Err(EvalError::CellUnassigned));
}

#[test]
fn reads_are_listed_once_in_order() {
    let e = Expression::Product(
        Box::new(Expression::Sum(cell(1, 0), cell(0, 1))),
        Box::new(Expression::Sum(cell(1, 0), Box::new(Expression::Neg(cell(0, -1))))),
    );
    let mut seen = Vec::new();
    e.collect_reads(&mut seen);
    assert_eq!(seen, vec![(1, 0), (0, 1), (0, -1)]);
    e.collect_reads(&mut seen);
    assert_eq!(seen, vec![(1, 0), (0, 1), (0, -1)]);
    let mut seen = vec![(0, 1)];
    e.collect_reads(&mut seen);
    assert_eq!(seen, vec![(0, 1), (1, 0), (0, -1)]);
}

#[test]
fn duplicate_is_equal() {
    let e = Expression::Product(
        Box::new(Expression::Sum(cell(1, 0), constant(4))),
        Box::new(Expression::Neg(Box::new(Expression::Selector(2)))),
    );
    assert_eq!(e.duplicate(), e);
}

#[test]
fn polynomial_is_built_from_the_left() {
    assert_eq!(range_polynomial(2, 1), Expression::Advice(2, 0));
    let shift = |i: u64| Box::new(Expression::Sum(constant(i), Box::new(Expression::Neg(cell(2, 0)))));
    let expected = Expression::Product(
        Box::new(Expression::Product(cell(2, 0), shift(1))),
        shift(2),
    );
    assert_eq!(range_polynomial(2, 3), expected);
}

#[test]
fn polynomial_values() {
    let table = table_with(&[0, 1, 2, 3, 4, 5]);
    let poly = range_polynomial(0, 3);
    assert_eq!(poly.evaluate(&table, 0), Ok(Fe::from_u64(0)));
    assert_eq!(poly.evaluate(&table, 1), Ok(Fe::from_u64(0)));
    assert_eq!(poly.evaluate(&table, 2), Ok(Fe::from_u64(0)));
    assert_eq!(poly.evaluate(&table, 3), Ok(Fe::from_u64(6)));
    assert_eq!(poly.evaluate(&table, 4), Ok(Fe::from_u64(24)));
    assert_eq!(poly.evaluate(&table, 5), Ok(Fe::from_u64(60)));
}

#[test]
fn unknown_values_stay_unknown() {
    let a = Value::known(Fe::from_u64(6));
    let b = Value::known(Fe::from_u64(7));
    assert_eq!(a.add(&b), Value::Known(Fe::from_u64(13)));
    assert_eq!(a.mul(&b), Value::Known(Fe::from_u64(42)));
    assert_eq!(a.neg().add(&b), Value::Known(Fe::from_u64(1)));
    assert_eq!(a.add(&Value::unknown()), Value::Unknown);
    assert_eq!(Value::unknown().add(&b), Value::Unknown);
    assert_eq!(a.mul(&Value::unknown()), Value::Unknown);
    assert_eq!(Value::unknown().mul(&b), Value::Unknown);
    assert_eq!(Value::unknown().neg(), Value::Unknown);
}

#[test]
fn bytes_are_little_endian() {
    let mut expected = [0u8; 32];
    expected[0] = 0x02;
    expected[1] = 0x01;
    assert_eq!(Fe::from_u64(258).to_bytes(), expected);
    assert_eq!(Fe::from_u64(0).to_bytes(), [0u8; 32]);
}

#[test]
fn row_counts() {
    assert_eq!(row_count(0), Some(1));
    assert_eq!(row_count(4), Some(16));
    assert_eq!(row_count(10), Some(1024));
    assert_eq!(row_count(usize::BITS - 1), Some(1usize << (usize::BITS - 1)));
    assert_eq!(row_count(usize::BITS), None);
    assert_eq!(row_count(u32::MAX), None);
}

#[test]
fn columns_and_selectors_are_numbered_in_order() {
    let mut cs = ConstraintSystem::new();
    assert_eq!(cs.advice_column(), 0);
    assert_eq!(cs.advice_column(), 1);
    assert_eq!(cs.selector(), 0);
    assert_eq!(cs.advice_column(), 2);
    assert_eq!(cs.selector(), 1);
    assert_eq!(cs.num_advice, 3);
    assert_eq!(cs.num_selectors, 2);
    assert_eq!(cs.query_selector(1), Expression::Selector(1));
    assert_eq!(cs.query_advice(2, -1), Expression::Advice(2, -1));
}

#[test]
fn gates_report_in_registration_order() {
    let mut cs = ConstraintSystem::new();
    let a = cs.advice_column();
    let b = cs.advice_column();
    let q = cs.selector();
    let off = cs.selector();
    cs.create_gate(
        "first".to_string(),
        q,
        vec![
            Constraint { name: "a is zero".to_string(), poly: Expression::Advice(a, 0) },
            Constraint {
                name: "a equals b".to_string(),
                poly: Expression::Sum(cell(a, 0), Box::new(Expression::Neg(cell(b, 0)))),
            },
            Constraint { name: "next a".to_string(), poly: Expression::Advice(a, 1) },
        ],
    );
    cs.create_gate(
        "never".to_string(),
        off,
        vec![Constraint { name: "one is zero".to_string(), poly: Expression::Constant(Fe::from_u64(1)) }],
    );
    cs.create_gate(
        "second".to_string(),
        q,
        vec![Constraint { name: "b is zero".to_string(), poly: Expression::Advice(b, 0) }],
    );
    let mut table = AssignmentTable::new(2, 2, 2);
    let left = table.open_region("left".to_string());
    let right = table.open_region("right".to_string());
    left.enable_selector(&mut table, q, 1).unwrap();
    left.assign_advice(&mut table, a, 1, Value::known(Fe::from_u64(17))).unwrap();
    right.assign_advice(&mut table, b, 1, Value::known(Fe::from_u64(17))).unwrap();
    let prover = MockProver::run(1, cs, table).unwrap();
    let report = |kind, constraint: &str, gate: &str, region: &str, cells: Vec<CellReport>| VerifyFailure {
        kind,
        constraint_name: constraint.to_string(),
        gate_name: gate.to_string(),
        region_name: region.to_string(),
        row: 1,
        cells,
    };
    let seventeen = |column| CellReport { column, row: 1, value: "0x11".to_string() };
    assert_eq!(
        prover.verify(),
        Err(vec![
            report(FailureKind::ConstraintNotSatisfied, "a is zero", "first", "left", vec![seventeen(0)]),
            report(FailureKind::RowOutOfRange, "next a", "first", "left", vec![]),
            report(FailureKind::ConstraintNotSatisfied, "b is zero", "second", "right", vec![seventeen(1)]),
        ])
    );
}
