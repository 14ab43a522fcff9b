use range_check::field::Fe;
use range_check::prover::{CellReport, FailureKind, MockProver, RunError, VerifyFailure};
use range_check::range_check::{CircuitError, MyCircuit, MyConfig};
use range_check::system::ConstraintSystem;
use range_check::table::{AssignError, AssignmentTable, Value};

fn violation(row: usize, text: &str) -> VerifyFailure {
    VerifyFailure {
        kind: FailureKind::ConstraintNotSatisfied,
        constraint_name: "range check".to_string(),
        gate_name: "range check".to_string(),
        region_name: "Assign value".to_string(),
        row,
        cells: vec![CellReport { column: 0, row, value: text.to_string() }],
    }
}

#[test]
fn test_range_check_1() {
    let k = 4;
    const RANGE: usize = 8;
    let testvalue: u64 = 22;

    for i in 0..RANGE {
        let circuit = MyCircuit::<RANGE> { assigned_value: Value::known(Fe::from_u64(i as u64)) };
        let prover = circuit.prover(k).unwrap();
        prover.assert_satisfied();
        assert_eq!(prover.verify(), Ok(()));
    }

    {
        let circuit = MyCircuit::<RANGE> { assigned_value: Value::known(Fe::from_u64(testvalue)) };
        let prover = circuit.prover(k).unwrap();
        assert_eq!(prover.verify(), Err(vec![violation(0, "0x16")]));
    }
}

#[test]
fn table_has_two_to_the_k_rows() {
    let prover = MyCircuit::<8>::new(Value::known(Fe::from_u64(5))).prover(4).unwrap();
    assert_eq!(prover.table.num_rows, 16);
    assert_eq!(prover.table.advice.len(), 1);
    assert_eq!(prover.table.advice[0].len(), 16);
    assert_eq!(prover.table.selectors[0].len(), 16);
    assert_eq!(prover.k, 4);
}

#[test]
fn witness_one_past_the_range_fails_once() {
    let prover = MyCircuit::<8>::new(Value::known(Fe::from_u64(8))).prover(4).unwrap();
    assert_eq!(prover.verify(), Err(vec![violation(0, "0x8")]));
    let prover = MyCircuit::<3>::new(Value::known(Fe::from_u64(3))).prover(2).unwrap();
    assert_eq!(prover.verify(), Err(vec![violation(0, "0x3")]));
}

#[test]
fn range_of_one_admits_zero_only() {
    let prover = MyCircuit::<1>::new(Value::known(Fe::from_u64(0))).prover(3).unwrap();
    assert_eq!(prover.verify(), Ok(()));
    let prover = MyCircuit::<1>::new(Value::known(Fe::from_u64(1))).prover(3).unwrap();
    assert_eq!(prover.verify(), Err(vec![violation(0, "0x1")]));
    let prover = MyCircuit::<1>::new(Value::known(Fe::from_u64(7))).prover(3).unwrap();
    assert_eq!(prover.verify(), Err(vec![violation(0, "0x7")]));
}

#[test]
fn range_of_zero_is_rejected() {
    let circuit = MyCircuit::<0>::new(Value::known(Fe::from_u64(0)));
    assert_eq!(circuit.prover(4).err(), Some(CircuitError::EmptyRange));
    let mut cs = ConstraintSystem::new();
    assert_eq!(MyCircuit::<0>::configure(&mut cs), Err(CircuitError::EmptyRange));
    assert_eq!(cs.num_advice, 0);
    assert_eq!(cs.num_selectors, 0);
    assert!(cs.gates.is_empty());
}

#[test]
fn too_many_rows_are_rejected() {
    let circuit = MyCircuit::<8>::new(Value::known(Fe::from_u64(1)));
    assert_eq!(circuit.prover(200).err(), Some(CircuitError::TooManyRows));
}

#[test]
fn unknown_witness_is_reported_as_unassigned() {
    let circuit = MyCircuit::<8>::new(Value::known(Fe::from_u64(5))).without_witnesses();
    assert_eq!(circuit.assigned_value, Value::Unknown);
    let prover = circuit.prover(4).unwrap();
    assert_eq!(
        prover.verify(),
        Err(vec![VerifyFailure {
            kind: FailureKind::CellNotAssigned,
            constraint_name: "range check".to_string(),
            gate_name: "range check".to_string(),
            region_name: "Assign value".to_string(),
            row: 0,
            cells: vec![],
        }])
    );
}

#[test]
fn disabled_selector_silences_the_gate() {
    let mut cs = ConstraintSystem::new();
    let config = MyCircuit::<8>::configure(&mut cs).unwrap();
    assert_eq!(config, MyConfig { advice_column: 0, q_range_check: 0 });
    let mut table = AssignmentTable::new(16, 1, 1);
    let region = table.open_region("loose".to_string());
    assert_eq!(
        region.assign_advice(&mut table, config.advice_column, 0, Value::known(Fe::from_u64(22))),
        Ok(())
    );
    assert_eq!(
        region.assign_advice(&mut table, config.advice_column, 3, Value::known(Fe::from_u64(1000))),
        Ok(())
    );
    let prover = MockProver::run(4, cs, table).unwrap();
    assert_eq!(prover.verify(), Ok(()));
}

#[test]
fn failures_come_row_by_row() {
    let mut cs = ConstraintSystem::new();
    let config = MyCircuit::<4>::configure(&mut cs).unwrap();
    let mut table = AssignmentTable::new(8, 1, 1);
    let region = table.open_region("many".to_string());
    for (row, v) in [(5usize, 9u64), (1, 4), (2, 3), (6, 255)] {
        region.enable_selector(&mut table, config.q_range_check, row).unwrap();
        region.assign_advice(&mut table, config.advice_column, row, Value::known(Fe::from_u64(v))).unwrap();
    }
    let prover = MockProver::run(3, cs, table).unwrap();
    let failures = prover.verify().unwrap_err();
    let rows: Vec<usize> = failures.iter().map(|f| f.row).collect();
    assert_eq!(rows, vec![1, 5, 6]);
    let texts: Vec<String> = failures.iter().map(|f| f.cells[0].value.clone()).collect();
    assert_eq!(texts, vec!["0x4".to_string(), "0x9".to_string(), "0xff".to_string()]);
    assert!(failures.iter().all(|f| f.region_name == "many" && f.cells.len() == 1));
}

#[test]
fn verify_twice_gives_the_same_list() {
    let prover = MyCircuit::<8>::new(Value::known(Fe::from_u64(22))).prover(4).unwrap();
    let first = prover.verify();
    let second = prover.verify();
    assert!(first.is_err());
    assert_eq!(first, second);
    let prover = MyCircuit::<8>::new(Value::known(Fe::from_u64(2))).prover(4).unwrap();
    assert_eq!(prover.verify(), prover.verify());
}

#[test]
fn run_holds_the_shape_against_the_system() {
    let mut cs = ConstraintSystem::new();
    MyCircuit::<8>::configure(&mut cs).unwrap();
    let table = AssignmentTable::new(15, 1, 1);
    assert_eq!(MockProver::run(4, cs, table).err(), Some(RunError::ShapeMismatch));

    let mut cs = ConstraintSystem::new();
    MyCircuit::<8>::configure(&mut cs).unwrap();
    let table = AssignmentTable::new(16, 2, 1);
    assert_eq!(MockProver::run(4, cs, table).err(), Some(RunError::ShapeMismatch));

    let cs = ConstraintSystem::new();
    let table = AssignmentTable::new(1, 0, 0);
    assert_eq!(MockProver::run(64, cs, table).err(), Some(RunError::TooManyRows));

    let cs = ConstraintSystem::new();
    let table = AssignmentTable::new(1, 0, 0);
    let prover = MockProver::run(0, cs, table).unwrap();
    assert_eq!(prover.verify(), Ok(()));
}

#[test]
fn synthesize_needs_a_row() {
    let mut cs = ConstraintSystem::new();
    let config = MyCircuit::<8>::configure(&mut cs).unwrap();
    let mut table = AssignmentTable::new(0, 1, 1);
    let circuit = MyCircuit::<8>::new(Value::known(Fe::from_u64(1)));
    assert_eq!(circuit.synthesize(config, &mut table), Err(AssignError::NotEnoughRows));
    assert!(table.regions.is_empty());
}

#[test]
fn regions_write_and_overwrite() {
    let mut table = AssignmentTable::new(4, 2, 1);
    let first = table.open_region("first".to_string());
    let second = table.open_region("second".to_string());
    assert_eq!(first.index, 0);
    assert_eq!(second.index, 1);
    assert_eq!(first.assign_advice(&mut table, 1, 2, Value::known(Fe::from_u64(7))), Ok(()));
    assert_eq!(table.advice[1][2], Value::Known(Fe::from_u64(7)));
    assert_eq!(table.advice_origin[1][2], Some(0));
    assert_eq!(second.assign_advice(&mut table, 1, 2, Value::known(Fe::from_u64(9))), Ok(()));
    assert_eq!(table.advice[1][2], Value::Known(Fe::from_u64(9)));
    assert_eq!(table.advice_origin[1][2], Some(1));
    assert_eq!(table.advice[0][2], Value::Unknown);
    assert_eq!(second.enable_selector(&mut table, 0, 3), Ok(()));
    assert_eq!(table.selectors[0], vec![false, false, false, true]);
    assert_eq!(table.selector_origin[0][3], Some(1));
    assert_eq!(second.enable_selector(&mut table, 0, 4), Err(AssignError::NotEnoughRows));
    assert_eq!(first.assign_advice(&mut table, 0, 4, Value::unknown()), Err(AssignError::NotEnoughRows));
    assert_eq!(table.selectors[0], vec![false, false, false, true]);
}
