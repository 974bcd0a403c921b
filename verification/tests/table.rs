use fibonacci_circuit::constraint_system::ConstraintSystem;
use fibonacci_circuit::field::{Fe, Value};
use fibonacci_circuit::gate::{
    add_constraint, Cell, Column, ColumnKind, Error, Expression, Query, Rotation, Selector,
};
use fibonacci_circuit::table::Table;

fn fe(v: u64) -> Fe {
    Fe::from_u64(v)
}

fn known(v: u64) -> Value {
    Value::Known(fe(v))
}

fn advice(index: usize) -> Column {
    Column { kind: ColumnKind::Advice, index }
}

fn instance(index: usize) -> Column {
    Column { kind: ColumnKind::Instance, index }
}

fn cell(column: Column, row: usize) -> Cell {
    Cell { column, row }
}

/// One advice column read at three rows, one instance column, one selector.
fn window_system() -> (ConstraintSystem, Column, Column, Selector) {
    let mut cs = ConstraintSystem::new();
    let a = cs.advice_column();
    let i = cs.instance_column();
    let s = cs.selector();
    cs.enable_equality(a);
    cs.enable_equality(i);
    let q = |rotation: i32| Query { column: a, rotation: Rotation(rotation) };
    cs.create_gate("add", s, vec![add_constraint(s, q(0), q(1), q(2))]);
    (cs, a, i, s)
}

#[test]
fn columns_and_selectors_are_numbered_in_order() {
    let mut cs = ConstraintSystem::new();
    assert_eq!(cs.advice_column(), advice(0));
    assert_eq!(cs.advice_column(), advice(1));
    assert_eq!(cs.instance_column(), instance(0));
    assert_eq!(cs.selector(), Selector { index: 0 });
    assert_eq!(cs.selector(), Selector { index: 1 });
    assert_eq!(cs.num_advice_columns(), 2);
    assert_eq!(cs.num_instance_columns(), 1);
    assert_eq!(cs.num_selectors(), 2);
    assert!(cs.has_column(advice(1)));
    assert!(!cs.has_column(advice(2)));
    assert!(!cs.has_column(instance(1)));
}

#[test]
fn equality_is_enabled_once() {
    let mut cs = ConstraintSystem::new();
    let a = cs.advice_column();
    let b = cs.advice_column();
    assert!(!cs.equality_enabled(a));
    cs.enable_equality(a);
    cs.enable_equality(a);
    assert!(cs.equality_enabled(a));
    assert!(!cs.equality_enabled(b));
}

#[test]
fn gate_window_lists_its_reads() {
    let (cs, a, _, s) = window_system();
    assert_eq!(cs.gates().len(), 1);
    let gate = &cs.gates()[0];
    assert_eq!(gate.name, "add");
    assert_eq!(gate.selector, s);
    assert_eq!(
        gate.window(),
        vec![
            Query { column: a, rotation: Rotation(0) },
            Query { column: a, rotation: Rotation(1) },
            Query { column: a, rotation: Rotation(2) },
        ]
    );
}

#[test]
fn rotations() {
    assert_eq!(Rotation::cur(), Rotation(0));
    assert_eq!(Rotation::next(), Rotation(1));
    assert_eq!(Rotation::prev(), Rotation(-1));
}

#[test]
fn new_table_is_empty() {
    let (cs, a, i, s) = window_system();
    let table = Table::new(&cs, 4, vec![vec![fe(7)]]);
    assert_eq!(table.num_rows(), 4);
    assert!(table.slot(cell(a, 0)).is_none());
    assert!(!table.is_enabled(s, 0));
    assert!(table.copies().is_empty());
    assert!(matches!(table.slot(cell(i, 0)), Some(Value::Known(v)) if v == fe(7)));
    assert!(matches!(table.slot(cell(i, 1)), Some(Value::Unknown)));
    assert!(table.slot(cell(i, 4)).is_none());
    assert_eq!(table.verify(), Ok(()));
}

#[test]
fn selector_window_must_fit_the_table() {
    let (cs, _, _, s) = window_system();
    let mut table = Table::new(&cs, 4, vec![]);
    assert_eq!(table.enable_selector(s, 1), Ok(()));
    assert!(table.is_enabled(s, 1));
    assert_eq!(table.enable_selector(s, 2), Err(Error::OutOfBoundsWindow));
    assert_eq!(table.enable_selector(s, 3), Err(Error::OutOfBoundsWindow));
    assert_eq!(table.enable_selector(s, 4), Err(Error::OutOfBoundsWindow));
    assert!(!table.is_enabled(s, 2));
    assert_eq!(table.enable_selector(Selector { index: 1 }, 0), Err(Error::OutOfBoundsWindow));
}

#[test]
fn window_may_not_reach_above_the_table() {
    let mut cs = ConstraintSystem::new();
    let a = cs.advice_column();
    let s = cs.selector();
    let q = |rotation: i32| Query { column: a, rotation: Rotation(rotation) };
    cs.create_gate("back", s, vec![add_constraint(s, q(-1), q(0), q(1))]);
    let mut table = Table::new(&cs, 4, vec![]);
    assert_eq!(table.enable_selector(s, 0), Err(Error::OutOfBoundsWindow));
    assert_eq!(table.enable_selector(s, 1), Ok(()));
    assert_eq!(table.enable_selector(s, 2), Ok(()));
    assert_eq!(table.enable_selector(s, 3), Err(Error::OutOfBoundsWindow));
}

#[test]
fn assignment_outside_the_table_is_refused() {
    let (cs, a, i, _) = window_system();
    let mut table = Table::new(&cs, 4, vec![vec![fe(1)]]);
    assert!(matches!(table.assign_advice(a, 4, known(1)), Err(Error::OutOfBoundsWindow)));
    assert!(matches!(table.assign_advice(advice(1), 0, known(1)), Err(Error::OutOfBoundsWindow)));
    assert!(matches!(table.assign_advice(i, 0, known(1)), Err(Error::OutOfBoundsWindow)));
    assert!(table.slot(cell(a, 3)).is_none());
}

#[test]
fn a_cell_is_written_once() {
    let (cs, a, _, _) = window_system();
    let mut table = Table::new(&cs, 4, vec![]);
    let first = table.assign_advice(a, 0, known(5)).unwrap();
    assert_eq!(first.cell, cell(a, 0));
    assert!(first.value.equals(&known(5)));
    assert!(table.assign_advice(a, 0, known(5)).is_ok());
    assert!(matches!(table.assign_advice(a, 0, known(6)), Err(Error::CellConflict)));
    assert!(matches!(table.assign_advice(a, 0, Value::Unknown), Err(Error::CellConflict)));
    assert!(matches!(table.slot(cell(a, 0)), Some(Value::Known(v)) if v == fe(5)));
}

#[test]
fn unknown_is_held_only_where_no_enabled_gate_reads() {
    let (cs, a, _, s) = window_system();
    let mut table = Table::new(&cs, 8, vec![]);
    assert_eq!(table.enable_selector(s, 0), Ok(()));
    assert!(table.demanded(cell(a, 0)));
    assert!(table.demanded(cell(a, 2)));
    assert!(!table.demanded(cell(a, 3)));
    assert!(matches!(table.assign_advice(a, 0, Value::Unknown), Err(Error::MissingWitness)));
    assert!(matches!(table.assign_advice(a, 2, Value::Unknown), Err(Error::MissingWitness)));
    assert!(table.slot(cell(a, 2)).is_none());
    assert!(table.assign_advice(a, 3, Value::Unknown).is_ok());
    assert!(matches!(table.slot(cell(a, 3)), Some(Value::Unknown)));
    // A cell that holds an unknown value takes no other value later.
    assert!(matches!(table.assign_advice(a, 3, Value::Unknown), Err(Error::CellConflict)));
    assert!(matches!(table.assign_advice(a, 3, known(1)), Err(Error::CellConflict)));
}

#[test]
fn selector_is_refused_over_an_unknown_cell() {
    let (cs, a, _, s) = window_system();
    let mut table = Table::new(&cs, 8, vec![]);
    assert!(table.assign_advice(a, 3, Value::Unknown).is_ok());
    assert_eq!(table.enable_selector(s, 1), Err(Error::MissingWitness));
    assert_eq!(table.enable_selector(s, 2), Err(Error::MissingWitness));
    assert_eq!(table.enable_selector(s, 3), Err(Error::MissingWitness));
    assert_eq!(table.enable_selector(s, 0), Ok(()));
    assert_eq!(table.enable_selector(s, 4), Ok(()));
}

#[test]
fn copy_needs_equality_on_both_columns() {
    let mut cs = ConstraintSystem::new();
    let a = cs.advice_column();
    let b = cs.advice_column();
    cs.enable_equality(a);
    let mut table = Table::new(&cs, 4, vec![]);
    table.assign_advice(a, 0, known(1)).unwrap();
    table.assign_advice(a, 1, known(1)).unwrap();
    table.assign_advice(b, 0, known(1)).unwrap();
    assert_eq!(table.constrain_equal(cell(a, 0), cell(b, 0)), Err(Error::InvalidEquality));
    assert_eq!(table.constrain_equal(cell(b, 0), cell(a, 0)), Err(Error::InvalidEquality));
    assert_eq!(table.constrain_equal(cell(a, 0), cell(a, 1)), Ok(()));
    assert_eq!(table.copies().len(), 1);
}

#[test]
fn copy_needs_cells_of_the_table_with_known_values() {
    let (cs, a, i, _) = window_system();
    let mut table = Table::new(&cs, 4, vec![vec![fe(1)]]);
    table.assign_advice(a, 0, known(1)).unwrap();
    table.assign_advice(a, 1, Value::Unknown).unwrap();
    assert_eq!(table.constrain_equal(cell(a, 0), cell(a, 4)), Err(Error::OutOfBoundsWindow));
    assert_eq!(table.constrain_equal(cell(a, 0), cell(a, 2)), Err(Error::MissingWitness));
    assert_eq!(table.constrain_equal(cell(a, 0), cell(a, 1)), Err(Error::MissingWitness));
    assert_eq!(table.constrain_instance(cell(a, 0), i, 1), Err(Error::MissingWitness));
    assert_eq!(table.constrain_instance(cell(a, 0), i, 4), Err(Error::OutOfBoundsWindow));
    assert!(table.copies().is_empty());
    assert_eq!(table.constrain_instance(cell(a, 0), i, 0), Ok(()));
    assert_eq!(table.copies(), &vec![(cell(a, 0), cell(i, 0))]);
    assert!(table.holds_known(cell(a, 0)));
    assert!(!table.holds_known(cell(a, 1)));
    assert!(!table.holds_known(cell(a, 2)));
}

#[test]
fn exposure_round_trip() {
    let (cs, a, i, _) = window_system();
    let mut agrees = Table::new(&cs, 4, vec![vec![fe(7)]]);
    let assigned = agrees.assign_advice(a, 0, known(7)).unwrap();
    assert_eq!(agrees.constrain_instance(assigned.cell, i, 0), Ok(()));
    assert_eq!(agrees.verify(), Ok(()));

    let mut differs = Table::new(&cs, 4, vec![vec![fe(8)]]);
    let assigned = differs.assign_advice(a, 0, known(7)).unwrap();
    assert_eq!(differs.constrain_instance(assigned.cell, i, 0), Ok(()));
    assert_eq!(differs.verify(), Err(Error::ConstraintViolation));
}

#[test]
fn exposing_twice_is_exposing_once() {
    let (cs, a, i, _) = window_system();
    let mut table = Table::new(&cs, 4, vec![vec![fe(7)]]);
    let assigned = table.assign_advice(a, 0, known(7)).unwrap();
    assert_eq!(table.constrain_instance(assigned.cell, i, 0), Ok(()));
    let once = table.copies().clone();
    assert_eq!(table.constrain_instance(assigned.cell, i, 0), Ok(()));
    assert_eq!(table.copies(), &once);
    assert_eq!(once.len(), 1);
    assert_eq!(table.verify(), Ok(()));
}

#[test]
fn copy_advice_writes_and_binds() {
    let (cs, a, _, _) = window_system();
    let mut table = Table::new(&cs, 4, vec![]);
    let from = table.assign_advice(a, 0, known(9)).unwrap();
    let to = table.copy_advice(&from, a, 2).unwrap();
    assert_eq!(to.cell, cell(a, 2));
    assert!(to.value.equals(&known(9)));
    assert!(matches!(table.slot(cell(a, 2)), Some(Value::Known(v)) if v == fe(9)));
    assert_eq!(table.copies(), &vec![(cell(a, 2), cell(a, 0))]);
    assert_eq!(table.verify(), Ok(()));
}

#[test]
fn assign_from_instance_reads_the_public_input() {
    let (cs, a, i, _) = window_system();
    let mut table = Table::new(&cs, 4, vec![vec![fe(3), fe(4)]]);
    let got = table.assign_advice_from_instance(i, 1, a, 0).unwrap();
    assert_eq!(got.cell, cell(a, 0));
    assert!(got.value.equals(&known(4)));
    assert_eq!(table.copies(), &vec![(cell(a, 0), cell(i, 1))]);
    // Row 2 of the instance column has no declared value.
    assert!(matches!(table.assign_advice_from_instance(i, 2, a, 1), Err(Error::MissingWitness)));
    assert!(matches!(table.slot(cell(a, 1)), Some(Value::Unknown)));
    assert_eq!(table.copies().len(), 1);
}

#[test]
fn oracle_checks_enabled_rows_only() {
    let (cs, a, _, s) = window_system();
    let mut table = Table::new(&cs, 8, vec![]);
    // 2 + 3 = 5 where the selector is enabled; 1 + 1 = 7 where it is not.
    table.assign_advice(a, 0, known(2)).unwrap();
    table.assign_advice(a, 1, known(3)).unwrap();
    table.assign_advice(a, 2, known(5)).unwrap();
    table.assign_advice(a, 4, known(1)).unwrap();
    table.assign_advice(a, 5, known(1)).unwrap();
    table.assign_advice(a, 6, known(7)).unwrap();
    table.enable_selector(s, 0).unwrap();
    assert_eq!(table.verify(), Ok(()));
    table.enable_selector(s, 4).unwrap();
    assert_eq!(table.verify(), Err(Error::ConstraintViolation));
}

#[test]
fn oracle_reports_a_missing_value_first() {
    let (cs, a, _, s) = window_system();
    let mut table = Table::new(&cs, 8, vec![]);
    table.assign_advice(a, 0, known(2)).unwrap();
    table.assign_advice(a, 1, known(3)).unwrap();
    table.assign_advice(a, 2, known(6)).unwrap();
    table.enable_selector(s, 0).unwrap();
    assert_eq!(table.verify(), Err(Error::ConstraintViolation));
    // The window from row 1 reads row 3, which was never written.
    table.enable_selector(s, 1).unwrap();
    assert_eq!(table.verify(), Err(Error::MissingWitness));
}

#[test]
fn evaluation_follows_the_expression() {
    let (cs, a, _, s) = window_system();
    let mut table = Table::new(&cs, 8, vec![]);
    table.assign_advice(a, 0, known(2)).unwrap();
    table.assign_advice(a, 1, known(3)).unwrap();
    table.assign_advice(a, 2, known(4)).unwrap();
    let q = |rotation: i32| Expression::query(a, Rotation(rotation));
    assert_eq!(table.eval(&q(0).add(q(1)), 0), Some(fe(5)));
    assert_eq!(table.eval(&q(0).mul(q(1)), 1), Some(fe(12)));
    assert_eq!(table.eval(&q(1).sub(q(0)), 0), Some(fe(1)));
    assert_eq!(table.eval(&q(0).sub(q(1)), 0), Some(fe(1).neg()));
    assert_eq!(table.eval(&q(0).neg().add(q(0)), 2), Some(fe(0)));
    assert_eq!(table.eval(&Expression::constant(fe(9)), 7), Some(fe(9)));
    assert_eq!(table.eval(&Expression::selector(s), 0), Some(fe(0)));
    assert_eq!(table.eval(&q(1), 2), None);
    assert_eq!(table.eval(&q(-1), 0), None);
    assert_eq!(table.eval(&q(0).add(q(1)), 2), None);
    table.enable_selector(s, 0).unwrap();
    assert_eq!(table.eval(&Expression::selector(s), 0), Some(fe(1)));
    assert_eq!(table.eval(&Expression::selector(s), 1), Some(fe(0)));
    // selector * (a + b - c) with 2 + 3 - 4 = 1.
    let window = |r: i32| Query { column: a, rotation: Rotation(r) };
    assert_eq!(table.eval(&add_constraint(s, window(0), window(1), window(2)), 0), Some(fe(1)));
    assert_eq!(table.eval(&add_constraint(s, window(0), window(1), window(2)), 1), None);
}

#[test]
fn target_cell_resolves_offsets() {
    let (cs, a, _, _) = window_system();
    let table = Table::new(&cs, 4, vec![]);
    let q = |rotation: i32| Query { column: a, rotation: Rotation(rotation) };
    assert_eq!(table.target_cell(1, &q(2)), Some(cell(a, 3)));
    assert_eq!(table.target_cell(1, &q(-1)), Some(cell(a, 0)));
    assert_eq!(table.target_cell(1, &q(3)), None);
    assert_eq!(table.target_cell(0, &q(-1)), None);
    assert_eq!(table.target_cell(0, &q(i32::MIN)), None);
    assert_eq!(table.target_cell(usize::MAX, &q(i32::MAX)), None);
    let other = Query { column: advice(1), rotation: Rotation(0) };
    assert_eq!(table.target_cell(0, &other), None);
}

#[test]
fn copy_constraints_are_unordered_pairs() {
    let (cs, a, i, _) = window_system();
    let mut table = Table::new(&cs, 4, vec![vec![fe(7)]]);
    table.assign_advice(a, 0, known(7)).unwrap();
    table.assign_advice(a, 1, known(7)).unwrap();
    assert_eq!(table.constrain_equal(cell(a, 0), cell(a, 1)), Ok(()));
    assert_eq!(table.constrain_equal(cell(a, 1), cell(a, 0)), Ok(()));
    assert_eq!(table.copies(), &vec![(cell(a, 0), cell(a, 1))]);
    assert_eq!(table.constrain_equal(cell(i, 0), cell(a, 0)), Ok(()));
    assert_eq!(table.constrain_instance(cell(a, 0), i, 0), Ok(()));
    assert_eq!(table.copies().len(), 2);
    assert_eq!(table.verify(), Ok(()));
}

#[test]
fn a_broken_copy_is_a_constraint_violation() {
    let (cs, a, _, _) = window_system();
    let mut table = Table::new(&cs, 4, vec![]);
    table.assign_advice(a, 0, known(7)).unwrap();
    table.assign_advice(a, 1, known(8)).unwrap();
    assert_eq!(table.constrain_equal(cell(a, 0), cell(a, 1)), Ok(()));
    assert_eq!(table.verify(), Err(Error::ConstraintViolation));
}
