use fibonacci_circuit::constraint_system::ConstraintSystem;
use fibonacci_circuit::field::{Fe, Value};
use fibonacci_circuit::gate::{Cell, Column, ColumnKind, Error, Query, Rotation, Selector};
use fibonacci_circuit::multi_column::{FiboChip, FiboConfig, MyCircuit};
use fibonacci_circuit::table::Table;

fn fe(v: u64) -> Fe {
    Fe::from_u64(v)
}

fn known(v: u64) -> Value {
    Value::Known(fe(v))
}

fn advice(index: usize) -> Column {
    Column { kind: ColumnKind::Advice, index }
}

fn instance(index: usize) -> Column {
    Column { kind: ColumnKind::Instance, index }
}

fn cell(column: Column, row: usize) -> Cell {
    Cell { column, row }
}

fn configured() -> (ConstraintSystem, FiboConfig) {
    let mut cs = ConstraintSystem::new();
    let config = MyCircuit::configure(&mut cs);
    (cs, config)
}

fn holds(table: &Table, column: Column, row: usize, v: u64) -> bool {
    matches!(table.slot(cell(column, row)), Some(Value::Known(x)) if x == fe(v))
}

fn run_multi(a: Value, b: Value, steps: usize, rows: usize, public: Vec<u64>) -> (Result<(), Error>, Result<(), Error>) {
    let (cs, config) = configured();
    let instance = vec![public.into_iter().map(fe).collect::<Vec<Fe>>()];
    let mut table = Table::new(&cs, rows, instance);
    let circuit = MyCircuit { a, b, steps, exposed: true };
    let filled = circuit.synthesize(config, &mut table);
    (filled, table.verify())
}

#[test]
fn configure_declares_the_shape() {
    let (cs, config) = configured();
    assert_eq!(config.advice, [advice(0), advice(1), advice(2)]);
    assert_eq!(config.instance, instance(0));
    assert_eq!(config.selector, Selector { index: 0 });
    assert_eq!(cs.num_advice_columns(), 3);
    assert_eq!(cs.num_instance_columns(), 1);
    assert_eq!(cs.num_selectors(), 1);
    for column in [advice(0), advice(1), advice(2), instance(0)] {
        assert!(cs.equality_enabled(column));
    }
    assert_eq!(cs.gates().len(), 1);
    let gate = &cs.gates()[0];
    assert_eq!(gate.name, "add");
    assert_eq!(gate.selector, config.selector);
    assert_eq!(gate.polys.len(), 1);
    let cur = |column: Column| Query { column, rotation: Rotation(0) };
    assert_eq!(gate.window(), vec![cur(advice(0)), cur(advice(1)), cur(advice(2))]);
}

#[test]
fn configure_on_given_columns() {
    let mut cs = ConstraintSystem::new();
    let unused = cs.advice_column();
    let a = cs.advice_column();
    let b = cs.advice_column();
    let c = cs.advice_column();
    let i = cs.instance_column();
    let other = cs.selector();
    let config = FiboChip::configure(&mut cs, [c, a, b], i);
    assert_eq!(config.advice, [advice(3), advice(1), advice(2)]);
    assert_eq!(config.selector, Selector { index: 1 });
    assert_ne!(config.selector, other);
    assert!(!cs.equality_enabled(unused));
    assert!(cs.equality_enabled(a) && cs.equality_enabled(b) && cs.equality_enabled(c));
    assert_eq!(cs.gates()[0].selector, config.selector);
}

#[test]
fn first_row_holds_the_seeds_and_their_sum() {
    let (cs, config) = configured();
    let mut table = Table::new(&cs, 4, vec![]);
    let chip = FiboChip::construct(config);
    let (a, b, c) = chip.assign_first_row(&mut table, known(2), known(3)).unwrap();
    assert_eq!((a.cell, b.cell, c.cell), (cell(advice(0), 0), cell(advice(1), 0), cell(advice(2), 0)));
    assert!(a.value.equals(&known(2)) && b.value.equals(&known(3)) && c.value.equals(&known(5)));
    assert!(holds(&table, advice(0), 0, 2));
    assert!(holds(&table, advice(1), 0, 3));
    assert!(holds(&table, advice(2), 0, 5));
    assert!(table.is_enabled(config.selector, 0));
    assert!(!table.is_enabled(config.selector, 1));
    assert!(table.copies().is_empty());
    assert_eq!(table.verify(), Ok(()));
}

#[test]
fn later_row_copies_from_the_row_above() {
    let (cs, config) = configured();
    let mut table = Table::new(&cs, 4, vec![]);
    let chip = FiboChip::construct(config);
    let (_, b0, c0) = chip.assign_first_row(&mut table, known(2), known(3)).unwrap();
    let (a1, b1, c1) = chip.assign_row(&mut table, &b0, &c0).unwrap();
    assert_eq!((a1.cell, b1.cell, c1.cell), (cell(advice(0), 1), cell(advice(1), 1), cell(advice(2), 1)));
    assert!(holds(&table, advice(0), 1, 3));
    assert!(holds(&table, advice(1), 1, 5));
    assert!(holds(&table, advice(2), 1, 8));
    assert!(c1.value.equals(&known(8)));
    assert!(table.is_enabled(config.selector, 1));
    assert_eq!(
        table.copies(),
        &vec![
            (cell(advice(0), 1), cell(advice(1), 0)),
            (cell(advice(1), 1), cell(advice(2), 0)),
        ]
    );
    assert_eq!(table.verify(), Ok(()));
}

#[test]
fn later_row_needs_a_row_of_the_table() {
    let (cs, config) = configured();
    let mut table = Table::new(&cs, 1, vec![]);
    let chip = FiboChip::construct(config);
    let (_, b0, c0) = chip.assign_first_row(&mut table, known(2), known(3)).unwrap();
    assert!(matches!(chip.assign_row(&mut table, &b0, &c0), Err(Error::OutOfBoundsWindow)));
    assert!(table.copies().is_empty());
    assert!(table.slot(cell(advice(0), 1)).is_none());
}

#[test]
fn synthesize_fills_one_row_for_each_term_after_the_second() {
    let (cs, config) = configured();
    let mut table = Table::new(&cs, 10, vec![vec![fe(1), fe(1), fe(55)]]);
    let circuit = MyCircuit { a: known(1), b: known(1), steps: 10, exposed: true };
    assert_eq!(circuit.synthesize(config, &mut table), Ok(()));
    let terms: [u64; 10] = [1, 1, 2, 3, 5, 8, 13, 21, 34, 55];
    for row in 0..8 {
        assert!(holds(&table, advice(0), row, terms[row]));
        assert!(holds(&table, advice(1), row, terms[row + 1]));
        assert!(holds(&table, advice(2), row, terms[row + 2]));
        assert!(table.is_enabled(config.selector, row));
    }
    for row in 8..10 {
        for column in 0..3 {
            assert!(table.slot(cell(advice(column), row)).is_none());
        }
        assert!(!table.is_enabled(config.selector, row));
    }
    let copies = table.copies();
    assert_eq!(copies.len(), 2 + 2 * 7 + 1);
    assert_eq!(copies[0], (cell(advice(0), 0), cell(instance(0), 0)));
    assert_eq!(copies[1], (cell(advice(1), 0), cell(instance(0), 1)));
    for row in 1..8 {
        assert_eq!(copies[2 * row], (cell(advice(0), row), cell(advice(1), row - 1)));
        assert_eq!(copies[2 * row + 1], (cell(advice(1), row), cell(advice(2), row - 1)));
    }
    assert_eq!(copies[16], (cell(advice(2), 7), cell(instance(0), 2)));
    assert_eq!(table.verify(), Ok(()));
}

#[test]
fn multi_column_accepts_tenth_term() {
    assert_eq!(run_multi(known(1), known(1), 10, 16, vec![1, 1, 55]), (Ok(()), Ok(())));
}

#[test]
fn multi_column_rejects_wrong_output() {
    assert_eq!(
        run_multi(known(1), known(1), 10, 16, vec![1, 1, 56]),
        (Ok(()), Err(Error::ConstraintViolation))
    );
}

#[test]
fn multi_column_rejects_wrong_public_seed() {
    assert_eq!(
        run_multi(known(1), known(1), 10, 16, vec![2, 1, 55]),
        (Ok(()), Err(Error::ConstraintViolation))
    );
    assert_eq!(
        run_multi(known(1), known(1), 10, 16, vec![1, 2, 55]),
        (Ok(()), Err(Error::ConstraintViolation))
    );
}

#[test]
fn multi_column_smallest_table() {
    // Three steps need one row of cells; the three public inputs need three rows.
    assert_eq!(run_multi(known(4), known(6), 3, 3, vec![4, 6, 10]), (Ok(()), Ok(())));
    assert_eq!(run_multi(known(4), known(6), 4, 3, vec![4, 6, 16]), (Ok(()), Ok(())));
    assert_eq!(run_multi(known(4), known(6), 5, 3, vec![4, 6, 26]), (Ok(()), Ok(())));
    let (filled, _) = run_multi(known(4), known(6), 6, 3, vec![4, 6, 42]);
    assert_eq!(filled, Err(Error::OutOfBoundsWindow));
    let (filled, _) = run_multi(known(4), known(6), 3, 2, vec![4, 6, 10]);
    assert_eq!(filled, Err(Error::OutOfBoundsWindow));
}

#[test]
fn fewer_than_three_steps_fill_the_first_row() {
    for steps in 0..3 {
        let (cs, config) = configured();
        let mut table = Table::new(&cs, 4, vec![vec![fe(4), fe(6), fe(10)]]);
        let circuit = MyCircuit { a: known(4), b: known(6), steps, exposed: true };
        assert_eq!(circuit.synthesize(config, &mut table), Ok(()));
        assert!(holds(&table, advice(2), 0, 10));
        assert!(table.slot(cell(advice(0), 1)).is_none());
        assert_eq!(table.copies().len(), 3);
        assert_eq!(table.verify(), Ok(()));
    }
}

#[test]
fn multi_column_unknown_seed_is_missing_witness() {
    for (a, b) in [(Value::Unknown, known(1)), (known(1), Value::Unknown), (Value::Unknown, Value::Unknown)] {
        let (cs, config) = configured();
        let mut table = Table::new(&cs, 16, vec![vec![fe(1), fe(1), fe(55)]]);
        let circuit = MyCircuit { a, b, steps: 10, exposed: true };
        assert_eq!(circuit.synthesize(config, &mut table), Err(Error::MissingWitness));
        assert!(table.is_enabled(config.selector, 0));
        assert!(table.slot(cell(advice(1), 0)).is_none());
        assert!(table.slot(cell(advice(2), 0)).is_none());
        assert!(table.copies().is_empty());
    }
}

#[test]
fn without_witnesses_forgets_the_seeds() {
    let circuit = MyCircuit { a: known(1), b: known(1), steps: 10, exposed: true };
    let bare = circuit.without_witnesses();
    assert!(matches!(bare.a, Value::Unknown));
    assert!(matches!(bare.b, Value::Unknown));
    assert_eq!(bare.steps, 10);
    assert!(bare.exposed);
    let (cs, config) = configured();
    let mut table = Table::new(&cs, 16, vec![vec![fe(1), fe(1), fe(55)]]);
    assert_eq!(bare.synthesize(config, &mut table), Err(Error::MissingWitness));
}

#[test]
fn missing_public_input_is_missing_witness() {
    let (filled, _) = run_multi(known(1), known(1), 10, 16, vec![1, 1]);
    assert_eq!(filled, Err(Error::MissingWitness));
    let (filled, _) = run_multi(known(1), known(1), 10, 16, vec![]);
    assert_eq!(filled, Err(Error::MissingWitness));
}

#[test]
fn exposure_without_equality_is_invalid() {
    let mut cs = ConstraintSystem::new();
    let a = cs.advice_column();
    let i = cs.instance_column();
    let s = cs.selector();
    // A configuration that was never registered: no equality on its columns.
    let config = FiboConfig { advice: [a, a, a], selector: s, instance: i };
    let mut table = Table::new(&cs, 4, vec![vec![fe(1)]]);
    let assigned = table.assign_advice(a, 0, known(1)).unwrap();
    let chip = FiboChip::construct(config);
    assert_eq!(chip.expose_public(&mut table, &assigned, 0), Err(Error::InvalidEquality));
}

#[test]
fn expose_public_twice_changes_nothing() {
    let (cs, config) = configured();
    let mut table = Table::new(&cs, 4, vec![vec![fe(2)]]);
    let chip = FiboChip::construct(config);
    let (a, _, _) = chip.assign_first_row(&mut table, known(2), known(3)).unwrap();
    assert_eq!(chip.expose_public(&mut table, &a, 0), Ok(()));
    assert_eq!(chip.expose_public(&mut table, &a, 0), Ok(()));
    assert_eq!(table.copies(), &vec![(cell(advice(0), 0), cell(instance(0), 0))]);
    assert_eq!(table.verify(), Ok(()));
}

#[test]
fn sums_wrap_at_the_field_order() {
    // Seeds p - 1 and 2: the third term is 1.
    let top = fe(1).neg();
    let (cs, config) = configured();
    let mut table = Table::new(&cs, 4, vec![vec![top, fe(2), fe(3)]]);
    let circuit = MyCircuit { a: Value::Known(top), b: known(2), steps: 4, exposed: true };
    assert_eq!(circuit.synthesize(config, &mut table), Ok(()));
    assert!(holds(&table, advice(2), 0, 1));
    assert!(holds(&table, advice(2), 1, 3));
    assert_eq!(table.verify(), Ok(()));
}

#[test]
fn private_circuit_binds_nothing_to_the_instance_column() {
    let (cs, config) = configured();
    let mut table = Table::new(&cs, 8, vec![vec![]]);
    let circuit = MyCircuit { a: known(1), b: known(1), steps: 10, exposed: false };
    assert_eq!(circuit.synthesize(config, &mut table), Ok(()));
    assert!(holds(&table, advice(2), 7, 55));
    assert_eq!(table.copies().len(), 2 * 7);
    for (from, to) in table.copies() {
        assert_eq!(from.column.kind, ColumnKind::Advice);
        assert_eq!(to.column.kind, ColumnKind::Advice);
    }
    assert_eq!(table.verify(), Ok(()));
    let mut short = Table::new(&cs, 7, vec![vec![]]);
    assert_eq!(circuit.synthesize(config, &mut short), Err(Error::OutOfBoundsWindow));
}

#[test]
fn private_circuit_unknown_seed_is_missing_witness() {
    let (cs, config) = configured();
    let mut table = Table::new(&cs, 8, vec![]);
    let circuit = MyCircuit { a: known(1), b: Value::Unknown, steps: 10, exposed: false };
    assert_eq!(circuit.synthesize(config, &mut table), Err(Error::MissingWitness));
    assert!(holds(&table, advice(0), 0, 1));
    assert!(table.slot(cell(advice(1), 0)).is_none());
}

#[test]
fn check_runs_one_witness_cycle() {
    let fes = |values: &[u64]| values.iter().map(|v| fe(*v)).collect::<Vec<Fe>>();
    let exposed = MyCircuit { a: known(1), b: known(1), steps: 10, exposed: true };
    assert_eq!(exposed.check(fes(&[1, 1, 55])), Ok(()));
    assert_eq!(exposed.check(fes(&[1, 1, 55, 99])), Ok(()));
    assert_eq!(exposed.check(fes(&[1, 1, 56])), Err(Error::ConstraintViolation));
    assert_eq!(exposed.check(fes(&[1, 2, 55])), Err(Error::ConstraintViolation));
    assert_eq!(exposed.check(fes(&[2, 1, 55])), Err(Error::ConstraintViolation));
    assert_eq!(exposed.check(fes(&[1, 1])), Err(Error::MissingWitness));
    assert_eq!(exposed.without_witnesses().check(fes(&[1, 1, 55])), Err(Error::MissingWitness));
    let private = MyCircuit { a: known(1), b: known(1), steps: 10, exposed: false };
    assert_eq!(private.check(vec![]), Ok(()));
    assert_eq!(private.check(fes(&[7, 7, 7])), Ok(()));
    assert_eq!(private.without_witnesses().check(vec![]), Err(Error::MissingWitness));
    // 5, 7, 12, 19, 31, 50
    for (steps, term) in [(3usize, 12u64), (4, 19), (5, 31), (6, 50)] {
        let circuit = MyCircuit { a: known(5), b: known(7), steps, exposed: true };
        assert_eq!(circuit.check(fes(&[5, 7, term])), Ok(()));
        assert_eq!(circuit.check(fes(&[5, 7, term + 1])), Err(Error::ConstraintViolation));
    }
}

#[test]
fn check_follows_long_sequences_into_the_field() {
    // Term 400 is far above the field order; the circuit and plain
    // arithmetic in the field must agree on it.
    let mut x = fe(1);
    let mut y = fe(1);
    for _ in 2..400 {
        let z = x.add(&y);
        x = y;
        y = z;
    }
    let circuit = MyCircuit { a: known(1), b: known(1), steps: 400, exposed: true };
    assert_eq!(circuit.check(vec![fe(1), fe(1), y]), Ok(()));
    assert_eq!(circuit.check(vec![fe(1), fe(1), x]), Err(Error::ConstraintViolation));
}
