use fibonacci_circuit::constraint_system::ConstraintSystem;
use fibonacci_circuit::field::{Fe, Value};
use fibonacci_circuit::gate::{Cell, Column, ColumnKind, Error, Expression, Selector};
use fibonacci_circuit::multi_column;
use fibonacci_circuit::single_column;
use fibonacci_circuit::table::Table;
use halo2_proofs::circuit::{Layouter, SimpleFloorPlanner};
use halo2_proofs::dev::MockProver;
use halo2_proofs::pasta::group::ff::PrimeField;
use halo2_proofs::pasta::Fp;
use halo2_proofs::plonk;
use halo2_proofs::poly::Rotation;

/// The columns and selectors of a backend constraint system, in the order of
/// the library's indices.
#[derive(Clone)]
struct Declared {
    advice: Vec<plonk::Column<plonk::Advice>>,
    instance: Vec<plonk::Column<plonk::Instance>>,
    selectors: Vec<plonk::Selector>,
}

fn to_fp(value: Fe) -> Fp {
    Fp::from_repr(value.to_bytes()).unwrap()
}

fn to_backend(e: &Expression, cells: &mut plonk::VirtualCells<'_, Fp>, declared: &Declared) -> plonk::Expression<Fp> {
    match e {
        Expression::Constant(c) => plonk::Expression::Constant(to_fp(*c)),
        Expression::Selector(s) => cells.query_selector(declared.selectors[s.index]),
        Expression::Query(q) => match q.column.kind {
            ColumnKind::Advice => cells.query_advice(declared.advice[q.column.index], Rotation(q.rotation.0)),
            ColumnKind::Instance => cells.query_instance(declared.instance[q.column.index], Rotation(q.rotation.0)),
        },
        Expression::Negated(a) => -to_backend(a, cells, declared),
        Expression::Sum(a, b) => to_backend(a, cells, declared) + to_backend(b, cells, declared),
        Expression::Product(a, b) => to_backend(a, cells, declared) * to_backend(b, cells, declared),
    }
}

/// Declares in the backend what the library's constraint system declares.
fn declare(cs: &ConstraintSystem, meta: &mut plonk::ConstraintSystem<Fp>) -> Declared {
    let declared = Declared {
        advice: (0..cs.num_advice_columns()).map(|_| meta.advice_column()).collect(),
        instance: (0..cs.num_instance_columns()).map(|_| meta.instance_column()).collect(),
        selectors: (0..cs.num_selectors()).map(|_| meta.selector()).collect(),
    };
    for (index, column) in declared.advice.iter().enumerate() {
        if cs.equality_enabled(Column { kind: ColumnKind::Advice, index }) {
            meta.enable_equality(*column);
        }
    }
    for (index, column) in declared.instance.iter().enumerate() {
        if cs.equality_enabled(Column { kind: ColumnKind::Instance, index }) {
            meta.enable_equality(*column);
        }
    }
    for gate in cs.gates() {
        meta.create_gate(gate.name, |cells| {
            gate.polys.iter().map(|p| to_backend(p, cells, &declared)).collect::<Vec<_>>()
        });
    }
    declared
}

/// Hands a filled table to the backend, cell by cell.
fn replay(table: &Table, declared: &Declared, mut layouter: impl Layouter<Fp>) -> Result<(), plonk::Error> {
    let cs = table.constraint_system();
    let rows = table.num_rows();
    let cells = layouter.assign_region(
        || "table",
        |mut region| {
            let mut cells = vec![vec![None; rows]; cs.num_advice_columns()];
            for index in 0..cs.num_selectors() {
                for row in 0..rows {
                    if table.is_enabled(Selector { index }, row) {
                        declared.selectors[index].enable(&mut region, row)?;
                    }
                }
            }
            for index in 0..cs.num_advice_columns() {
                for row in 0..rows {
                    let cell = Cell { column: Column { kind: ColumnKind::Advice, index }, row };
                    if let Some(held) = table.slot(cell) {
                        let value = match held {
                            Value::Known(v) => Some(to_fp(v)),
                            Value::Unknown => None,
                        };
                        let assigned = region.assign_advice(
                            || "cell",
                            declared.advice[index],
                            row,
                            || value.ok_or(plonk::Error::Synthesis),
                        )?;
                        cells[index][row] = Some(assigned.cell());
                    }
                }
            }
            for (a, b) in table.copies() {
                if a.column.kind == ColumnKind::Advice && b.column.kind == ColumnKind::Advice {
                    region.constrain_equal(
                        cells[a.column.index][a.row].unwrap(),
                        cells[b.column.index][b.row].unwrap(),
                    )?;
                }
            }
            Ok(cells)
        },
    )?;
    for (a, b) in table.copies() {
        match (a.column.kind, b.column.kind) {
            (ColumnKind::Advice, ColumnKind::Instance) => layouter.constrain_instance(
                cells[a.column.index][a.row].unwrap(),
                declared.instance[b.column.index],
                b.row,
            )?,
            (ColumnKind::Instance, ColumnKind::Advice) => layouter.constrain_instance(
                cells[b.column.index][b.row].unwrap(),
                declared.instance[a.column.index],
                a.row,
            )?,
            _ => {}
        }
    }
    Ok(())
}

#[derive(Clone)]
struct Multi {
    circuit: multi_column::MyCircuit,
    rows: usize,
    public: Vec<Fe>,
}

impl plonk::Circuit<Fp> for Multi {
    type Config = (multi_column::FiboConfig, Declared);
    type FloorPlanner = SimpleFloorPlanner;

    fn without_witnesses(&self) -> Self {
        Multi { circuit: self.circuit.without_witnesses(), rows: self.rows, public: self.public.clone() }
    }

    fn configure(meta: &mut plonk::ConstraintSystem<Fp>) -> Self::Config {
        let mut cs = ConstraintSystem::new();
        let config = multi_column::MyCircuit::configure(&mut cs);
        (config, declare(&cs, meta))
    }

    fn synthesize(&self, config: Self::Config, layouter: impl Layouter<Fp>) -> Result<(), plonk::Error> {
        let mut cs = ConstraintSystem::new();
        multi_column::MyCircuit::configure(&mut cs);
        let mut table = Table::new(&cs, self.rows, vec![self.public.clone()]);
        self.circuit.synthesize(config.0, &mut table).map_err(|_| plonk::Error::Synthesis)?;
        replay(&table, &config.1, layouter)
    }
}

#[derive(Clone)]
struct Single {
    circuit: single_column::MyCircuit,
    rows: usize,
    public: Vec<Fe>,
}

impl plonk::Circuit<Fp> for Single {
    type Config = (single_column::FiboConfig, Declared);
    type FloorPlanner = SimpleFloorPlanner;

    fn without_witnesses(&self) -> Self {
        self.clone()
    }

    fn configure(meta: &mut plonk::ConstraintSystem<Fp>) -> Self::Config {
        let mut cs = ConstraintSystem::new();
        let config = single_column::MyCircuit::configure(&mut cs);
        (config, declare(&cs, meta))
    }

    fn synthesize(&self, config: Self::Config, layouter: impl Layouter<Fp>) -> Result<(), plonk::Error> {
        let mut cs = ConstraintSystem::new();
        single_column::MyCircuit::configure(&mut cs);
        let mut table = Table::new(&cs, self.rows, vec![self.public.clone()]);
        self.circuit.synthesize(config.0, &mut table).map_err(|_| plonk::Error::Synthesis)?;
        replay(&table, &config.1, layouter)
    }
}

fn fes(values: &[u64]) -> Vec<Fe> {
    values.iter().map(|v| Fe::from_u64(*v)).collect()
}

fn fps(values: &[u64]) -> Vec<Fp> {
    values.iter().map(|v| Fp::from(*v)).collect()
}

/// What the library's own oracle says of the three-column circuit.
fn multi_verdict(a: u64, b: u64, steps: usize, rows: usize, public: &[u64]) -> Result<(), Error> {
    let mut cs = ConstraintSystem::new();
    let config = multi_column::MyCircuit::configure(&mut cs);
    let mut table = Table::new(&cs, rows, vec![fes(public)]);
    let circuit = multi_column::MyCircuit {
        a: Value::Known(Fe::from_u64(a)),
        b: Value::Known(Fe::from_u64(b)),
        steps,
        exposed: true,
    };
    circuit.synthesize(config, &mut table)?;
    table.verify()
}

/// What the backend's mock prover says of the same table.
fn multi_backend(a: u64, b: u64, steps: usize, rows: usize, public: &[u64]) -> bool {
    let circuit = Multi {
        circuit: multi_column::MyCircuit {
            a: Value::Known(Fe::from_u64(a)),
            b: Value::Known(Fe::from_u64(b)),
            steps,
            exposed: true,
        },
        rows,
        public: fes(public),
    };
    MockProver::run(4, &circuit, vec![fps(public)]).unwrap().verify().is_ok()
}

fn single_verdict(nrows: usize, rows: usize, public: &[u64]) -> Result<(), Error> {
    let mut cs = ConstraintSystem::new();
    let config = single_column::MyCircuit::configure(&mut cs);
    let mut table = Table::new(&cs, rows, vec![fes(public)]);
    single_column::MyCircuit { nrows }.synthesize(config, &mut table)?;
    table.verify()
}

fn single_backend(nrows: usize, rows: usize, public: &[u64]) -> bool {
    let circuit = Single { circuit: single_column::MyCircuit { nrows }, rows, public: fes(public) };
    MockProver::run(4, &circuit, vec![fps(public)]).unwrap().verify().is_ok()
}

#[test]
fn backend_accepts_the_three_column_table() {
    assert_eq!(multi_verdict(1, 1, 10, 10, &[1, 1, 55]), Ok(()));
    assert!(multi_backend(1, 1, 10, 10, &[1, 1, 55]));
}

#[test]
fn backend_rejects_the_three_column_table_with_wrong_output() {
    assert_eq!(multi_verdict(1, 1, 10, 10, &[1, 1, 56]), Err(Error::ConstraintViolation));
    assert!(!multi_backend(1, 1, 10, 10, &[1, 1, 56]));
}

#[test]
fn backend_rejects_the_three_column_table_with_wrong_seed() {
    assert_eq!(multi_verdict(1, 1, 10, 10, &[1, 2, 55]), Err(Error::ConstraintViolation));
    assert!(!multi_backend(1, 1, 10, 10, &[1, 2, 55]));
    assert_eq!(multi_verdict(1, 1, 10, 10, &[0, 1, 55]), Err(Error::ConstraintViolation));
    assert!(!multi_backend(1, 1, 10, 10, &[0, 1, 55]));
}

#[test]
fn backend_accepts_the_one_column_table() {
    assert_eq!(single_verdict(10, 10, &[1, 1, 55]), Ok(()));
    assert!(single_backend(10, 10, &[1, 1, 55]));
}

#[test]
fn backend_rejects_the_one_column_table_with_wrong_output() {
    assert_eq!(single_verdict(10, 10, &[1, 1, 56]), Err(Error::ConstraintViolation));
    assert!(!single_backend(10, 10, &[1, 1, 56]));
}

#[test]
fn backend_agrees_on_the_smallest_tables() {
    assert_eq!(multi_verdict(2, 3, 3, 3, &[2, 3, 5]), Ok(()));
    assert!(multi_backend(2, 3, 3, 3, &[2, 3, 5]));
    assert_eq!(single_verdict(3, 3, &[2, 3, 5]), Ok(()));
    assert!(single_backend(3, 3, &[2, 3, 5]));
    assert_eq!(single_verdict(4, 4, &[2, 3, 8]), Ok(()));
    assert!(single_backend(4, 4, &[2, 3, 8]));
    assert_eq!(single_verdict(3, 3, &[2, 3, 6]), Err(Error::ConstraintViolation));
    assert!(!single_backend(3, 3, &[2, 3, 6]));
}

#[test]
fn backend_agrees_on_other_seeds_and_lengths() {
    // 3, 4, 7, 11, 18, 29, 47
    assert_eq!(multi_verdict(3, 4, 7, 10, &[3, 4, 47]), Ok(()));
    assert!(multi_backend(3, 4, 7, 10, &[3, 4, 47]));
    assert_eq!(single_verdict(7, 10, &[3, 4, 47]), Ok(()));
    assert!(single_backend(7, 10, &[3, 4, 47]));
    assert_eq!(single_verdict(7, 10, &[3, 4, 48]), Err(Error::ConstraintViolation));
    assert!(!single_backend(7, 10, &[3, 4, 48]));
}

#[test]
fn backend_fails_without_a_witness() {
    let circuit = Multi {
        circuit: multi_column::MyCircuit { a: Value::Unknown, b: Value::Known(Fe::from_u64(1)), steps: 10, exposed: true },
        rows: 10,
        public: fes(&[1, 1, 55]),
    };
    assert!(MockProver::run(4, &circuit, vec![fps(&[1, 1, 55])]).is_err());
}

#[test]
fn backend_accepts_the_private_three_column_table() {
    let circuit = Multi {
        circuit: multi_column::MyCircuit {
            a: Value::Known(Fe::from_u64(1)),
            b: Value::Known(Fe::from_u64(1)),
            steps: 10,
            exposed: false,
        },
        rows: 10,
        public: vec![],
    };
    MockProver::run(4, &circuit, vec![vec![]]).unwrap().assert_satisfied();
}
