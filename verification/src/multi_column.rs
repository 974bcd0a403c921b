//! The layout with three advice columns. Each row holds one step of the
//! recurrence, `a`, `b` and `c = a + b`; the addition gate reads only its own
//! row, and copy constraints carry `b` and `c` of one row into `a` and `b` of
//! the next.

use crate::constraint_system::{ConstraintSystem, ConstraintSystemModel};
use crate::field::{lemma_canonical, modulus, witness_sum, Fe, Value};
use crate::gate::{
    add_constraint, add_poly, Column, ColumnKind, Error, GateModel, Pos, Query, Rotation, Selector,
};
use crate::multi_column_soundness::{
    lemma_circuit_sound, lemma_private_circuit_sound, lemma_unknown_seed,
};
use crate::oracle::{outcome, verdict_if};
use crate::recurrence::{term, witness_term};
use crate::table::{failure, public_inputs, values_of, AssignedCell, Table};
use crate::table_model::{lemma_run_one, lemma_run_split, Op, TableModel};
use vstd::prelude::*;

verus! {

/// The columns and the selector that the chip works on.
#[derive(Clone, Copy, Debug)]
pub struct FiboConfig {
    pub advice: [Column; 3],
    pub selector: Selector,
    pub instance: Column,
}

/// A read of a column at the row of evaluation.
pub open spec fn cur(column: Column) -> Query {
    Query { column, rotation: Rotation(0i32) }
}

impl FiboConfig {
    /// The addition gate of this configuration: `selector * (a + b - c)`,
    /// all three read at the row of evaluation.
    pub open spec fn gate(self) -> GateModel {
        GateModel {
            name: "add"@,
            selector: self.selector,
            polys: seq![
                add_poly(
                    self.selector,
                    cur(self.advice[0]),
                    cur(self.advice[1]),
                    cur(self.advice[2]),
                ),
            ],
        }
    }

    /// The cell of `a` at a row; `b`, `c` and `public` likewise.
    pub open spec fn a(self, row: int) -> Pos {
        (self.advice[0], row)
    }

    pub open spec fn b(self, row: int) -> Pos {
        (self.advice[1], row)
    }

    pub open spec fn c(self, row: int) -> Pos {
        (self.advice[2], row)
    }

    pub open spec fn public(self, row: int) -> Pos {
        (self.instance, row)
    }
}

/// What `FiboChip::configure` adds to a constraint system: one selector,
/// equality on the four columns, and the addition gate.
pub open spec fn configured(
    cs: ConstraintSystemModel,
    config: FiboConfig,
) -> ConstraintSystemModel {
    ConstraintSystemModel {
        num_selectors: cs.num_selectors + 1,
        equality: cs.equality.insert(config.advice[0]).insert(config.advice[1]).insert(
            config.advice[2],
        ).insert(config.instance),
        gates: cs.gates.push(config.gate()),
        ..cs
    }
}

/// The configuration that `MyCircuit::configure` makes on a constraint
/// system: the next three advice columns, the next instance column and the
/// next selector.
pub open spec fn fresh_config(cs: ConstraintSystemModel) -> FiboConfig {
    FiboConfig {
        advice: [
            Column { kind: ColumnKind::Advice, index: cs.num_advice as usize },
            Column { kind: ColumnKind::Advice, index: (cs.num_advice + 1) as usize },
            Column { kind: ColumnKind::Advice, index: (cs.num_advice + 2) as usize },
        ],
        selector: Selector { index: cs.num_selectors as usize },
        instance: Column { kind: ColumnKind::Instance, index: cs.num_instance as usize },
    }
}

/// The configuration that `MyCircuit::configure` makes on a new constraint
/// system.
pub open spec fn standard_config() -> FiboConfig {
    fresh_config(ConstraintSystemModel::empty())
}

/// The constraint system that `MyCircuit::configure` makes of a new one.
pub open spec fn standard_cs() -> ConstraintSystemModel {
    configured(
        ConstraintSystemModel { num_advice: 3, num_instance: 1, ..ConstraintSystemModel::empty() },
        standard_config(),
    )
}

/// The writes of the first row: the selector, the two seeds and their sum.
pub open spec fn first_row_ops(config: FiboConfig, a: Option<nat>, b: Option<nat>) -> Seq<Op> {
    seq![
        Op::Enable(config.selector, 0),
        Op::Assign(config.a(0), a),
        Op::Assign(config.b(0), b),
        Op::Assign(config.c(0), witness_sum(a, b)),
    ]
}

/// The writes of a later row: the selector, `a` and `b` copied from the two
/// given cells, and their sum.
pub open spec fn step_ops(
    config: FiboConfig,
    row: int,
    prev_b: (Pos, Option<nat>),
    prev_c: (Pos, Option<nat>),
) -> Seq<Op> {
    seq![
        Op::Enable(config.selector, row),
        Op::Assign(config.a(row), prev_b.1),
        Op::Copy(config.a(row), prev_b.0),
        Op::Assign(config.b(row), prev_c.1),
        Op::Copy(config.b(row), prev_c.0),
        Op::Assign(config.c(row), witness_sum(prev_b.1, prev_c.1)),
    ]
}

/// The chip: the assignment routines of the layout, over a configuration.
pub struct FiboChip {
    config: FiboConfig,
}

impl FiboChip {
    /// The configuration that the chip was constructed with.
    pub closed spec fn config(self) -> FiboConfig {
        self.config
    }

    pub fn construct(config: FiboConfig) -> (chip: FiboChip)
        ensures
            chip.config() == config,
    {
        FiboChip { config }
    }

    /// Declares the shape of the circuit on the given columns. It reads no
    /// witness.
    pub fn configure(cs: &mut ConstraintSystem, advice: [Column; 3], instance: Column) -> (config:
        FiboConfig)
        requires
            old(cs)@.num_selectors < usize::MAX,
        ensures
            config.advice == advice,
            config.instance == instance,
            config.selector == (Selector { index: old(cs)@.num_selectors as usize }),
            final(cs)@ == configured(old(cs)@, config),
    {
        let col_a = advice[0];
        let col_b = advice[1];
        let col_c = advice[2];
        let selector = cs.selector();
        cs.enable_equality(col_a);
        cs.enable_equality(col_b);
        cs.enable_equality(col_c);
        cs.enable_equality(instance);
        let a = Query { column: col_a, rotation: Rotation::cur() };
        let b = Query { column: col_b, rotation: Rotation::cur() };
        let c = Query { column: col_c, rotation: Rotation::cur() };
        let mut polys = Vec::new();
        polys.push(add_constraint(selector, a, b, c));
        let config = FiboConfig { advice, selector, instance };
        proof {
            assert(polys@ =~= config.gate().polys);
        }
        cs.create_gate("add", selector, polys);
        config
    }

    /// Assigns row 0: enables the selector and writes the seeds and their
    /// sum. The table is left as the last write that succeeded left it.
    pub fn assign_first_row(&self, table: &mut Table, a: Value, b: Value) -> (r: Result<
        (AssignedCell, AssignedCell, AssignedCell),
        Error,
    >)
        ensures
            final(table)@.wf(),
            (final(table)@, failure(r)) == old(table)@.run(first_row_ops(self.config(), a@, b@)),
            r matches Ok(cells) ==> ({
                &&& cells.0@ == (self.config().a(0), a@)
                &&& cells.1@ == (self.config().b(0), b@)
                &&& cells.2@ == (self.config().c(0), witness_sum(a@, b@))
            }),
    {
        let ghost ops = first_row_ops(self.config(), a@, b@);
        proof {
            lemma_run_split(table@, ops, 1);
            lemma_run_one(table@, ops[0]);
            assert(ops.take(1) =~= seq![ops[0]]);
        }
        table.enable_selector(self.config.selector, 0)?;
        let ghost ops = ops.skip(1);
        proof {
            lemma_run_split(table@, ops, 1);
            lemma_run_one(table@, ops[0]);
            assert(ops.take(1) =~= seq![ops[0]]);
        }
        let a_cell = table.assign_advice(self.config.advice[0], 0, a)?;
        let ghost ops = ops.skip(1);
        proof {
            lemma_run_split(table@, ops, 1);
            lemma_run_one(table@, ops[0]);
            assert(ops.take(1) =~= seq![ops[0]]);
        }
        let b_cell = table.assign_advice(self.config.advice[1], 0, b)?;
        let ghost ops = ops.skip(1);
        proof {
            lemma_run_one(table@, ops[0]);
            assert(ops =~= seq![ops[0]]);
        }
        let c_val = a.add(&b);
        let c_cell = table.assign_advice(self.config.advice[2], 0, c_val)?;
        Ok((a_cell, b_cell, c_cell))
    }

    /// Assigns the row below that of `prev_c`: enables the selector, copies
    /// the two given cells into `a` and `b`, and writes their sum to `c`. The
    /// table is left as the last write that succeeded left it.
    pub fn assign_row(&self, table: &mut Table, prev_b: &AssignedCell, prev_c: &AssignedCell) -> (r:
        Result<(AssignedCell, AssignedCell, AssignedCell), Error>)
        ensures
            final(table)@.wf(),
            (final(table)@, failure(r)) == old(table)@.run(
                step_ops(self.config(), prev_c.cell.row + 1, prev_b@, prev_c@),
            ),
            r matches Ok(cells) ==> ({
                &&& cells.0@ == (self.config().a(prev_c.cell.row + 1), prev_b.value@)
                &&& cells.1@ == (self.config().b(prev_c.cell.row + 1), prev_c.value@)
                &&& cells.2@ == (
                    self.config().c(prev_c.cell.row + 1),
                    witness_sum(prev_b.value@, prev_c.value@),
                )
            }),
    {
        let ghost ops = step_ops(self.config(), prev_c.cell.row + 1, prev_b@, prev_c@);
        proof {
            lemma_run_split(table@, ops, 1);
            lemma_run_one(table@, ops[0]);
            assert(ops.take(1) =~= seq![ops[0]]);
        }
        let rows: usize = table.num_rows();
        if prev_c.cell.row >= rows {
            return Err(Error::OutOfBoundsWindow);
        }
        let row: usize = prev_c.cell.row + 1;
        table.enable_selector(self.config.selector, row)?;
        let ghost ops = ops.skip(1);
        proof {
            lemma_run_split(table@, ops, 2);
            assert(ops.take(2) =~= seq![ops[0], ops[1]]);
        }
        let a_cell = table.copy_advice(prev_b, self.config.advice[0], row)?;
        let ghost ops = ops.skip(2);
        proof {
            lemma_run_split(table@, ops, 2);
            assert(ops.take(2) =~= seq![ops[0], ops[1]]);
        }
        let b_cell = table.copy_advice(prev_c, self.config.advice[1], row)?;
        let ghost ops = ops.skip(2);
        proof {
            lemma_run_one(table@, ops[0]);
            assert(ops =~= seq![ops[0]]);
        }
        let c_val = prev_b.value.add(&prev_c.value);
        let c_cell = table.assign_advice(self.config.advice[2], row, c_val)?;
        Ok((a_cell, b_cell, c_cell))
    }

    /// Binds a cell to a row of the instance column. Binding the same cell
    /// to the same row again changes nothing.
    pub fn expose_public(&self, table: &mut Table, cell: &AssignedCell, row: usize) -> (r: Result<
        (),
        Error,
    >)
        ensures
            final(table)@.wf(),
            (final(table)@, failure(r)) == old(table)@.run(
                seq![Op::Copy(cell.cell@, self.config().public(row as int))],
            ),
    {
        proof {
            lemma_run_one(table@, Op::Copy(cell.cell@, self.config().public(row as int)));
        }
        table.constrain_instance(cell.cell, self.config.instance, row)
    }
}

/// The number of rows that the circuit fills for a number of steps: term 3
/// stands in row 0, and each later term one row further down.
pub open spec fn rows(steps: nat) -> nat {
    if steps <= 3 {
        1
    } else {
        (steps - 2) as nat
    }
}

/// The writes of row `row`, below the first: `a` and `b` are copied from `b`
/// and `c` of the row above.
pub open spec fn row_ops(config: FiboConfig, a: Option<nat>, b: Option<nat>, row: int) -> Seq<Op> {
    step_ops(
        config,
        row,
        (config.b(row - 1), witness_term(a, b, (row + 1) as nat)),
        (config.c(row - 1), witness_term(a, b, (row + 2) as nat)),
    )
}

/// The writes of the rows from `from` up to, not including, `to`.
pub open spec fn rows_ops(
    config: FiboConfig,
    a: Option<nat>,
    b: Option<nat>,
    from: int,
    to: int,
) -> Seq<Op>
    decreases to - from,
{
    if from >= to {
        Seq::empty()
    } else {
        row_ops(config, a, b, from) + rows_ops(config, a, b, from + 1, to)
    }
}

/// The writes that bind the seeds to rows 0 and 1 of the instance column.
pub open spec fn seed_exposure(config: FiboConfig) -> Seq<Op> {
    seq![
        Op::Copy(config.a(0), config.public(0)),
        Op::Copy(config.b(0), config.public(1)),
    ]
}

/// The write that binds the last sum to row 2 of the instance column.
pub open spec fn output_exposure(config: FiboConfig, steps: nat) -> Seq<Op> {
    seq![Op::Copy(config.c(rows(steps) - 1), config.public(2))]
}

/// Every write that the circuit makes where it binds its seeds and its
/// output to the instance column, in order: row `i` holds terms `i + 1`,
/// `i + 2` and `i + 3` of the sequence.
pub open spec fn exposed_plan(
    config: FiboConfig,
    a: Option<nat>,
    b: Option<nat>,
    steps: nat,
) -> Seq<Op> {
    first_row_ops(config, a, b) + (seed_exposure(config) + (rows_ops(
        config,
        a,
        b,
        1,
        rows(steps) as int,
    ) + output_exposure(config, steps)))
}

/// Every write that the circuit makes where it binds nothing to the
/// instance column: the rows alone.
pub open spec fn private_plan(
    config: FiboConfig,
    a: Option<nat>,
    b: Option<nat>,
    steps: nat,
) -> Seq<Op> {
    first_row_ops(config, a, b) + rows_ops(config, a, b, 1, rows(steps) as int)
}

/// Every write that the circuit makes.
pub open spec fn plan(
    config: FiboConfig,
    a: Option<nat>,
    b: Option<nat>,
    steps: nat,
    exposed: bool,
) -> Seq<Op> {
    if exposed {
        exposed_plan(config, a, b, steps)
    } else {
        private_plan(config, a, b, steps)
    }
}

/// The rows of the table that `MyCircuit::check` fills: room for the rows of
/// the circuit and for the three public inputs.
pub open spec fn table_rows(steps: nat) -> nat {
    if rows(steps) < 3 {
        3
    } else {
        rows(steps)
    }
}

/// Whether the public inputs are the two seeds and term `steps` of their
/// sequence in the field.
pub open spec fn agrees(a: nat, b: nat, steps: nat, public: Seq<nat>) -> bool {
    public[0] == a && public[1] == b && public[2] == term(a, b, steps) % modulus()
}

/// The circuit: two private seeds, the number of the term to compute, and
/// whether the seeds and that term are bound to rows 0, 1 and 2 of the
/// instance column.
#[derive(Clone, Copy, Debug)]
pub struct MyCircuit {
    pub a: Value,
    pub b: Value,
    pub steps: usize,
    pub exposed: bool,
}

impl MyCircuit {
    /// The same circuit without its witness.
    pub fn without_witnesses(&self) -> (r: MyCircuit)
        ensures
            r.a == Value::Unknown,
            r.b == Value::Unknown,
            r.steps == self.steps,
            r.exposed == self.exposed,
    {
        MyCircuit {
            a: Value::Unknown,
            b: Value::Unknown,
            steps: self.steps,
            exposed: self.exposed,
        }
    }

    /// Allocates three advice columns and an instance column and configures
    /// the chip on them.
    pub fn configure(cs: &mut ConstraintSystem) -> (config: FiboConfig)
        requires
            old(cs)@.num_advice + 3 <= usize::MAX,
            old(cs)@.num_instance < usize::MAX,
            old(cs)@.num_selectors < usize::MAX,
        ensures
            config == fresh_config(old(cs)@),
            final(cs)@ == configured(
                (ConstraintSystemModel {
                    num_advice: old(cs)@.num_advice + 3,
                    num_instance: old(cs)@.num_instance + 1,
                    ..old(cs)@
                }),
                config,
            ),
    {
        let col_a = cs.advice_column();
        let col_b = cs.advice_column();
        let col_c = cs.advice_column();
        let instance = cs.instance_column();
        let config = FiboChip::configure(cs, [col_a, col_b, col_c], instance);
        proof {
            assert(config.advice =~= fresh_config(old(cs)@).advice);
        }
        config
    }

    /// Fills the table: the first row and the later rows, and, where the
    /// circuit is exposed, the seeds bound to rows 0 and 1 of the instance
    /// column after the first row and the last sum bound to row 2 at the end.
    /// The table is left as the last write that succeeded left it.
    pub fn synthesize(&self, config: FiboConfig, table: &mut Table) -> (r: Result<(), Error>)
        ensures
            final(table)@.wf(),
            (final(table)@, failure(r)) == old(table)@.run(
                plan(config, self.a@, self.b@, self.steps as nat, self.exposed),
            ),
    {
        let chip = FiboChip::construct(config);
        let ghost a = self.a@;
        let ghost b = self.b@;
        let ghost total = rows(self.steps as nat) as int;
        let ghost tail = if self.exposed {
            output_exposure(config, self.steps as nat)
        } else {
            Seq::<Op>::empty()
        };
        let ghost full = plan(config, a, b, self.steps as nat, self.exposed);
        proof {
            lemma_run_split(table@, full, 4);
            assert(full.take(4) =~= first_row_ops(config, a, b));
        }
        let (prev_a, first_b, first_c) = chip.assign_first_row(table, self.a, self.b)?;
        let ghost ops = full.skip(4);
        if self.exposed {
            proof {
                assert(ops =~= seed_exposure(config) + (rows_ops(config, a, b, 1, total) + tail));
                lemma_run_split(table@, ops, 1);
                assert(ops.take(1) =~= seq![Op::Copy(config.a(0), config.public(0))]);
            }
            chip.expose_public(table, &prev_a, 0)?;
            let ghost ops = ops.skip(1);
            proof {
                lemma_run_split(table@, ops, 1);
                assert(ops.take(1) =~= seq![Op::Copy(config.b(0), config.public(1))]);
                assert(ops.skip(1) =~= rows_ops(config, a, b, 1, total) + tail);
            }
            chip.expose_public(table, &first_b, 1)?;
        } else {
            proof {
                assert(ops =~= rows_ops(config, a, b, 1, total) + tail);
            }
        }
        let mut prev_b = first_b;
        let mut prev_c = first_c;
        let mut i: usize = 3;
        proof {
            assert(witness_term(a, b, 3) == witness_sum(a, b)) by {
                assert(witness_term(a, b, 1) == a);
                assert(witness_term(a, b, 2) == b);
            }
            assert(witness_term(a, b, 2) == b);
        }
        while i < self.steps
            invariant
                3 <= i,
                i <= self.steps || i == 3,
                chip.config() == config,
                a == self.a@,
                b == self.b@,
                total == rows(self.steps as nat),
                full == plan(config, a, b, self.steps as nat, self.exposed),
                table@.wf(),
                old(table)@.run(full) == table@.run(rows_ops(config, a, b, i - 2, total) + tail),
                prev_b@ == (config.b(i - 3), witness_term(a, b, (i - 1) as nat)),
                prev_c@ == (config.c(i - 3), witness_term(a, b, i as nat)),
            decreases self.steps - i,
        {
            let ghost row = i - 2;
            let ghost ops = rows_ops(config, a, b, row, total) + tail;
            proof {
                assert(ops =~= row_ops(config, a, b, row) + (rows_ops(config, a, b, row + 1, total)
                    + tail));
                lemma_run_split(table@, ops, 6);
                assert(ops.take(6) =~= row_ops(config, a, b, row));
                assert(ops.skip(6) =~= rows_ops(config, a, b, row + 1, total) + tail);
            }
            let (_, b_cell, c_cell) = chip.assign_row(table, &prev_b, &prev_c)?;
            prev_b = b_cell;
            prev_c = c_cell;
            i += 1;
        }
        proof {
            assert(rows_ops(config, a, b, i - 2, total) =~= Seq::<Op>::empty());
            assert(rows_ops(config, a, b, i - 2, total) + tail =~= tail);
        }
        if self.exposed {
            proof {
                assert(tail =~= seq![Op::Copy(prev_c.cell@, config.public(2))]);
            }
            chip.expose_public(table, &prev_c, 2)
        } else {
            Ok(())
        }
    }

    /// One witness cycle: configures a new constraint system, fills an empty
    /// table over it that declares the given public inputs, and asks the
    /// oracle. With known seeds and at least three steps, the private circuit
    /// is accepted, and the exposed one is accepted exactly when the public
    /// inputs are the two seeds and term `steps` of their sequence; a seed
    /// that is not known is a missing witness.
    pub fn check(&self, public: Vec<Fe>) -> (r: Result<(), Error>)
        ensures
            r == outcome(
                TableModel::empty(
                    standard_cs(),
                    table_rows(self.steps as nat),
                    seq![values_of(public@)],
                ).run(plan(standard_config(), self.a@, self.b@, self.steps as nat, self.exposed)),
            ),
            self.a@ is None || self.b@ is None ==> r == Err::<(), Error>(Error::MissingWitness),
            self.a@ is Some && self.b@ is Some && self.steps >= 3 && !self.exposed ==> r == Ok::<
                (),
                Error,
            >(()),
            self.a@ is Some && self.b@ is Some && self.steps >= 3 && self.exposed && public@.len()
                >= 3 ==> r == verdict_if(
                agrees(self.a@->Some_0, self.b@->Some_0, self.steps as nat, values_of(public@)),
            ),
    {
        let mut cs = ConstraintSystem::new();
        let config = MyCircuit::configure(&mut cs);
        let rows: usize = if self.steps <= 5 {
            3
        } else {
            self.steps - 2
        };
        let ghost inputs = seq![values_of(public@)];
        let mut instance: Vec<Vec<Fe>> = Vec::new();
        instance.push(public);
        proof {
            assert(cs@.equality =~= standard_cs().equality);
            assert(public_inputs(instance@) =~= inputs);
            match (self.a, self.b) {
                (Value::Known(a), Value::Known(b)) => {
                    use_type_invariant(&a);
                    use_type_invariant(&b);
                    lemma_canonical(a);
                    lemma_canonical(b);
                    if self.steps >= 3 {
                        if !self.exposed {
                            lemma_private_circuit_sound(
                                a@,
                                b@,
                                self.steps as nat,
                                rows as nat,
                                inputs,
                            );
                        } else if inputs[0].len() >= 3 {
                            lemma_circuit_sound(a@, b@, self.steps as nat, rows as nat, inputs);
                        }
                    }
                },
                _ => {
                    lemma_unknown_seed(self.a@, self.b@, self.steps as nat, rows as nat, inputs);
                },
            }
        }
        let mut table = Table::new(&cs, rows, instance);
        match self.synthesize(config, &mut table) {
            Ok(()) => table.verify(),
            Err(e) => Err(e),
        }
    }
}

} // verus!
