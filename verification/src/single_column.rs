//! The layout with one advice column. The column holds the sequence itself,
//! one term per row; the addition gate reads its own row and the two below
//! it, so the whole column is assigned in one pass, and only the seeds and
//! the last term are bound to the instance column.

use crate::constraint_system::{ConstraintSystem, ConstraintSystemModel};
use crate::field::{lemma_canonical, modulus, Fe};
use crate::gate::{
    add_constraint, add_poly, Column, ColumnKind, Error, GateModel, Pos, Query, Rotation, Selector,
};
use crate::oracle::{outcome, verdict_if};
use crate::recurrence::{term, witness_term};
use crate::single_column_soundness::{lemma_circuit_sound, lemma_unknown_seed};
use crate::table::{failure, public_inputs, values_of, AssignedCell, Table};
use crate::table_model::{
    lemma_run_one, lemma_run_split, lemma_run_two, lemma_value_kept, Op, TableModel,
};
use vstd::prelude::*;

verus! {

/// The columns and the selector that the chip works on.
#[derive(Clone, Copy, Debug)]
pub struct FiboConfig {
    pub advice: Column,
    pub selector: Selector,
    pub instance: Column,
}

/// A read of a column `offset` rows below the row of evaluation.
pub open spec fn below(column: Column, offset: i32) -> Query {
    Query { column, rotation: Rotation(offset) }
}

impl FiboConfig {
    /// The addition gate of this configuration: `selector * (a + b - c)`,
    /// with `a`, `b` and `c` read from three rows in a column.
    pub open spec fn gate(self) -> GateModel {
        GateModel {
            name: "add"@,
            selector: self.selector,
            polys: seq![
                add_poly(
                    self.selector,
                    below(self.advice, 0),
                    below(self.advice, 1),
                    below(self.advice, 2),
                ),
            ],
        }
    }

    /// The cell of the advice column at a row.
    pub open spec fn cell(self, row: int) -> Pos {
        (self.advice, row)
    }

    /// The cell of the instance column at a row.
    pub open spec fn public(self, row: int) -> Pos {
        (self.instance, row)
    }
}

/// What `FiboChip::configure` adds to a constraint system: one selector,
/// equality on the two columns, and the addition gate.
pub open spec fn configured(
    cs: ConstraintSystemModel,
    config: FiboConfig,
) -> ConstraintSystemModel {
    ConstraintSystemModel {
        num_selectors: cs.num_selectors + 1,
        equality: cs.equality.insert(config.advice).insert(config.instance),
        gates: cs.gates.push(config.gate()),
        ..cs
    }
}

/// The configuration that `MyCircuit::configure` makes on a constraint
/// system: the next advice column, the next instance column and the next
/// selector.
pub open spec fn fresh_config(cs: ConstraintSystemModel) -> FiboConfig {
    FiboConfig {
        advice: Column { kind: ColumnKind::Advice, index: cs.num_advice as usize },
        selector: Selector { index: cs.num_selectors as usize },
        instance: Column { kind: ColumnKind::Instance, index: cs.num_instance as usize },
    }
}

/// The configuration that `MyCircuit::configure` makes on a new constraint
/// system.
pub open spec fn standard_config() -> FiboConfig {
    fresh_config(ConstraintSystemModel::empty())
}

/// The constraint system that `MyCircuit::configure` makes of a new one.
pub open spec fn standard_cs() -> ConstraintSystemModel {
    configured(
        ConstraintSystemModel { num_advice: 1, num_instance: 1, ..ConstraintSystemModel::empty() },
        standard_config(),
    )
}

/// The selector is enabled at `row` exactly where the three rows that the
/// gate reads from there are all among the `nrows` rows assigned.
pub open spec fn enable_ops(config: FiboConfig, row: int, nrows: int) -> Seq<Op> {
    if row + 2 < nrows {
        seq![Op::Enable(config.selector, row)]
    } else {
        Seq::empty()
    }
}

/// A seed row takes its value from the instance column and is bound to it.
pub open spec fn seed_ops(config: FiboConfig, row: int, value: Option<nat>) -> Seq<Op> {
    seq![Op::Assign(config.cell(row), value), Op::Copy(config.cell(row), config.public(row))]
}

/// The writes of a row below the seeds: the selector, where a window starts
/// there, and the sum of the two rows above.
pub open spec fn row_ops(
    config: FiboConfig,
    v0: Option<nat>,
    v1: Option<nat>,
    row: int,
    nrows: int,
) -> Seq<Op> {
    enable_ops(config, row, nrows) + seq![
        Op::Assign(config.cell(row), witness_term(v0, v1, (row + 1) as nat)),
    ]
}

/// The writes of the rows from `from` up to, not including, `nrows`.
pub open spec fn rows_ops(
    config: FiboConfig,
    v0: Option<nat>,
    v1: Option<nat>,
    from: int,
    nrows: int,
) -> Seq<Op>
    decreases nrows - from,
{
    if from >= nrows {
        Seq::empty()
    } else {
        row_ops(config, v0, v1, from, nrows) + rows_ops(config, v0, v1, from + 1, nrows)
    }
}

/// Every write of `FiboChip::assign`, in order: row `i` holds term `i + 1`
/// of the sequence that starts with the two seeds.
pub open spec fn assign_plan(
    config: FiboConfig,
    v0: Option<nat>,
    v1: Option<nat>,
    nrows: int,
) -> Seq<Op> {
    enable_ops(config, 0, nrows) + (enable_ops(config, 1, nrows) + (seed_ops(config, 0, v0) + (
    seed_ops(config, 1, v1) + rows_ops(config, v0, v1, 2, nrows))))
}

/// The last row that `FiboChip::assign` writes: the two seed rows are
/// always written.
pub open spec fn last_row(nrows: int) -> int {
    if nrows <= 2 {
        1
    } else {
        nrows - 1
    }
}

/// Every write of the circuit: the column, and its last row bound to row 2
/// of the instance column.
pub open spec fn plan(config: FiboConfig, v0: Option<nat>, v1: Option<nat>, nrows: int) -> Seq<Op> {
    assign_plan(config, v0, v1, nrows) + seq![
        Op::Copy(config.cell(last_row(nrows)), config.public(2)),
    ]
}

/// The chip: the assignment routines of the layout, over a configuration.
pub struct FiboChip {
    config: FiboConfig,
}

impl FiboChip {
    /// The configuration that the chip was constructed with.
    pub closed spec fn config(self) -> FiboConfig {
        self.config
    }

    pub fn construct(config: FiboConfig) -> (chip: FiboChip)
        ensures
            chip.config() == config,
    {
        FiboChip { config }
    }

    /// Declares the shape of the circuit on the given columns. It reads no
    /// witness.
    pub fn configure(cs: &mut ConstraintSystem, advice: Column, instance: Column) -> (config:
        FiboConfig)
        requires
            old(cs)@.num_selectors < usize::MAX,
        ensures
            config.advice == advice,
            config.instance == instance,
            config.selector == (Selector { index: old(cs)@.num_selectors as usize }),
            final(cs)@ == configured(old(cs)@, config),
    {
        let selector = cs.selector();
        cs.enable_equality(advice);
        cs.enable_equality(instance);
        let a = Query { column: advice, rotation: Rotation::cur() };
        let b = Query { column: advice, rotation: Rotation::next() };
        let c = Query { column: advice, rotation: Rotation(2) };
        let mut polys = Vec::new();
        polys.push(add_constraint(selector, a, b, c));
        let config = FiboConfig { advice, selector, instance };
        proof {
            assert(polys@ =~= config.gate().polys);
        }
        cs.create_gate("add", selector, polys);
        config
    }

    /// Assigns the whole column in one pass: the two seeds from rows 0 and 1
    /// of the instance column, then each row as the sum of the two above it,
    /// with the selector enabled at every row from which a window fits.
    /// Returns the last cell written. The table is left as the last write
    /// that succeeded left it.
    pub fn assign(&self, table: &mut Table, nrows: usize) -> (r: Result<AssignedCell, Error>)
        ensures
            final(table)@.wf(),
            (final(table)@, failure(r)) == old(table)@.run(
                assign_plan(
                    self.config(),
                    old(table)@.value_at(self.config().public(0)),
                    old(table)@.value_at(self.config().public(1)),
                    nrows as int,
                ),
            ),
            r matches Ok(cell) ==> cell@ == (
                self.config().cell(last_row(nrows as int)),
                witness_term(
                    old(table)@.value_at(self.config().public(0)),
                    old(table)@.value_at(self.config().public(1)),
                    (last_row(nrows as int) + 1) as nat,
                ),
            ),
    {
        let ghost config = self.config();
        let ghost v0 = table@.value_at(config.public(0));
        let ghost v1 = table@.value_at(config.public(1));
        let ghost n = nrows as int;
        let ghost ops = assign_plan(config, v0, v1, n);
        let ghost rest = enable_ops(config, 1, n) + (seed_ops(config, 0, v0) + (seed_ops(
            config,
            1,
            v1,
        ) + rows_ops(config, v0, v1, 2, n)));
        if nrows > 2 {
            proof {
                lemma_run_split(table@, ops, 1);
                lemma_run_one(table@, Op::Enable(config.selector, 0));
                assert(ops.take(1) =~= seq![Op::Enable(config.selector, 0)]);
                assert(ops.skip(1) =~= rest);
            }
            table.enable_selector(self.config.selector, 0)?;
        } else {
            proof {
                assert(ops =~= rest);
            }
        }
        let ghost ops = rest;
        let ghost rest = seed_ops(config, 0, v0) + (seed_ops(config, 1, v1) + rows_ops(
            config,
            v0,
            v1,
            2,
            n,
        ));
        if nrows > 3 {
            proof {
                lemma_run_split(table@, ops, 1);
                lemma_run_one(table@, Op::Enable(config.selector, 1));
                assert(ops.take(1) =~= seq![Op::Enable(config.selector, 1)]);
                assert(ops.skip(1) =~= rest);
            }
            table.enable_selector(self.config.selector, 1)?;
        } else {
            proof {
                assert(ops =~= rest);
            }
        }
        let ghost ops = rest;
        let ghost rest = seed_ops(config, 1, v1) + rows_ops(config, v0, v1, 2, n);
        let ghost before = table@;
        proof {
            assert(table@.value_at(config.public(0)) == v0);
            assert(table@.value_at(config.public(1)) == v1);
            lemma_run_split(table@, ops, 2);
            assert(ops.take(2) =~= seed_ops(config, 0, v0));
            assert(ops.skip(2) =~= rest);
            lemma_run_two(
                table@,
                Op::Assign(config.cell(0), v0),
                Op::Copy(config.cell(0), config.public(0)),
            );
        }
        let mut a_cell = table.assign_advice_from_instance(
            self.config.instance,
            0,
            self.config.advice,
            0,
        )?;
        let ghost ops = rest;
        let ghost rest = rows_ops(config, v0, v1, 2, n);
        proof {
            let mid = before.apply(Op::Assign(config.cell(0), v0))->Ok_0;
            lemma_value_kept(before, Op::Assign(config.cell(0), v0), config.public(1));
            lemma_value_kept(mid, Op::Copy(config.cell(0), config.public(0)), config.public(1));
            assert(table@.value_at(config.public(1)) == v1);
            lemma_run_split(table@, ops, 2);
            assert(ops.take(2) =~= seed_ops(config, 1, v1));
            assert(ops.skip(2) =~= rest);
        }
        let mut b_cell = table.assign_advice_from_instance(
            self.config.instance,
            1,
            self.config.advice,
            1,
        )?;
        proof {
            assert(witness_term(v0, v1, 1) == v0);
            assert(witness_term(v0, v1, 2) == v1);
        }
        let mut row: usize = 2;
        while row < nrows
            invariant
                2 <= row,
                row <= nrows || row == 2,
                self.config() == config,
                n == nrows as int,
                v0 == old(table)@.value_at(config.public(0)),
                v1 == old(table)@.value_at(config.public(1)),
                table@.wf(),
                old(table)@.run(assign_plan(config, v0, v1, n)) == table@.run(
                    rows_ops(config, v0, v1, row as int, n),
                ),
                a_cell@ == (config.cell(row - 2), witness_term(v0, v1, (row - 1) as nat)),
                b_cell@ == (config.cell(row - 1), witness_term(v0, v1, row as nat)),
            decreases nrows - row,
        {
            let ghost ops = rows_ops(config, v0, v1, row as int, n);
            let ghost later = rows_ops(config, v0, v1, row + 1, n);
            let ghost write = Op::Assign(
                config.cell(row as int),
                witness_term(v0, v1, (row + 1) as nat),
            );
            proof {
                assert(ops =~= enable_ops(config, row as int, n) + (seq![write] + later));
            }
            if nrows - row > 2 {
                proof {
                    lemma_run_split(table@, ops, 1);
                    lemma_run_one(table@, Op::Enable(config.selector, row as int));
                    assert(ops.take(1) =~= seq![Op::Enable(config.selector, row as int)]);
                    assert(ops.skip(1) =~= seq![write] + later);
                }
                table.enable_selector(self.config.selector, row)?;
            } else {
                proof {
                    assert(ops =~= seq![write] + later);
                }
            }
            let ghost ops = seq![write] + later;
            proof {
                lemma_run_split(table@, ops, 1);
                lemma_run_one(table@, write);
                assert(ops.take(1) =~= seq![write]);
                assert(ops.skip(1) =~= later);
            }
            let c_val = a_cell.value.add(&b_cell.value);
            let c_cell = table.assign_advice(self.config.advice, row, c_val)?;
            a_cell = b_cell;
            b_cell = c_cell;
            row += 1;
        }
        proof {
            assert(rows_ops(config, v0, v1, row as int, n) =~= Seq::<Op>::empty());
        }
        Ok(b_cell)
    }

    /// Binds a cell to a row of the instance column. Binding the same cell
    /// to the same row again changes nothing.
    pub fn expose_public(&self, table: &mut Table, cell: AssignedCell, row: usize) -> (r: Result<
        (),
        Error,
    >)
        ensures
            final(table)@.wf(),
            (final(table)@, failure(r)) == old(table)@.run(
                seq![Op::Copy(cell.cell@, self.config().public(row as int))],
            ),
    {
        proof {
            lemma_run_one(table@, Op::Copy(cell.cell@, self.config().public(row as int)));
        }
        table.constrain_instance(cell.cell, self.config.instance, row)
    }
}

/// The rows of the table that `MyCircuit::check` fills: room for the rows of
/// the column and for the three public inputs.
pub open spec fn table_rows(nrows: nat) -> nat {
    if nrows < 3 {
        3
    } else {
        nrows
    }
}

/// The circuit: the number of rows to fill. Its seeds are public, so it
/// holds no witness of its own.
#[derive(Clone, Copy, Debug)]
pub struct MyCircuit {
    pub nrows: usize,
}

impl MyCircuit {
    /// The same circuit: there is no witness to leave out.
    pub fn without_witnesses(&self) -> (r: MyCircuit)
        ensures
            r == *self,
    {
        MyCircuit { nrows: self.nrows }
    }

    /// Allocates an advice column and an instance column and configures the
    /// chip on them.
    pub fn configure(cs: &mut ConstraintSystem) -> (config: FiboConfig)
        requires
            old(cs)@.num_advice < usize::MAX,
            old(cs)@.num_instance < usize::MAX,
            old(cs)@.num_selectors < usize::MAX,
        ensures
            config == fresh_config(old(cs)@),
            final(cs)@ == configured(
                (ConstraintSystemModel {
                    num_advice: old(cs)@.num_advice + 1,
                    num_instance: old(cs)@.num_instance + 1,
                    ..old(cs)@
                }),
                config,
            ),
    {
        let advice = cs.advice_column();
        let instance = cs.instance_column();
        FiboChip::configure(cs, advice, instance)
    }

    /// Fills the table: the column, and its last row bound to row 2 of the
    /// instance column. The table is left as the last write that succeeded
    /// left it.
    pub fn synthesize(&self, config: FiboConfig, table: &mut Table) -> (r: Result<(), Error>)
        ensures
            final(table)@.wf(),
            (final(table)@, failure(r)) == old(table)@.run(
                plan(
                    config,
                    old(table)@.value_at(config.public(0)),
                    old(table)@.value_at(config.public(1)),
                    self.nrows as int,
                ),
            ),
    {
        let chip = FiboChip::construct(config);
        let ghost v0 = table@.value_at(config.public(0));
        let ghost v1 = table@.value_at(config.public(1));
        let ghost ops = plan(config, v0, v1, self.nrows as int);
        let ghost first = assign_plan(config, v0, v1, self.nrows as int);
        proof {
            lemma_run_split(table@, ops, first.len() as int);
            assert(ops.take(first.len() as int) =~= first);
            assert(ops.skip(first.len() as int) =~= seq![
                Op::Copy(config.cell(last_row(self.nrows as int)), config.public(2)),
            ]);
        }
        let out_cell = chip.assign(table, self.nrows)?;
        chip.expose_public(table, out_cell, 2)
    }

    /// One witness cycle: configures a new constraint system, fills an empty
    /// table over it that declares the given public inputs, and asks the
    /// oracle. With at least three rows and three public inputs, the table
    /// is accepted exactly when the third public input is term `nrows` of
    /// the sequence that starts with the first two; where a seed was not
    /// declared, the cycle stops with a missing witness.
    pub fn check(&self, public: Vec<Fe>) -> (r: Result<(), Error>)
        ensures
            ({
                let start = TableModel::empty(
                    standard_cs(),
                    table_rows(self.nrows as nat),
                    seq![values_of(public@)],
                );
                r == outcome(
                    start.run(
                        plan(
                            standard_config(),
                            start.value_at(standard_config().public(0)),
                            start.value_at(standard_config().public(1)),
                            self.nrows as int,
                        ),
                    ),
                )
            }),
            self.nrows >= 3 && public@.len() < 2 ==> r == Err::<(), Error>(Error::MissingWitness),
            self.nrows >= 3 && public@.len() >= 3 ==> r == verdict_if(
                public@[2]@ == term(public@[0]@, public@[1]@, self.nrows as nat) % modulus(),
            ),
    {
        let mut cs = ConstraintSystem::new();
        let config = MyCircuit::configure(&mut cs);
        let rows: usize = if self.nrows < 3 {
            3
        } else {
            self.nrows
        };
        let ghost inputs = seq![values_of(public@)];
        if public.len() >= 3 {
            let first = public[0];
            let second = public[1];
            proof {
                use_type_invariant(&first);
                use_type_invariant(&second);
                lemma_canonical(first);
                lemma_canonical(second);
                if self.nrows >= 3 {
                    lemma_circuit_sound(self.nrows as nat, rows as nat, inputs);
                }
            }
        }
        proof {
            if self.nrows >= 3 && public@.len() < 2 {
                lemma_unknown_seed(self.nrows as nat, rows as nat, inputs);
            }
        }
        let mut instance: Vec<Vec<Fe>> = Vec::new();
        instance.push(public);
        proof {
            assert(cs@.equality =~= standard_cs().equality);
            assert(public_inputs(instance@) =~= inputs);
        }
        let mut table = Table::new(&cs, rows, instance);
        match self.synthesize(config, &mut table) {
            Ok(()) => table.verify(),
            Err(e) => Err(e),
        }
    }
}

} // verus!
