//! What the one-column circuit produces on an empty table over its own
//! configuration: every write succeeds, no window leaves the rows assigned,
//! the last row holds the term asked for, and the table is accepted exactly
//! when the third public input is that term.

use crate::field::{lemma_sum_constraint, modulus};
use crate::gate::{lemma_add_poly_queries, lemma_queries_of_one, Error, Pos, Selector};
use crate::oracle::{
    lemma_add_poly_eval, lemma_assign_keeps_copies, lemma_binding_verdict, lemma_copies_known,
    lemma_enable_keeps_copies,
};
use crate::recurrence::{known_term, lemma_known_term_step, term};
use crate::single_column::{
    assign_plan, below, enable_ops, last_row, plan, row_ops, rows_ops, seed_ops, standard_config,
    standard_cs,
};
use crate::table_model::{
    lemma_assign_preserves, lemma_constrain_preserves, lemma_empty_wf, lemma_enable_preserves,
    lemma_run_concat, lemma_run_one, lemma_run_two, target, Op, TableModel,
};
use vstd::prelude::*;

verus! {

/// The table holds exactly the first `k` of `n` rows of the circuit: row
/// `i` holds term `i + 1`, and the selector is enabled at each of these rows
/// from which a window fits in the `n` rows, and nowhere else.
pub open spec fn filled(t: TableModel, a: nat, b: nat, k: int, n: int) -> bool {
    let config = standard_config();
    &&& t.wf()
    &&& t.cs == standard_cs()
    &&& k <= n <= t.num_rows
    &&& forall|p: Pos| #[trigger]
        t.advice.dom().contains(p) <==> (p.0 == config.advice && 0 <= p.1 < k)
    &&& forall|i: int|
        0 <= i < k ==> #[trigger] t.advice[config.cell(i)] == Some(known_term(a, b, i + 1))
    &&& forall|s: Selector, row: int| #[trigger]
        t.enabled.contains((s, row)) <==> (s == config.selector && 0 <= row < k && row + 2 < n)
}

/// What the standard constraint system declares.
pub proof fn lemma_standard()
    ensures
        standard_cs().gates.len() == 1,
        standard_cs().gates[0] == standard_config().gate(),
        standard_config().gate().queries() == seq![
            below(standard_config().advice, 0),
            below(standard_config().advice, 1),
            below(standard_config().advice, 2),
        ],
        standard_cs().num_advice == 1,
        standard_cs().num_instance == 1,
        standard_cs().num_selectors == 1,
        standard_cs().equality.contains(standard_config().advice),
        standard_cs().equality.contains(standard_config().instance),
{
    let config = standard_config();
    lemma_queries_of_one(config.gate().polys[0]);
    lemma_add_poly_queries(
        config.selector,
        below(config.advice, 0),
        below(config.advice, 1),
        below(config.advice, 2),
    );
    assert(config.gate().polys =~= seq![config.gate().polys[0]]);
}

/// Over the standard constraint system, the selector can be enabled at
/// every row from which the window fits in the table and reads no cell that
/// holds a value that is not known.
pub proof fn lemma_enable(t: TableModel, row: int)
    requires
        t.cs == standard_cs(),
        0 <= row,
        row + 2 < t.num_rows,
        !t.holds_unknown(standard_config().cell(row)),
        !t.holds_unknown(standard_config().cell(row + 1)),
        !t.holds_unknown(standard_config().cell(row + 2)),
    ensures
        t.enable_selector(standard_config().selector, row) == Ok::<TableModel, Error>(
            TableModel { enabled: t.enabled.insert((standard_config().selector, row)), ..t },
        ),
{
    let config = standard_config();
    lemma_standard();
    let gate = config.gate();
    assert forall|k: int| 0 <= k < gate.queries().len() implies t.in_table(
        #[trigger] target(row, gate.queries()[k]),
    ) && !t.holds_unknown(target(row, gate.queries()[k])) by {
        assert(k == 0 || k == 1 || k == 2);
    }
    assert(t.window_in_bounds(gate, row));
    assert(!t.window_unknown(gate, row));
    assert(!t.selector_out_of_bounds(config.selector, row));
    assert(!t.selector_unknown(config.selector, row));
}

/// The writes that may enable the selector at a row succeed on a table
/// over the standard constraint system that holds no value that is not
/// known at the three rows.
pub proof fn lemma_enable_ops(t: TableModel, row: int, n: int)
    requires
        t.wf(),
        t.cs == standard_cs(),
        0 <= row,
        n <= t.num_rows,
        !t.holds_unknown(standard_config().cell(row)),
        !t.holds_unknown(standard_config().cell(row + 1)),
        !t.holds_unknown(standard_config().cell(row + 2)),
    ensures
        ({
            let config = standard_config();
            let (after, failed) = t.run(enable_ops(config, row, n));
            &&& failed is None
            &&& after.wf()
            &&& after == TableModel {
                enabled: if row + 2 < n {
                    t.enabled.insert((config.selector, row))
                } else {
                    t.enabled
                },
                ..t
            }
            &&& after.copies_broken() == t.copies_broken()
        }),
{
    let config = standard_config();
    if row + 2 < n {
        lemma_enable(t, row);
        lemma_enable_keeps_copies(t, config.selector, row);
        lemma_enable_preserves(t, config.selector, row);
        lemma_run_one(t, Op::Enable(config.selector, row));
    }
}

/// Over the standard constraint system, a seed row that is still empty can
/// be written with the public input of its row and bound to it, and the
/// new copy constraint is not broken.
pub proof fn lemma_seed(t: TableModel, row: int, value: nat)
    requires
        t.wf(),
        t.cs == standard_cs(),
        0 <= row < t.num_rows,
        !t.advice.dom().contains(standard_config().cell(row)),
        t.value_at(standard_config().public(row)) == Some(value),
    ensures
        ({
            let config = standard_config();
            let (after, failed) = t.run(seed_ops(config, row, Some(value)));
            &&& failed is None
            &&& after.wf()
            &&& after.advice == t.advice.insert(config.cell(row), Some(value))
            &&& after.enabled == t.enabled
            &&& after.cs == t.cs
            &&& after.num_rows == t.num_rows
            &&& after.instance == t.instance
            &&& after.copies_broken() == t.copies_broken()
        }),
{
    let config = standard_config();
    lemma_standard();
    let write = Op::Assign(config.cell(row), Some(value));
    let bind = Op::Copy(config.cell(row), config.public(row));
    lemma_run_two(t, write, bind);
    lemma_assign_keeps_copies(t, config.cell(row), Some(value));
    lemma_assign_preserves(t, config.cell(row), Some(value));
    let t1 = t.apply(write)->Ok_0;
    assert(t1.value_at(config.cell(row)) == Some(value));
    assert(t1.value_at(config.public(row)) == Some(value));
    lemma_binding_verdict(t1, config.cell(row), config.public(row));
    lemma_constrain_preserves(t1, config.cell(row), config.public(row));
    assert(seed_ops(config, row, Some(value)) =~= seq![write, bind]);
}

/// From a table that holds the first `from` rows, the writes of the rows up
/// to `n` all succeed and give the table that holds all `n` rows.
pub proof fn lemma_rows(t: TableModel, a: nat, b: nat, from: int, n: int)
    requires
        a < modulus(),
        b < modulus(),
        2 <= from <= n,
        filled(t, a, b, from, n),
    ensures
        ({
            let config = standard_config();
            let (after, failed) = t.run(rows_ops(config, Some(a), Some(b), from, n));
            &&& failed is None
            &&& filled(after, a, b, n, n)
            &&& after.instance == t.instance
            &&& after.num_rows == t.num_rows
            &&& after.copies_broken() == t.copies_broken()
        }),
    decreases n - from,
{
    let config = standard_config();
    if from < n {
        lemma_standard();
        lemma_known_term_step(a, b, from + 1);
        let value = known_term(a, b, from + 1);
        let write = Op::Assign(config.cell(from), Some(value));
        let step = row_ops(config, Some(a), Some(b), from, n);
        let later = rows_ops(config, Some(a), Some(b), from + 1, n);
        lemma_enable_ops(t, from, n);
        let t1 = t.run(enable_ops(config, from, n)).0;
        lemma_assign_keeps_copies(t1, config.cell(from), Some(value));
        lemma_assign_preserves(t1, config.cell(from), Some(value));
        lemma_run_one(t1, write);
        let next = t1.apply(write)->Ok_0;
        assert(step == enable_ops(config, from, n) + seq![write]);
        lemma_run_concat(t, enable_ops(config, from, n), seq![write]);
        assert(t.run(step) == (next, None::<Error>));
        assert(filled(next, a, b, from + 1, n)) by {
            assert forall|i: int| 0 <= i < from + 1 implies #[trigger] next.advice[config.cell(i)]
                == Some(known_term(a, b, i + 1)) by {
                if i < from {
                    assert(t.advice[config.cell(i)] == Some(known_term(a, b, i + 1)));
                }
            }
        }
        lemma_rows(next, a, b, from + 1, n);
        lemma_run_concat(t, step, later);
    }
}

/// In a table that holds all `n` rows, the addition gate holds at every
/// row: the oracle finds no gate that lacks a value or is broken.
pub proof fn lemma_gates_hold(t: TableModel, a: nat, b: nat, n: int)
    requires
        a < modulus(),
        b < modulus(),
        filled(t, a, b, n, n),
    ensures
        !t.gates_missing(),
        !t.gates_broken(),
{
    let config = standard_config();
    lemma_standard();
    assert forall|i: int, row: int|
        0 <= i < t.cs.gates.len() && 0 <= row < t.num_rows implies !t.gate_missing(i, row)
        && !t.gate_broken(i, row) by {
        if t.enabled.contains((t.cs.gates[i].selector, row)) {
            assert(i == 0);
            assert(0 <= row && row + 2 < n);
            assert(t.advice[config.cell(row)] == Some(known_term(a, b, row + 1)));
            assert(t.advice[config.cell(row + 1)] == Some(known_term(a, b, row + 2)));
            assert(t.advice[config.cell(row + 2)] == Some(known_term(a, b, row + 3)));
            assert(t.advice.dom().contains(config.cell(row)));
            assert(t.advice.dom().contains(config.cell(row + 1)));
            assert(t.advice.dom().contains(config.cell(row + 2)));
            lemma_known_term_step(a, b, row + 3);
            lemma_add_poly_eval(
                t,
                config.selector,
                below(config.advice, 0),
                below(config.advice, 1),
                below(config.advice, 2),
                row,
            );
            lemma_sum_constraint(
                1,
                known_term(a, b, row + 1),
                known_term(a, b, row + 2),
                known_term(a, b, row + 3),
            );
            assert forall|j: int| 0 <= j < t.cs.gates[i].polys.len() implies !t.poly_missing(
                i,
                row,
                j,
            ) && !t.poly_broken(i, row, j) by {
                assert(j == 0);
            }
        }
    }
}

/// The one-column circuit is sound and complete on its own ground. On an
/// empty table over the standard constraint system that has room for the
/// rows and declares three public inputs, the first two of them below the
/// field order, with at least three rows to fill: every write succeeds; the
/// last row holds term `nrows` of the sequence that starts with the first
/// two public inputs, reduced modulo the field order; and the table is
/// accepted exactly when the third public input is that term, and is
/// rejected as a constraint violation otherwise.
pub proof fn lemma_circuit_sound(
    nrows: nat,
    num_rows: nat,
    instance: Seq<Seq<nat>>,
)
    requires
        3 <= nrows <= num_rows,
        instance.len() >= 1,
        instance[0].len() >= 3,
        instance[0][0] < modulus(),
        instance[0][1] < modulus(),
    ensures
        ({
            let config = standard_config();
            let a = instance[0][0];
            let b = instance[0][1];
            let start = TableModel::empty(standard_cs(), num_rows, instance);
            let (end, failed) = start.run(plan(config, Some(a), Some(b), nrows as int));
            &&& start.value_at(config.public(0)) == Some(a)
            &&& start.value_at(config.public(1)) == Some(b)
            &&& failed is None
            &&& end.wf()
            &&& end.value_at(config.cell(nrows - 1)) == Some(term(a, b, nrows) % modulus())
            &&& end.verdict() == if instance[0][2] == term(a, b, nrows) % modulus() {
                Ok::<(), Error>(())
            } else {
                Err::<(), Error>(Error::ConstraintViolation)
            }
        }),
{
    let config = standard_config();
    lemma_standard();
    let a = instance[0][0];
    let b = instance[0][1];
    let n = nrows as int;
    let cs = standard_cs();
    let start = TableModel::empty(cs, num_rows, instance);
    lemma_empty_wf(cs, num_rows, instance);
    lemma_known_term_step(a, b, 3);
    let e0 = enable_ops(config, 0, n);
    let e1 = enable_ops(config, 1, n);
    let s0 = seed_ops(config, 0, Some(a));
    let s1 = seed_ops(config, 1, Some(b));
    let later = rows_ops(config, Some(a), Some(b), 2, n);
    let output = seq![Op::Copy(config.cell(last_row(n)), config.public(2))];
    assert(!start.copies_broken());
    lemma_enable_ops(start, 0, n);
    let t1 = start.run(e0).0;
    lemma_enable_ops(t1, 1, n);
    let t2 = t1.run(e1).0;
    lemma_seed(t2, 0, a);
    let t3 = t2.run(s0).0;
    assert(t3.value_at(config.public(1)) == Some(b));
    lemma_seed(t3, 1, b);
    let t4 = t3.run(s1).0;
    assert(filled(t4, a, b, 2, n));
    lemma_rows(t4, a, b, 2, n);
    let t5 = t4.run(later).0;
    let last = config.cell(n - 1);
    lemma_known_term_step(a, b, n);
    assert(t5.advice.dom().contains(last));
    assert(t5.advice[config.cell(n - 1)] == Some(known_term(a, b, n)));
    assert(t5.value_at(last) == Some(known_term(a, b, n)));
    assert(t5.value_at(config.public(2)) == Some(instance[0][2]));
    lemma_binding_verdict(t5, last, config.public(2));
    lemma_constrain_preserves(t5, last, config.public(2));
    lemma_run_one(t5, output[0]);
    let t6 = t5.apply(output[0])->Ok_0;
    assert(t6.advice == t5.advice);
    assert(filled(t6, a, b, n, n));
    lemma_run_concat(t3, s1, later);
    lemma_run_concat(t2, s0, s1 + later);
    lemma_run_concat(t1, e1, s0 + (s1 + later));
    lemma_run_concat(start, e0, e1 + (s0 + (s1 + later)));
    assert(start.run(assign_plan(config, Some(a), Some(b), n)) == (t5, None::<Error>));
    lemma_run_concat(start, assign_plan(config, Some(a), Some(b), n), output);
    assert(start.run(plan(config, Some(a), Some(b), n)) == (t6, None::<Error>));
    lemma_gates_hold(t6, a, b, n);
    lemma_copies_known(t6);
}

/// A seed that is not known is never written. On an empty table over the
/// standard constraint system with at least three rows to fill, the
/// selector is enabled at row 0 first, and the circuit then stops with a
/// missing witness at the first seed row whose public input was not
/// declared.
pub proof fn lemma_unknown_seed(
    nrows: nat,
    num_rows: nat,
    instance: Seq<Seq<nat>>,
)
    requires
        3 <= nrows <= num_rows,
        instance.len() == 0 || instance[0].len() < 2,
    ensures
        ({
            let config = standard_config();
            let start = TableModel::empty(standard_cs(), num_rows, instance);
            let v0 = start.value_at(config.public(0));
            let v1 = start.value_at(config.public(1));
            let (end, failed) = start.run(plan(config, v0, v1, nrows as int));
            &&& v0 is None || v1 is None
            &&& failed == Some(Error::MissingWitness)
            &&& end.enabled.contains((config.selector, 0))
            &&& forall|p: Pos| end.advice.dom().contains(p) ==> p == config.cell(0) && v0 is Some
        }),
{
    let config = standard_config();
    lemma_standard();
    let n = nrows as int;
    let cs = standard_cs();
    let start = TableModel::empty(cs, num_rows, instance);
    lemma_empty_wf(cs, num_rows, instance);
    let v0 = start.value_at(config.public(0));
    let v1 = start.value_at(config.public(1));
    let e0 = enable_ops(config, 0, n);
    let e1 = enable_ops(config, 1, n);
    let s0 = seed_ops(config, 0, v0);
    let s1 = seed_ops(config, 1, v1);
    let later = rows_ops(config, v0, v1, 2, n);
    let output = seq![Op::Copy(config.cell(last_row(n)), config.public(2))];
    lemma_enable_ops(start, 0, n);
    let t1 = start.run(e0).0;
    lemma_enable_ops(t1, 1, n);
    let t2 = t1.run(e1).0;
    assert(target(0, config.gate().queries()[0]) == config.cell(0));
    assert(target(0, config.gate().queries()[1]) == config.cell(1));
    assert(t2.reads_enabled(0, 0, config.cell(0)));
    assert(t2.reads_enabled(0, 1, config.cell(1)));
    lemma_run_two(t2, s0[0], s0[1]);
    assert(s0 =~= seq![s0[0], s0[1]]);
    if v0 is Some {
        lemma_seed(t2, 0, v0->Some_0);
        let t3 = t2.run(s0).0;
        assert(t3.reads_enabled(0, 1, config.cell(1)));
        assert(t3.demanded(config.cell(1)));
        lemma_run_two(t3, s1[0], s1[1]);
        assert(s1 =~= seq![s1[0], s1[1]]);
        assert(t3.run(s1) == (t3, Some(Error::MissingWitness)));
        lemma_run_concat(t3, s1, later);
    } else {
        assert(t2.demanded(config.cell(0)));
        assert(t2.run(s0) == (t2, Some(Error::MissingWitness)));
    }
    lemma_run_concat(t2, s0, s1 + later);
    lemma_run_concat(t1, e1, s0 + (s1 + later));
    lemma_run_concat(start, e0, e1 + (s0 + (s1 + later)));
    lemma_run_concat(start, assign_plan(config, v0, v1, n), output);
}

} // verus!
