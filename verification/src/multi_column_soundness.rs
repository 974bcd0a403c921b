//! What the three-column circuit produces on an empty table over its own
//! configuration: every write succeeds, the last sum is the term asked for,
//! and the table is accepted exactly when the public inputs are the two
//! seeds and that term.

use crate::field::{field_add, lemma_sum_constraint, modulus};
use crate::gate::{
    lemma_add_poly_queries, lemma_queries_of_one, Column, ColumnKind, Error, Pos, Selector,
};
use crate::multi_column::{
    cur, exposed_plan, first_row_ops, output_exposure, private_plan, row_ops, rows, rows_ops,
    seed_exposure, standard_config, standard_cs, step_ops,
};
use crate::oracle::{
    lemma_add_poly_eval, lemma_assign_keeps_copies, lemma_binding_verdict, lemma_copies_known,
    lemma_enable_keeps_copies,
};
use crate::recurrence::{known_term, lemma_known_term_step, term};
use crate::table_model::{
    lemma_assign_preserves, lemma_constrain_preserves, lemma_empty_wf, lemma_enable_preserves,
    lemma_run_concat, lemma_run_preserves, target, Op, TableModel,
};
use vstd::prelude::*;

verus! {

/// The table holds exactly the first `k` rows of the circuit: row `i` holds
/// terms `i + 1`, `i + 2` and `i + 3`, and the selector is enabled at each of
/// them.
pub open spec fn filled(t: TableModel, a: nat, b: nat, k: int) -> bool {
    let config = standard_config();
    &&& t.wf()
    &&& t.cs == standard_cs()
    &&& k <= t.num_rows
    &&& forall|p: Pos| #[trigger]
        t.advice.dom().contains(p) <==> (p.0.kind == ColumnKind::Advice && p.0.index < 3 && 0 <= p.1
            < k)
    &&& forall|i: int|
        0 <= i < k ==> {
            &&& #[trigger] t.advice[config.a(i)] == Some(known_term(a, b, i + 1))
            &&& t.advice[config.b(i)] == Some(known_term(a, b, i + 2))
            &&& t.advice[config.c(i)] == Some(known_term(a, b, i + 3))
        }
    &&& forall|s: Selector, row: int| #[trigger]
        t.enabled.contains((s, row)) <==> (s == config.selector && 0 <= row < k)
}

/// What the standard constraint system declares.
pub proof fn lemma_standard()
    ensures
        standard_cs().gates.len() == 1,
        standard_cs().gates[0] == standard_config().gate(),
        standard_config().gate().queries() == seq![
            cur(standard_config().advice[0]),
            cur(standard_config().advice[1]),
            cur(standard_config().advice[2]),
        ],
        standard_config().advice[0] == (Column { kind: ColumnKind::Advice, index: 0 }),
        standard_config().advice[1] == (Column { kind: ColumnKind::Advice, index: 1 }),
        standard_config().advice[2] == (Column { kind: ColumnKind::Advice, index: 2 }),
        standard_config().instance == (Column { kind: ColumnKind::Instance, index: 0 }),
        standard_config().selector == (Selector { index: 0 }),
        standard_cs().num_advice == 3,
        standard_cs().num_instance == 1,
        standard_cs().num_selectors == 1,
        standard_cs().equality.contains(standard_config().advice[0]),
        standard_cs().equality.contains(standard_config().advice[1]),
        standard_cs().equality.contains(standard_config().advice[2]),
        standard_cs().equality.contains(standard_config().instance),
{
    let config = standard_config();
    lemma_queries_of_one(config.gate().polys[0]);
    lemma_add_poly_queries(
        config.selector,
        cur(config.advice[0]),
        cur(config.advice[1]),
        cur(config.advice[2]),
    );
    assert(config.gate().polys =~= seq![config.gate().polys[0]]);
}

/// Over the standard constraint system, the selector can be enabled at
/// every row of the table at which none of the three cells holds a value
/// that is not known.
pub proof fn lemma_enable(t: TableModel, row: int)
    requires
        t.cs == standard_cs(),
        0 <= row < t.num_rows,
        !t.holds_unknown(standard_config().a(row)),
        !t.holds_unknown(standard_config().b(row)),
        !t.holds_unknown(standard_config().c(row)),
    ensures
        t.enable_selector(standard_config().selector, row) == Ok::<TableModel, Error>(
            TableModel { enabled: t.enabled.insert((standard_config().selector, row)), ..t },
        ),
{
    let config = standard_config();
    lemma_standard();
    let gate = config.gate();
    assert forall|k: int| 0 <= k < gate.queries().len() implies t.in_table(
        #[trigger] target(row, gate.queries()[k]),
    ) && !t.holds_unknown(target(row, gate.queries()[k])) by {
        assert(k == 0 || k == 1 || k == 2);
    }
    assert(t.window_in_bounds(gate, row));
    assert(!t.window_unknown(gate, row));
    assert(!t.selector_out_of_bounds(config.selector, row));
    assert(!t.selector_unknown(config.selector, row));
}

/// On a table over the standard constraint system whose row 0 is empty,
/// the writes of the first row with known seeds all succeed.
pub proof fn lemma_first_row(t: TableModel, a: nat, b: nat)
    requires
        t.wf(),
        t.cs == standard_cs(),
        0 < t.num_rows,
        !t.advice.dom().contains(standard_config().a(0)),
        !t.advice.dom().contains(standard_config().b(0)),
        !t.advice.dom().contains(standard_config().c(0)),
    ensures
        ({
            let config = standard_config();
            let (after, failed) = t.run(first_row_ops(config, Some(a), Some(b)));
            &&& failed is None
            &&& after.wf()
            &&& after == TableModel {
                enabled: t.enabled.insert((config.selector, 0)),
                advice: t.advice.insert(config.a(0), Some(a)).insert(config.b(0), Some(b)).insert(
                    config.c(0),
                    Some(field_add(a, b)),
                ),
                ..t
            }
            &&& after.copies_broken() == t.copies_broken()
        }),
{
    let config = standard_config();
    lemma_standard();
    let ops = first_row_ops(config, Some(a), Some(b));
    lemma_run_preserves(t, ops);
    lemma_enable(t, 0);
    lemma_enable_keeps_copies(t, config.selector, 0);
    lemma_enable_preserves(t, config.selector, 0);
    let t1 = t.apply(ops[0])->Ok_0;
    let r1 = ops.drop_first();
    assert(t.run(ops) == t1.run(r1));
    assert(r1[0] == ops[1]);
    lemma_assign_keeps_copies(t1, config.a(0), Some(a));
    lemma_assign_preserves(t1, config.a(0), Some(a));
    let t2 = t1.apply(r1[0])->Ok_0;
    let r2 = r1.drop_first();
    assert(t1.run(r1) == t2.run(r2));
    assert(r2[0] == ops[2]);
    lemma_assign_keeps_copies(t2, config.b(0), Some(b));
    lemma_assign_preserves(t2, config.b(0), Some(b));
    let t3 = t2.apply(r2[0])->Ok_0;
    let r3 = r2.drop_first();
    assert(t2.run(r2) == t3.run(r3));
    assert(r3[0] == ops[3]);
    lemma_assign_keeps_copies(t3, config.c(0), Some(field_add(a, b)));
    let t4 = t3.apply(r3[0])->Ok_0;
    let r4 = r3.drop_first();
    assert(t3.run(r3) == t4.run(r4));
    assert(r4.len() == 0);
}

/// On a table over the standard constraint system, the writes of a row
/// that is still empty all succeed where the two cells to copy hold known
/// values in columns with equality enabled, and they leave no new copy
/// constraint broken.
pub proof fn lemma_row(
    t: TableModel,
    row: int,
    prev_b: Pos,
    prev_c: Pos,
    x: nat,
    y: nat,
)
    requires
        t.wf(),
        t.cs == standard_cs(),
        0 <= row < t.num_rows,
        !t.advice.dom().contains(standard_config().a(row)),
        !t.advice.dom().contains(standard_config().b(row)),
        !t.advice.dom().contains(standard_config().c(row)),
        t.in_table(prev_b),
        t.in_table(prev_c),
        t.cs.equality.contains(prev_b.0),
        t.cs.equality.contains(prev_c.0),
        t.value_at(prev_b) == Some(x),
        t.value_at(prev_c) == Some(y),
    ensures
        ({
            let config = standard_config();
            let (after, failed) = t.run(
                step_ops(config, row, (prev_b, Some(x)), (prev_c, Some(y))),
            );
            &&& failed is None
            &&& after.wf()
            &&& after.cs == t.cs
            &&& after.num_rows == t.num_rows
            &&& after.instance == t.instance
            &&& after.enabled == t.enabled.insert((config.selector, row))
            &&& after.advice == t.advice.insert(config.a(row), Some(x)).insert(
                config.b(row),
                Some(y),
            ).insert(config.c(row), Some(field_add(x, y)))
            &&& after.copies_broken() == t.copies_broken()
        }),
{
    let config = standard_config();
    lemma_standard();
    let ops = step_ops(config, row, (prev_b, Some(x)), (prev_c, Some(y)));
    lemma_run_preserves(t, ops);
    lemma_enable(t, row);
    lemma_enable_keeps_copies(t, config.selector, row);
    lemma_enable_preserves(t, config.selector, row);
    let t1 = t.apply(ops[0])->Ok_0;
    let r1 = ops.drop_first();
    assert(t.run(ops) == t1.run(r1));
    assert(r1[0] == ops[1]);
    lemma_assign_keeps_copies(t1, config.a(row), Some(x));
    lemma_assign_preserves(t1, config.a(row), Some(x));
    let t2 = t1.apply(r1[0])->Ok_0;
    let r2 = r1.drop_first();
    assert(t1.run(r1) == t2.run(r2));
    assert(r2[0] == ops[2]);
    assert(t2.value_at(prev_b) == Some(x));
    assert(t2.value_at(config.a(row)) == Some(x));
    lemma_binding_verdict(t2, config.a(row), prev_b);
    lemma_constrain_preserves(t2, config.a(row), prev_b);
    let t3 = t2.apply(r2[0])->Ok_0;
    let r3 = r2.drop_first();
    assert(t2.run(r2) == t3.run(r3));
    assert(r3[0] == ops[3]);
    assert(t3.advice == t2.advice);
    lemma_assign_keeps_copies(t3, config.b(row), Some(y));
    lemma_assign_preserves(t3, config.b(row), Some(y));
    let t4 = t3.apply(r3[0])->Ok_0;
    let r4 = r3.drop_first();
    assert(t3.run(r3) == t4.run(r4));
    assert(r4[0] == ops[4]);
    assert(t4.value_at(prev_c) == Some(y));
    assert(t4.value_at(config.b(row)) == Some(y));
    lemma_binding_verdict(t4, config.b(row), prev_c);
    lemma_constrain_preserves(t4, config.b(row), prev_c);
    let t5 = t4.apply(r4[0])->Ok_0;
    let r5 = r4.drop_first();
    assert(t4.run(r4) == t5.run(r5));
    assert(r5[0] == ops[5]);
    assert(t5.advice == t4.advice);
    lemma_assign_keeps_copies(t5, config.c(row), Some(field_add(x, y)));
    let t6 = t5.apply(r5[0])->Ok_0;
    let r6 = r5.drop_first();
    assert(t5.run(r5) == t6.run(r6));
    assert(r6.len() == 0);
}

/// From a table that holds the first `from` rows, the writes of the rows up
/// to `to` all succeed and give the table that holds the first `to` rows;
/// no copy constraint that they make is broken.
pub proof fn lemma_rows(t: TableModel, a: nat, b: nat, from: int, to: int)
    requires
        a < modulus(),
        b < modulus(),
        1 <= from <= to <= t.num_rows,
        filled(t, a, b, from),
    ensures
        ({
            let config = standard_config();
            let (after, failed) = t.run(rows_ops(config, Some(a), Some(b), from, to));
            &&& failed is None
            &&& filled(after, a, b, to)
            &&& after.instance == t.instance
            &&& after.num_rows == t.num_rows
            &&& after.copies_broken() == t.copies_broken()
        }),
    decreases to - from,
{
    let config = standard_config();
    if from < to {
        lemma_standard();
        lemma_known_term_step(a, b, from + 3);
        lemma_known_term_step(a, b, from + 2);
        let x = known_term(a, b, from + 1);
        let y = known_term(a, b, from + 2);
        let step = row_ops(config, Some(a), Some(b), from);
        let later = rows_ops(config, Some(a), Some(b), from + 1, to);
        assert(step == step_ops(
            config,
            from,
            (config.b(from - 1), Some(x)),
            (config.c(from - 1), Some(y)),
        ));
        assert(t.advice.dom().contains(config.b(from - 1)));
        assert(t.advice.dom().contains(config.c(from - 1)));
        assert(t.advice[config.a(from - 1)] == Some(known_term(a, b, from)));
        lemma_row(t, from, config.b(from - 1), config.c(from - 1), x, y);
        let next = t.run(step).0;
        assert(filled(next, a, b, from + 1)) by {
            assert forall|i: int| 0 <= i < from + 1 implies {
                &&& #[trigger] next.advice[config.a(i)] == Some(known_term(a, b, i + 1))
                &&& next.advice[config.b(i)] == Some(known_term(a, b, i + 2))
                &&& next.advice[config.c(i)] == Some(known_term(a, b, i + 3))
            } by {
                if i < from {
                    assert(t.advice[config.a(i)] == Some(known_term(a, b, i + 1)));
                }
            }
        }
        lemma_rows(next, a, b, from + 1, to);
        lemma_run_concat(t, step, later);
    }
}

/// Where the three cells that the addition gate reads at a row hold terms
/// `n`, `n + 1` and `n + 2`, its constraint is zero there.
pub proof fn lemma_row_holds(t: TableModel, a: nat, b: nat, row: int)
    requires
        a < modulus(),
        b < modulus(),
        0 <= row,
        t.value_at(standard_config().a(row)) == Some(known_term(a, b, row + 1)),
        t.value_at(standard_config().b(row)) == Some(known_term(a, b, row + 2)),
        t.value_at(standard_config().c(row)) == Some(known_term(a, b, row + 3)),
    ensures
        t.eval(standard_config().gate().polys[0], row) == Some(0nat),
{
    let config = standard_config();
    lemma_known_term_step(a, b, row + 3);
    lemma_add_poly_eval(
        t,
        config.selector,
        cur(config.advice[0]),
        cur(config.advice[1]),
        cur(config.advice[2]),
        row,
    );
    let s = if t.enabled.contains((config.selector, row)) {
        1nat
    } else {
        0nat
    };
    lemma_sum_constraint(
        s,
        known_term(a, b, row + 1),
        known_term(a, b, row + 2),
        known_term(a, b, row + 3),
    );
}

/// In a table that holds the first `k` rows, the addition gate holds at
/// every row: the oracle finds no gate that lacks a value or is broken.
pub proof fn lemma_gates_hold(t: TableModel, a: nat, b: nat, k: int)
    requires
        a < modulus(),
        b < modulus(),
        filled(t, a, b, k),
    ensures
        !t.gates_missing(),
        !t.gates_broken(),
{
    let config = standard_config();
    lemma_standard();
    assert forall|i: int, row: int|
        0 <= i < t.cs.gates.len() && 0 <= row < t.num_rows implies !t.gate_missing(i, row)
        && !t.gate_broken(i, row) by {
        if t.enabled.contains((t.cs.gates[i].selector, row)) {
            assert(i == 0);
            assert(0 <= row < k);
            assert(t.advice[config.a(row)] == Some(known_term(a, b, row + 1)));
            assert(t.advice.dom().contains(config.a(row)));
            assert(t.advice.dom().contains(config.b(row)));
            assert(t.advice.dom().contains(config.c(row)));
            lemma_row_holds(t, a, b, row);
            assert forall|j: int| 0 <= j < t.cs.gates[i].polys.len() implies !t.poly_missing(
                i,
                row,
                j,
            ) && !t.poly_broken(i, row, j) by {
                assert(j == 0);
            }
        }
    }
}

/// The three-column circuit is sound and complete on its own ground. On an
/// empty table over the standard constraint system that has room for the
/// rows and declares three public inputs, with known seeds and at least
/// three steps: every write succeeds; the last sum is term `steps` of the
/// sequence, reduced modulo the field order; and the table is accepted
/// exactly when the public inputs are the two seeds and that term, and is
/// rejected as a constraint violation otherwise.
pub proof fn lemma_circuit_sound(
    a: nat,
    b: nat,
    steps: nat,
    num_rows: nat,
    instance: Seq<Seq<nat>>,
)
    requires
        a < modulus(),
        b < modulus(),
        3 <= steps,
        rows(steps) <= num_rows,
        3 <= num_rows,
        instance.len() >= 1,
        instance[0].len() >= 3,
    ensures
        ({
            let config = standard_config();
            let start = TableModel::empty(standard_cs(), num_rows, instance);
            let (end, failed) = start.run(exposed_plan(config, Some(a), Some(b), steps));
            &&& failed is None
            &&& end.wf()
            &&& end.value_at(config.c(rows(steps) - 1)) == Some(term(a, b, steps) % modulus())
            &&& end.verdict() == if instance[0][0] == a && instance[0][1] == b && instance[0][2]
                == term(a, b, steps) % modulus() {
                Ok::<(), Error>(())
            } else {
                Err::<(), Error>(Error::ConstraintViolation)
            }
        }),
{
    let config = standard_config();
    lemma_standard();
    let cs = standard_cs();
    let start = TableModel::empty(cs, num_rows, instance);
    let total = rows(steps) as int;
    let first = first_row_ops(config, Some(a), Some(b));
    let seeds = seed_exposure(config);
    let later = rows_ops(config, Some(a), Some(b), 1, total);
    let output = output_exposure(config, steps);
    lemma_empty_wf(cs, num_rows, instance);
    lemma_known_term_step(a, b, 3);
    // The first row.
    lemma_first_row(start, a, b);
    let t1 = start.run(first).0;
    assert(filled(t1, a, b, 1));
    assert(!start.copies_broken());
    // The seeds are bound to rows 0 and 1 of the instance column.
    let bind_a = Op::Copy(config.a(0), config.public(0));
    let bind_b = Op::Copy(config.b(0), config.public(1));
    assert(seeds[0] == bind_a && seeds[1] == bind_b);
    assert(t1.value_at(config.a(0)) == Some(a));
    assert(t1.value_at(config.public(0)) == Some(instance[0][0]));
    lemma_binding_verdict(t1, config.a(0), config.public(0));
    lemma_constrain_preserves(t1, config.a(0), config.public(0));
    let t2 = t1.apply(bind_a)->Ok_0;
    assert(t2.advice == t1.advice);
    assert(t2.value_at(config.b(0)) == Some(b));
    assert(t2.value_at(config.public(1)) == Some(instance[0][1]));
    lemma_binding_verdict(t2, config.b(0), config.public(1));
    lemma_constrain_preserves(t2, config.b(0), config.public(1));
    let t3 = t2.apply(bind_b)->Ok_0;
    assert(t3.advice == t1.advice);
    crate::table_model::lemma_run_two(t1, bind_a, bind_b);
    assert(seeds =~= seq![bind_a, bind_b]);
    assert(t1.run(seeds) == (t3, None::<Error>));
    assert(filled(t3, a, b, 1));
    assert(t3.copies_broken() == (instance[0][0] != a || instance[0][1] != b));
    // The later rows.
    lemma_rows(t3, a, b, 1, total);
    let t4 = t3.run(later).0;
    // The last sum is bound to row 2 of the instance column.
    let last = config.c(total - 1);
    let bind_c = Op::Copy(last, config.public(2));
    lemma_known_term_step(a, b, total + 2);
    assert(t4.advice.dom().contains(last));
    assert(t4.advice[config.a(total - 1)] == Some(known_term(a, b, total)));
    assert(t4.value_at(last) == Some(known_term(a, b, steps as int)));
    assert(t4.value_at(config.public(2)) == Some(instance[0][2]));
    lemma_binding_verdict(t4, last, config.public(2));
    lemma_constrain_preserves(t4, last, config.public(2));
    let t5 = t4.apply(bind_c)->Ok_0;
    assert(t5.advice == t4.advice);
    assert(output =~= seq![bind_c]);
    crate::table_model::lemma_run_one(t4, bind_c);
    assert(t4.run(output) == (t5, None::<Error>));
    assert(filled(t5, a, b, total));
    // Put together.
    lemma_run_concat(t3, later, output);
    lemma_run_concat(t1, seeds, later + output);
    lemma_run_concat(start, first, seeds + (later + output));
    assert(start.run(exposed_plan(config, Some(a), Some(b), steps)) == (t5, None::<Error>));
    lemma_gates_hold(t5, a, b, total);
    lemma_copies_known(t5);
}

/// The three-column circuit that binds nothing to the instance column is
/// sound on its own ground. On an empty table over the standard constraint
/// system that has room for the rows, with known seeds and at least three
/// steps: every write succeeds, the last sum is term `steps` of the
/// sequence, reduced modulo the field order, and the table is accepted.
pub proof fn lemma_private_circuit_sound(
    a: nat,
    b: nat,
    steps: nat,
    num_rows: nat,
    instance: Seq<Seq<nat>>,
)
    requires
        a < modulus(),
        b < modulus(),
        3 <= steps,
        rows(steps) <= num_rows,
    ensures
        ({
            let config = standard_config();
            let start = TableModel::empty(standard_cs(), num_rows, instance);
            let (end, failed) = start.run(private_plan(config, Some(a), Some(b), steps));
            &&& failed is None
            &&& end.wf()
            &&& end.value_at(config.c(rows(steps) - 1)) == Some(term(a, b, steps) % modulus())
            &&& end.verdict() == Ok::<(), Error>(())
        }),
{
    let config = standard_config();
    lemma_standard();
    let cs = standard_cs();
    let start = TableModel::empty(cs, num_rows, instance);
    let total = rows(steps) as int;
    let first = first_row_ops(config, Some(a), Some(b));
    let later = rows_ops(config, Some(a), Some(b), 1, total);
    lemma_empty_wf(cs, num_rows, instance);
    lemma_known_term_step(a, b, 3);
    lemma_first_row(start, a, b);
    let t1 = start.run(first).0;
    assert(filled(t1, a, b, 1));
    assert(!start.copies_broken());
    lemma_rows(t1, a, b, 1, total);
    let t2 = t1.run(later).0;
    let last = config.c(total - 1);
    lemma_known_term_step(a, b, total + 2);
    assert(t2.advice.dom().contains(last));
    assert(t2.advice[config.a(total - 1)] == Some(known_term(a, b, total)));
    lemma_run_concat(start, first, later);
    lemma_gates_hold(t2, a, b, total);
    lemma_copies_known(t2);
}

/// A seed that is not known is never written. On an empty table over the
/// standard constraint system, the selector is enabled at row 0 first, and
/// the circuit then stops at the first seed that is not known with a
/// missing witness, before any later write.
pub proof fn lemma_unknown_seed(
    a: Option<nat>,
    b: Option<nat>,
    steps: nat,
    num_rows: nat,
    instance: Seq<Seq<nat>>,
)
    requires
        a is None || b is None,
        0 < num_rows,
    ensures
        ({
            let config = standard_config();
            let start = TableModel::empty(standard_cs(), num_rows, instance);
            let (end, failed) = start.run(exposed_plan(config, a, b, steps));
            &&& failed == Some(Error::MissingWitness)
            &&& start.run(private_plan(config, a, b, steps)) == (end, failed)
            &&& end.enabled.contains((config.selector, 0))
            &&& end.copies.len() == 0
            &&& forall|p: Pos| end.advice.dom().contains(p) ==> p == config.a(0) && a is Some
        }),
{
    let config = standard_config();
    lemma_standard();
    let cs = standard_cs();
    let start = TableModel::empty(cs, num_rows, instance);
    let ops = first_row_ops(config, a, b);
    let rest = seed_exposure(config) + (rows_ops(config, a, b, 1, rows(steps) as int)
        + output_exposure(config, steps));
    lemma_run_concat(start, ops, rest);
    lemma_run_concat(start, ops, rows_ops(config, a, b, 1, rows(steps) as int));
    lemma_enable(start, 0);
    let t1 = start.apply(ops[0])->Ok_0;
    let r1 = ops.drop_first();
    assert(start.run(ops) == t1.run(r1));
    assert(r1[0] == ops[1]);
    assert(target(0, config.gate().queries()[0]) == config.a(0));
    assert(target(0, config.gate().queries()[1]) == config.b(0));
    assert(t1.reads_enabled(0, 0, config.a(0)));
    assert(t1.reads_enabled(0, 1, config.b(0)));
    if a is Some {
        let t2 = t1.apply(r1[0])->Ok_0;
        let r2 = r1.drop_first();
        assert(t1.run(r1) == t2.run(r2));
        assert(r2[0] == ops[2]);
        assert(t2.reads_enabled(0, 1, config.b(0)));
        assert(t2.demanded(config.b(0)));
    } else {
        assert(t1.demanded(config.a(0)));
    }
}

} // verus!
