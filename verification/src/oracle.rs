//! When a filled table is accepted: every enabled gate evaluates to zero on
//! known values, and every copy constraint binds two equal known values.

use crate::field::{field_add, field_mul, field_neg, lemma_view_injective, Fe, Value};
use crate::gate::{add_poly, gate_models, Cell, Error, Expression, Gate, Pos, Query, Selector};
use crate::table::Table;
use crate::table_model::{target, Op, TableModel};
use vstd::prelude::*;

verus! {

impl TableModel {
    /// The value of an expression at a row, where every cell that it reads
    /// holds a known value.
    pub open spec fn eval(self, e: Expression, row: int) -> Option<nat>
        decreases e,
    {
        match e {
            Expression::Constant(c) => Some(c@),
            Expression::Selector(s) => Some(
                if self.enabled.contains((s, row)) {
                    1nat
                } else {
                    0nat
                },
            ),
            Expression::Query(q) => self.value_at(target(row, q)),
            Expression::Negated(a) => match self.eval(*a, row) {
                Some(x) => Some(field_neg(x)),
                None => None,
            },
            Expression::Sum(a, b) => match (self.eval(*a, row), self.eval(*b, row)) {
                (Some(x), Some(y)) => Some(field_add(x, y)),
                _ => None,
            },
            Expression::Product(a, b) => match (self.eval(*a, row), self.eval(*b, row)) {
                (Some(x), Some(y)) => Some(field_mul(x, y)),
                _ => None,
            },
        }
    }

    /// Constraint `j` of gate `i` reads, from `row`, a cell without a known
    /// value.
    pub open spec fn poly_missing(self, i: int, row: int, j: int) -> bool {
        self.eval(self.cs.gates[i].polys[j], row) is None
    }

    /// Constraint `j` of gate `i` evaluates, at `row`, to something other
    /// than zero.
    pub open spec fn poly_broken(self, i: int, row: int, j: int) -> bool {
        self.eval(self.cs.gates[i].polys[j], row) matches Some(v) && v != 0
    }

    /// Gate `i` is enabled at `row` and lacks a known value there.
    pub open spec fn gate_missing(self, i: int, row: int) -> bool {
        self.enabled.contains((self.cs.gates[i].selector, row)) && exists|j: int|
            0 <= j < self.cs.gates[i].polys.len() && self.poly_missing(i, row, j)
    }

    /// Gate `i` is enabled at `row` and one of its constraints is not zero
    /// there. Where its selector is not enabled, a gate asks for nothing.
    pub open spec fn gate_broken(self, i: int, row: int) -> bool {
        self.enabled.contains((self.cs.gates[i].selector, row)) && exists|j: int|
            0 <= j < self.cs.gates[i].polys.len() && self.poly_broken(i, row, j)
    }

    /// Copy constraint `k` names a cell without a known value.
    pub open spec fn copy_missing(self, k: int) -> bool {
        self.value_at(self.copies[k].0) is None || self.value_at(self.copies[k].1) is None
    }

    /// Copy constraint `k` binds two known values that differ.
    pub open spec fn copy_broken(self, k: int) -> bool {
        !self.copy_missing(k) && self.value_at(self.copies[k].0) != self.value_at(
            self.copies[k].1,
        )
    }

    /// Some gate lacks a known value at some row of the table; the three
    /// that follow likewise, for a broken gate and for the copy constraints.
    pub open spec fn gates_missing(self) -> bool {
        exists|i: int, row: int|
            0 <= i < self.cs.gates.len() && 0 <= row < self.num_rows && self.gate_missing(i, row)
    }

    pub open spec fn gates_broken(self) -> bool {
        exists|i: int, row: int|
            0 <= i < self.cs.gates.len() && 0 <= row < self.num_rows && self.gate_broken(i, row)
    }

    pub open spec fn copies_missing(self) -> bool {
        exists|k: int| 0 <= k < self.copies.len() && self.copy_missing(k)
    }

    pub open spec fn copies_broken(self) -> bool {
        exists|k: int| 0 <= k < self.copies.len() && self.copy_broken(k)
    }

    /// Whether the table is accepted, and if not, why: a known value that is
    /// missing is reported before a constraint that does not hold.
    pub open spec fn verdict(self) -> Result<(), Error> {
        if self.gates_missing() || self.copies_missing() {
            Err(Error::MissingWitness)
        } else if self.gates_broken() || self.copies_broken() {
            Err(Error::ConstraintViolation)
        } else {
            Ok(())
        }
    }

    /// Every gate holds at every row where it is enabled, and every copy
    /// constraint binds two equal known values.
    pub open spec fn satisfied(self) -> bool {
        self.verdict() is Ok
    }
}

/// What a witness cycle gives: the error of the write that failed, or else
/// the verdict of the oracle on the table that the writes gave.
pub open spec fn outcome(run: (TableModel, Option<Error>)) -> Result<(), Error> {
    match run.1 {
        Some(e) => Err(e),
        None => run.0.verdict(),
    }
}

/// The verdict on a table whose only possible fault is a public input that
/// differs from the cell bound to it.
pub open spec fn verdict_if(agree: bool) -> Result<(), Error> {
    if agree {
        Ok(())
    } else {
        Err(Error::ConstraintViolation)
    }
}

/// The value of an expression does not depend on the copy constraints.
pub proof fn lemma_eval_ignores_copies(
    t: TableModel,
    copies: Seq<(Pos, Pos)>,
    e: Expression,
    row: int,
)
    ensures
        (TableModel { copies, ..t }).eval(e, row) == t.eval(e, row),
    decreases e,
{
    match e {
        Expression::Negated(a) => lemma_eval_ignores_copies(t, copies, *a, row),
        Expression::Sum(a, b) => {
            lemma_eval_ignores_copies(t, copies, *a, row);
            lemma_eval_ignores_copies(t, copies, *b, row);
        },
        Expression::Product(a, b) => {
            lemma_eval_ignores_copies(t, copies, *a, row);
            lemma_eval_ignores_copies(t, copies, *b, row);
        },
        _ => {},
    }
}

/// The value of the addition constraint: known where the three cells that
/// it reads hold known values, and then `selector * (a + b - c)` in the
/// field.
pub proof fn lemma_add_poly_eval(
    t: TableModel,
    selector: Selector,
    a: Query,
    b: Query,
    c: Query,
    row: int,
)
    ensures
        t.eval(add_poly(selector, a, b, c), row) == match (
            t.value_at(target(row, a)),
            t.value_at(target(row, b)),
            t.value_at(target(row, c)),
        ) {
            (Some(x), Some(y), Some(z)) => Some(
                field_mul(
                    if t.enabled.contains((selector, row)) {
                        1nat
                    } else {
                        0nat
                    },
                    field_add(field_add(x, y), field_neg(z)),
                ),
            ),
            _ => None,
        },
{
    reveal_with_fuel(TableModel::eval, 6);
}

/// Binding two cells changes what the oracle finds in one way only: the
/// new constraint is broken where the two cells hold different values. So a
/// table that was accepted is still accepted exactly when the cell and the
/// public input that it was bound to agree, and a mismatch is never
/// accepted.
pub proof fn lemma_binding_verdict(t: TableModel, a: Pos, b: Pos)
    requires
        t.wf(),
        t.constrain_equal(a, b) is Ok,
    ensures
        ({
            let after = t.constrain_equal(a, b)->Ok_0;
            &&& after.bound(a, b)
            &&& after.gates_missing() == t.gates_missing()
            &&& after.gates_broken() == t.gates_broken()
            &&& after.copies_missing() == t.copies_missing()
            &&& after.copies_broken() == (t.copies_broken() || t.value_at(a) != t.value_at(b))
            &&& t.satisfied() ==> (after.satisfied() <==> t.value_at(a) == t.value_at(b))
            &&& t.value_at(a) != t.value_at(b) ==> after.verdict() is Err
        }),
{
    let after = t.constrain_equal(a, b)->Ok_0;
    assert(after == TableModel { copies: after.copies, ..t });
    assert forall|i: int, row: int, j: int|
        after.poly_missing(i, row, j) == t.poly_missing(i, row, j) && after.poly_broken(i, row, j)
            == t.poly_broken(i, row, j) by {
        lemma_eval_ignores_copies(t, after.copies, t.cs.gates[i].polys[j], row);
    }
    assert forall|i: int, row: int|
        after.gate_missing(i, row) == t.gate_missing(i, row) && after.gate_broken(i, row)
            == t.gate_broken(i, row) by {
        if t.gate_missing(i, row) {
            let j = choose|j: int| 0 <= j < t.cs.gates[i].polys.len() && t.poly_missing(i, row, j);
            assert(after.poly_missing(i, row, j));
        }
        if after.gate_missing(i, row) {
            let j = choose|j: int|
                0 <= j < t.cs.gates[i].polys.len() && after.poly_missing(i, row, j);
            assert(t.poly_missing(i, row, j));
        }
        if t.gate_broken(i, row) {
            let j = choose|j: int| 0 <= j < t.cs.gates[i].polys.len() && t.poly_broken(i, row, j);
            assert(after.poly_broken(i, row, j));
        }
        if after.gate_broken(i, row) {
            let j = choose|j: int|
                0 <= j < t.cs.gates[i].polys.len() && after.poly_broken(i, row, j);
            assert(t.poly_broken(i, row, j));
        }
    }
    assert(after.gates_missing() == t.gates_missing()) by {
        if t.gates_missing() {
            let (i, row) = choose|i: int, row: int|
                0 <= i < t.cs.gates.len() && 0 <= row < t.num_rows && t.gate_missing(i, row);
            assert(after.gate_missing(i, row));
        }
        if after.gates_missing() {
            let (i, row) = choose|i: int, row: int|
                0 <= i < t.cs.gates.len() && 0 <= row < t.num_rows && after.gate_missing(i, row);
            assert(t.gate_missing(i, row));
        }
    }
    assert(after.gates_broken() == t.gates_broken()) by {
        if t.gates_broken() {
            let (i, row) = choose|i: int, row: int|
                0 <= i < t.cs.gates.len() && 0 <= row < t.num_rows && t.gate_broken(i, row);
            assert(after.gate_broken(i, row));
        }
        if after.gates_broken() {
            let (i, row) = choose|i: int, row: int|
                0 <= i < t.cs.gates.len() && 0 <= row < t.num_rows && after.gate_broken(i, row);
            assert(t.gate_broken(i, row));
        }
    }
    if t.bound(a, b) {
        assert(after == t);
    } else {
        assert(after.copies[t.copies.len() as int] == (a, b));
        assert forall|k: int| 0 <= k < t.copies.len() implies after.copies[k] == t.copies[k] by {}
    }
    assert(after.bound(a, b));
    let at = choose|k: int|
        0 <= k < after.copies.len() && (after.copies[k] == (a, b) || after.copies[k] == (b, a));
    assert(!after.copy_missing(at));
    assert(after.copy_broken(at) == (t.value_at(a) != t.value_at(b)));
    assert forall|k: int| 0 <= k < t.copies.len() implies after.copy_missing(k) == t.copy_missing(
        k,
    ) && after.copy_broken(k) == t.copy_broken(k) by {}
    assert(after.copies_missing() == t.copies_missing()) by {
        if t.copies_missing() {
            let k = choose|k: int| 0 <= k < t.copies.len() && t.copy_missing(k);
            assert(after.copy_missing(k));
        }
        if after.copies_missing() {
            let k = choose|k: int| 0 <= k < after.copies.len() && after.copy_missing(k);
            if k < t.copies.len() {
                assert(t.copy_missing(k));
            } else {
                assert(after.copies[k] == (a, b));
            }
        }
    }
    assert(after.copies_broken() == (t.copies_broken() || t.value_at(a) != t.value_at(b))) by {
        if t.copies_broken() {
            let k = choose|k: int| 0 <= k < t.copies.len() && t.copy_broken(k);
            assert(after.copy_broken(k));
        }
        if t.value_at(a) != t.value_at(b) {
            assert(after.copy_broken(at));
        }
        if after.copies_broken() {
            let k = choose|k: int| 0 <= k < after.copies.len() && after.copy_broken(k);
            if k < t.copies.len() {
                assert(t.copy_broken(k));
            } else {
                assert(after.copies[k] == (a, b));
            }
        }
    }
}

/// Enabling a selector changes nothing in what the oracle finds of the copy
/// constraints.
pub proof fn lemma_enable_keeps_copies(t: TableModel, selector: Selector, row: int)
    requires
        t.enable_selector(selector, row) is Ok,
    ensures
        t.enable_selector(selector, row)->Ok_0.copies_missing() == t.copies_missing(),
        t.enable_selector(selector, row)->Ok_0.copies_broken() == t.copies_broken(),
{
    let after = t.enable_selector(selector, row)->Ok_0;
    assert forall|k: int| 0 <= k < t.copies.len() implies after.copy_missing(k) == t.copy_missing(
        k,
    ) && after.copy_broken(k) == t.copy_broken(k) by {}
    if t.copies_missing() {
        let k = choose|k: int| 0 <= k < t.copies.len() && t.copy_missing(k);
        assert(after.copy_missing(k));
    }
    if after.copies_missing() {
        let k = choose|k: int| 0 <= k < after.copies.len() && after.copy_missing(k);
        assert(t.copy_missing(k));
    }
    if t.copies_broken() {
        let k = choose|k: int| 0 <= k < t.copies.len() && t.copy_broken(k);
        assert(after.copy_broken(k));
    }
    if after.copies_broken() {
        let k = choose|k: int| 0 <= k < after.copies.len() && after.copy_broken(k);
        assert(t.copy_broken(k));
    }
}

/// Writing an advice cell changes nothing in what the oracle finds of the
/// copy constraints: the cells that they bind hold known values already,
/// and a known value is never replaced.
pub proof fn lemma_assign_keeps_copies(t: TableModel, p: Pos, value: Option<nat>)
    requires
        t.wf(),
        t.assign_advice(p, value) is Ok,
    ensures
        t.assign_advice(p, value)->Ok_0.copies_missing() == t.copies_missing(),
        t.assign_advice(p, value)->Ok_0.copies_broken() == t.copies_broken(),
{
    let after = t.assign_advice(p, value)->Ok_0;
    assert forall|k: int| 0 <= k < t.copies.len() implies after.copy_missing(k) == t.copy_missing(
        k,
    ) && after.copy_broken(k) == t.copy_broken(k) by {
        assert(t.copy_well_formed(t.copies[k]));
    }
    if t.copies_missing() {
        let k = choose|k: int| 0 <= k < t.copies.len() && t.copy_missing(k);
        assert(after.copy_missing(k));
    }
    if after.copies_missing() {
        let k = choose|k: int| 0 <= k < after.copies.len() && after.copy_missing(k);
        assert(t.copy_missing(k));
    }
    if t.copies_broken() {
        let k = choose|k: int| 0 <= k < t.copies.len() && t.copy_broken(k);
        assert(after.copy_broken(k));
    }
    if after.copies_broken() {
        let k = choose|k: int| 0 <= k < after.copies.len() && after.copy_broken(k);
        assert(t.copy_broken(k));
    }
}

/// In a well-formed table no copy constraint lacks a known value.
pub proof fn lemma_copies_known(t: TableModel)
    requires
        t.wf(),
    ensures
        !t.copies_missing(),
{
    if t.copies_missing() {
        let k = choose|k: int| 0 <= k < t.copies.len() && t.copy_missing(k);
        assert(t.copy_well_formed(t.copies[k]));
    }
}

/// Binding two cells that are bound already changes nothing: binding twice,
/// in either order, gives the table that binding once gives.
pub proof fn lemma_binding_idempotent(t: TableModel, a: Pos, b: Pos)
    requires
        t.constrain_equal(a, b) is Ok,
    ensures
        t.constrain_equal(a, b)->Ok_0.constrain_equal(a, b) == t.constrain_equal(a, b),
        t.constrain_equal(a, b)->Ok_0.constrain_equal(b, a) == t.constrain_equal(a, b),
        t.run(seq![Op::Copy(a, b), Op::Copy(a, b)]) == t.run(seq![Op::Copy(a, b)]),
{
    let after = t.constrain_equal(a, b)->Ok_0;
    if !t.bound(a, b) {
        assert(after.copies[t.copies.len() as int] == (a, b));
    }
    assert(after.bound(a, b));
    crate::table_model::lemma_run_two(t, Op::Copy(a, b), Op::Copy(a, b));
    crate::table_model::lemma_run_one(t, Op::Copy(a, b));
}

/// A value that is not known, written to an advice cell of the table that
/// a gate reads from a row where it is enabled, is rejected as a missing
/// witness.
pub proof fn lemma_unknown_rejected(t: TableModel, i: int, k: int, row: int)
    requires
        0 <= i < t.cs.gates.len(),
        0 <= k < t.cs.gates[i].queries().len(),
        t.enabled.contains((t.cs.gates[i].selector, row)),
        target(row, t.cs.gates[i].queries()[k]).0.kind == crate::gate::ColumnKind::Advice,
        t.in_table(target(row, t.cs.gates[i].queries()[k])),
    ensures
        t.assign_advice(target(row, t.cs.gates[i].queries()[k]), None) == Err::<TableModel, Error>(
            Error::MissingWitness,
        ),
{
    let p = target(row, t.cs.gates[i].queries()[k]);
    assert(t.reads_enabled(i, k, p));
}

impl<'a> Table<'a> {
    /// Evaluates an expression at a row; `None` where it reads a cell
    /// without a known value.
    pub fn eval(&self, e: &Expression, row: usize) -> (r: Option<Fe>)
        ensures
            (match r {
                Some(v) => self@.eval(*e, row as int) == Some(v@),
                None => self@.eval(*e, row as int) is None,
            }),
        decreases e,
    {
        match e {
            Expression::Constant(c) => Some(*c),
            Expression::Selector(s) => {
                if self.is_enabled(*s, row) {
                    Some(Fe::one())
                } else {
                    Some(Fe::zero())
                }
            },
            Expression::Query(q) => {
                match self.target_cell(row, q) {
                    Some(cell) => self.known(cell),
                    None => None,
                }
            },
            Expression::Negated(a) => {
                match self.eval(a, row) {
                    Some(x) => Some(x.neg()),
                    None => None,
                }
            },
            Expression::Sum(a, b) => {
                match (self.eval(a, row), self.eval(b, row)) {
                    (Some(x), Some(y)) => Some(x.add(&y)),
                    _ => None,
                }
            },
            Expression::Product(a, b) => {
                match (self.eval(a, row), self.eval(b, row)) {
                    (Some(x), Some(y)) => Some(x.mul(&y)),
                    _ => None,
                }
            },
        }
    }

    /// The known value at a cell, if the table holds one there.
    pub fn known(&self, cell: Cell) -> (r: Option<Fe>)
        ensures
            (match r {
                Some(v) => self@.value_at(cell@) == Some(v@),
                None => self@.value_at(cell@) is None,
            }),
    {
        match self.slot(cell) {
            Some(Value::Known(v)) => Some(v),
            _ => None,
        }
    }

    /// Whether gate `i` lacks a known value at `row`, and whether one of its
    /// constraints is not zero there.
    fn check_row(&self, gate: &Gate, i: usize, row: usize) -> (r: (bool, bool))
        requires
            i < self@.cs.gates.len(),
            gate@ == self@.cs.gates[i as int],
        ensures
            r.0 == self@.gate_missing(i as int, row as int),
            r.1 == self@.gate_broken(i as int, row as int),
    {
        if !self.is_enabled(gate.selector, row) {
            return (false, false);
        }
        let mut missing = false;
        let mut broken = false;
        let mut j: usize = 0;
        while j < gate.polys.len()
            invariant
                j <= gate.polys@.len(),
                i < self@.cs.gates.len(),
                gate@ == self@.cs.gates[i as int],
                missing == (exists|n: int|
                    0 <= n < j && self@.poly_missing(i as int, row as int, n)),
                broken == (exists|n: int|
                    0 <= n < j && self@.poly_broken(i as int, row as int, n)),
            decreases gate.polys@.len() - j,
        {
            let found = self.eval(&gate.polys[j], row);
            assert(self@.poly_missing(i as int, row as int, j as int) == (found is None));
            assert(self@.poly_broken(i as int, row as int, j as int) == (found matches Some(v)
                && v@ != 0));
            match found {
                Some(v) => {
                    if !v.is_zero() {
                        broken = true;
                    }
                },
                None => {
                    missing = true;
                },
            }
            j += 1;
        }
        (missing, broken)
    }

    fn check_gate(&self, gate: &Gate, i: usize) -> (r: (bool, bool))
        requires
            i < self@.cs.gates.len(),
            gate@ == self@.cs.gates[i as int],
        ensures
            r.0 == (exists|row: int|
                0 <= row < self@.num_rows && self@.gate_missing(i as int, row)),
            r.1 == (exists|row: int|
                0 <= row < self@.num_rows && self@.gate_broken(i as int, row)),
    {
        let mut missing = false;
        let mut broken = false;
        let mut row: usize = 0;
        while row < self.num_rows()
            invariant
                row <= self@.num_rows,
                i < self@.cs.gates.len(),
                gate@ == self@.cs.gates[i as int],
                missing == (exists|n: int| 0 <= n < row && self@.gate_missing(i as int, n)),
                broken == (exists|n: int| 0 <= n < row && self@.gate_broken(i as int, n)),
            decreases self@.num_rows - row,
        {
            let found = self.check_row(gate, i, row);
            missing = missing || found.0;
            broken = broken || found.1;
            row += 1;
        }
        (missing, broken)
    }

    fn check_gates(&self) -> (r: (bool, bool))
        ensures
            r.0 == self@.gates_missing(),
            r.1 == self@.gates_broken(),
    {
        let gates = self.constraint_system().gates();
        let mut missing = false;
        let mut broken = false;
        let mut i: usize = 0;
        while i < gates.len()
            invariant
                i <= gates@.len(),
                gate_models(gates@) == self@.cs.gates,
                missing == (exists|n: int, row: int|
                    0 <= n < i && 0 <= row < self@.num_rows && self@.gate_missing(n, row)),
                broken == (exists|n: int, row: int|
                    0 <= n < i && 0 <= row < self@.num_rows && self@.gate_broken(n, row)),
            decreases gates@.len() - i,
        {
            assert(gates@[i as int]@ == self@.cs.gates[i as int]);
            let found = self.check_gate(&gates[i], i);
            missing = missing || found.0;
            broken = broken || found.1;
            i += 1;
        }
        (missing, broken)
    }

    fn check_copies(&self) -> (r: (bool, bool))
        ensures
            r.0 == self@.copies_missing(),
            r.1 == self@.copies_broken(),
    {
        let copies = self.copies();
        let mut missing = false;
        let mut broken = false;
        let mut k: usize = 0;
        while k < copies.len()
            invariant
                k <= copies@.len(),
                copies@.len() == self@.copies.len(),
                forall|n: int|
                    0 <= n < copies@.len() ==> (#[trigger] copies@[n]).0@ == self@.copies[n].0
                        && copies@[n].1@ == self@.copies[n].1,
                missing == (exists|n: int| 0 <= n < k && self@.copy_missing(n)),
                broken == (exists|n: int| 0 <= n < k && self@.copy_broken(n)),
            decreases copies@.len() - k,
        {
            let pair = copies[k];
            let left = self.known(pair.0);
            let right = self.known(pair.1);
            assert(self@.copy_missing(k as int) == (left is None || right is None));
            assert(self@.copy_broken(k as int) == (left matches Some(x) && right matches Some(y)
                && x@ != y@));
            match (left, right) {
                (Some(x), Some(y)) => {
                    proof {
                        lemma_view_injective(x, y);
                    }
                    if x != y {
                        broken = true;
                    }
                },
                _ => {
                    missing = true;
                },
            }
            k += 1;
        }
        (missing, broken)
    }

    /// Decides whether the table is accepted.
    pub fn verify(&self) -> (r: Result<(), Error>)
        ensures
            r == self@.verdict(),
    {
        let gates = self.check_gates();
        let copies = self.check_copies();
        if gates.0 || copies.0 {
            Err(Error::MissingWitness)
        } else if gates.1 || copies.1 {
            Err(Error::ConstraintViolation)
        } else {
            Ok(())
        }
    }
}

} // verus!
