//! The table as a mathematical object: which cells hold what, where the
//! selectors are enabled, which cells are bound together, and what each of
//! the three writes does to it.

use crate::constraint_system::ConstraintSystemModel;
use crate::field::witness_equal;
use crate::gate::{ColumnKind, Error, GateModel, Pos, Query, Selector};
use vstd::prelude::*;

verus! {

/// The position that a query reads when its gate is evaluated at `row`.
pub open spec fn target(row: int, q: Query) -> Pos {
    (q.column, row + q.rotation.0)
}

/// One write to a table.
pub enum Op {
    /// Enable a selector at a row.
    Enable(Selector, int),
    /// Write a witness value, or the lack of one, to an advice cell.
    Assign(Pos, Option<nat>),
    /// Bind two cells to hold the same value.
    Copy(Pos, Pos),
}

/// A table as contracts speak of it.
pub struct TableModel {
    /// What the constraint system under the table declares.
    pub cs: ConstraintSystemModel,
    /// The declared number of rows.
    pub num_rows: nat,
    /// The public inputs, one sequence for each instance column, from row 0.
    pub instance: Seq<Seq<nat>>,
    /// The advice cells written so far; `None` stands for a cell written
    /// without a known value.
    pub advice: Map<Pos, Option<nat>>,
    /// The rows at which each selector is enabled.
    pub enabled: Set<(Selector, int)>,
    /// The copy constraints, in the order in which they were first made.
    pub copies: Seq<(Pos, Pos)>,
}

impl TableModel {
    /// The table before any write.
    pub open spec fn empty(
        cs: ConstraintSystemModel,
        num_rows: nat,
        instance: Seq<Seq<nat>>,
    ) -> TableModel {
        TableModel {
            cs,
            num_rows,
            instance,
            advice: Map::empty(),
            enabled: Set::empty(),
            copies: Seq::empty(),
        }
    }

    /// Whether the position names a declared column and a declared row.
    pub open spec fn in_table(self, p: Pos) -> bool {
        self.cs.has_column(p.0) && 0 <= p.1 < self.num_rows
    }

    /// The public input declared for a position of an instance column.
    pub open spec fn declared(self, p: Pos) -> Option<nat> {
        if p.0.index < self.instance.len() && 0 <= p.1 < self.instance[p.0.index as int].len() {
            Some(self.instance[p.0.index as int][p.1])
        } else {
            None
        }
    }

    /// What the table holds at a position: `None` where nothing is held,
    /// `Some(None)` where the value is not known, `Some(Some(v))` where it is
    /// `v`. An instance cell of the table holds its declared public input, and
    /// is unknown where none was declared.
    pub open spec fn slot(self, p: Pos) -> Option<Option<nat>> {
        match p.0.kind {
            ColumnKind::Advice => if self.advice.dom().contains(p) {
                Some(self.advice[p])
            } else {
                None
            },
            ColumnKind::Instance => if self.in_table(p) {
                Some(self.declared(p))
            } else {
                None
            },
        }
    }

    /// The known value at a position, if there is one.
    pub open spec fn value_at(self, p: Pos) -> Option<nat> {
        match self.slot(p) {
            Some(Some(v)) => Some(v),
            _ => None,
        }
    }

    /// Whether the table holds, at the position, a value that is not known.
    pub open spec fn holds_unknown(self, p: Pos) -> bool {
        self.slot(p) == Some(None::<nat>)
    }

    /// Whether every cell that a gate reads from `row` lies in the table.
    pub open spec fn window_in_bounds(self, gate: GateModel, row: int) -> bool {
        forall|k: int|
            0 <= k < gate.queries().len() ==> self.in_table(
                #[trigger] target(row, gate.queries()[k]),
            )
    }

    /// Whether a gate reads, from `row`, a cell whose value is not known.
    pub open spec fn window_unknown(self, gate: GateModel, row: int) -> bool {
        exists|k: int|
            0 <= k < gate.queries().len() && self.holds_unknown(
                #[trigger] target(row, gate.queries()[k]),
            )
    }

    /// Whether a gate that is enabled somewhere reads the position.
    pub open spec fn demanded(self, p: Pos) -> bool {
        exists|i: int, k: int|
            0 <= i < self.cs.gates.len() && 0 <= k < self.cs.gates[i].queries().len()
                && self.reads_enabled(i, k, p)
    }

    /// Whether query `k` of gate `i` reads `p` from a row at which that gate is
    /// enabled.
    pub open spec fn reads_enabled(self, i: int, k: int, p: Pos) -> bool {
        let q = self.cs.gates[i].queries()[k];
        q.column == p.0 && self.enabled.contains((self.cs.gates[i].selector, p.1 - q.rotation.0))
    }

    /// Whether some gate under the selector would read outside the table
    /// from `row`.
    pub open spec fn selector_out_of_bounds(self, selector: Selector, row: int) -> bool {
        ||| !self.cs.has_selector(selector)
        ||| !(0 <= row < self.num_rows)
        ||| exists|i: int|
            0 <= i < self.cs.gates.len() && (#[trigger] self.cs.gates[i]).selector == selector
                && !self.window_in_bounds(self.cs.gates[i], row)
    }

    /// Whether some gate under the selector would read, from `row`, a cell
    /// whose value is not known.
    pub open spec fn selector_unknown(self, selector: Selector, row: int) -> bool {
        exists|i: int|
            0 <= i < self.cs.gates.len() && (#[trigger] self.cs.gates[i]).selector == selector
                && self.window_unknown(self.cs.gates[i], row)
    }

    /// Enabling a selector at a row.
    pub open spec fn enable_selector(self, selector: Selector, row: int) -> Result<
        TableModel,
        Error,
    > {
        if self.selector_out_of_bounds(selector, row) {
            Err(Error::OutOfBoundsWindow)
        } else if self.selector_unknown(selector, row) {
            Err(Error::MissingWitness)
        } else {
            Ok(TableModel { enabled: self.enabled.insert((selector, row)), ..self })
        }
    }

    /// Writing a witness value to an advice cell. A cell is written once;
    /// writing the known value that it already holds changes nothing.
    pub open spec fn assign_advice(self, p: Pos, value: Option<nat>) -> Result<TableModel, Error> {
        if !(p.0.kind == ColumnKind::Advice && self.in_table(p)) {
            Err(Error::OutOfBoundsWindow)
        } else if value is None && self.demanded(p) {
            Err(Error::MissingWitness)
        } else if self.slot(p) matches Some(held) && !witness_equal(held, value) {
            Err(Error::CellConflict)
        } else {
            Ok(TableModel { advice: self.advice.insert(p, value), ..self })
        }
    }

    /// Whether the two cells are bound already, in either order.
    pub open spec fn bound(self, a: Pos, b: Pos) -> bool {
        self.copies.contains((a, b)) || self.copies.contains((b, a))
    }

    /// Binding two cells to hold the same value. Both columns must have
    /// equality enabled and both cells must hold a known value; whether the
    /// two values agree is not looked at here. The pair is unordered, and a
    /// pair that is bound already is not added again.
    pub open spec fn constrain_equal(self, a: Pos, b: Pos) -> Result<TableModel, Error> {
        if !(self.cs.equality.contains(a.0) && self.cs.equality.contains(b.0)) {
            Err(Error::InvalidEquality)
        } else if !(self.in_table(a) && self.in_table(b)) {
            Err(Error::OutOfBoundsWindow)
        } else if self.value_at(a) is None || self.value_at(b) is None {
            Err(Error::MissingWitness)
        } else if self.bound(a, b) {
            Ok(self)
        } else {
            Ok(TableModel { copies: self.copies.push((a, b)), ..self })
        }
    }

    /// Making one write.
    pub open spec fn apply(self, op: Op) -> Result<TableModel, Error> {
        match op {
            Op::Enable(selector, row) => self.enable_selector(selector, row),
            Op::Assign(p, value) => self.assign_advice(p, value),
            Op::Copy(a, b) => self.constrain_equal(a, b),
        }
    }

    /// Makes the writes in order and stops before the first that fails: the
    /// table reached, and the error of the write that failed, if one did.
    pub open spec fn run(self, ops: Seq<Op>) -> (TableModel, Option<Error>)
        decreases ops.len(),
    {
        if ops.len() == 0 {
            (self, None)
        } else {
            match self.apply(ops[0]) {
                Ok(next) => next.run(ops.drop_first()),
                Err(e) => (self, Some(e)),
            }
        }
    }

    /// Whether a copy constraint names two cells of the table, in columns
    /// with equality enabled, that both hold a known value.
    pub open spec fn copy_well_formed(self, c: (Pos, Pos)) -> bool {
        &&& self.cs.equality.contains(c.0.0)
        &&& self.cs.equality.contains(c.1.0)
        &&& self.in_table(c.0)
        &&& self.in_table(c.1)
        &&& self.value_at(c.0) is Some
        &&& self.value_at(c.1) is Some
    }

    /// What holds of every table that the three writes can reach from an
    /// empty one.
    pub open spec fn wf(self) -> bool {
        &&& forall|p: Pos| #[trigger]
            self.advice.dom().contains(p) ==> p.0.kind == ColumnKind::Advice && self.in_table(p)
        &&& forall|s: Selector, row: int| #[trigger]
            self.enabled.contains((s, row)) ==> self.cs.has_selector(s) && 0 <= row < self.num_rows
        &&& forall|s: Selector, row: int, i: int|
            #![trigger self.enabled.contains((s, row)), self.cs.gates[i]]
            self.enabled.contains((s, row)) && 0 <= i < self.cs.gates.len()
                && self.cs.gates[i].selector == s ==> self.window_in_bounds(
                self.cs.gates[i],
                row,
            ) && !self.window_unknown(self.cs.gates[i], row)
        &&& forall|k: int|
            0 <= k < self.copies.len() ==> self.copy_well_formed(#[trigger] self.copies[k])
    }

    /// Whether `later` holds everything that `self` holds: tables are only
    /// ever added to.
    pub open spec fn grows_to(self, later: TableModel) -> bool {
        &&& later.cs == self.cs
        &&& later.num_rows == self.num_rows
        &&& later.instance == self.instance
        &&& forall|p: Pos| #[trigger]
            self.advice.dom().contains(p) ==> later.advice.dom().contains(p) && later.advice[p]
                == self.advice[p]
        &&& self.enabled.subset_of(later.enabled)
        &&& forall|k: int|
            0 <= k < self.copies.len() ==> later.copies.contains(#[trigger] self.copies[k])
    }
}

/// Enabling a selector keeps a table well formed and only adds to it.
pub proof fn lemma_enable_preserves(t: TableModel, selector: Selector, row: int)
    requires
        t.wf(),
        t.enable_selector(selector, row) is Ok,
    ensures
        t.enable_selector(selector, row)->Ok_0.wf(),
        t.grows_to(t.enable_selector(selector, row)->Ok_0),
{
    let after = t.enable_selector(selector, row)->Ok_0;
    assert forall|s: Selector, r: int, i: int|
        after.enabled.contains((s, r)) && 0 <= i < after.cs.gates.len()
            && after.cs.gates[i].selector == s implies after.window_in_bounds(after.cs.gates[i], r)
        && !after.window_unknown(after.cs.gates[i], r) by {
        let gate = t.cs.gates[i];
        assert(t.window_in_bounds(gate, r) && !t.window_unknown(gate, r)) by {
            if !t.enabled.contains((s, r)) {
                assert(s == selector && r == row);
            }
        }
        assert forall|k: int| 0 <= k < gate.queries().len() implies !after.holds_unknown(
            #[trigger] target(r, gate.queries()[k]),
        ) by {
            assert(!t.holds_unknown(target(r, gate.queries()[k])));
        }
    }
    assert forall|k: int| 0 <= k < after.copies.len() implies after.copy_well_formed(
        #[trigger] after.copies[k],
    ) by {
        assert(t.copy_well_formed(t.copies[k]));
    }
}

/// Writing an advice cell keeps a table well formed and only adds to it.
pub proof fn lemma_assign_preserves(t: TableModel, p: Pos, value: Option<nat>)
    requires
        t.wf(),
        t.assign_advice(p, value) is Ok,
    ensures
        t.assign_advice(p, value)->Ok_0.wf(),
        t.grows_to(t.assign_advice(p, value)->Ok_0),
{
    let after = t.assign_advice(p, value)->Ok_0;
    assert forall|s: Selector, r: int, i: int|
        after.enabled.contains((s, r)) && 0 <= i < after.cs.gates.len()
            && after.cs.gates[i].selector == s implies after.window_in_bounds(after.cs.gates[i], r)
        && !after.window_unknown(after.cs.gates[i], r) by {
        let gate = t.cs.gates[i];
        assert(t.window_in_bounds(gate, r) && !t.window_unknown(gate, r));
        assert forall|k: int| 0 <= k < gate.queries().len() implies !after.holds_unknown(
            #[trigger] target(r, gate.queries()[k]),
        ) by {
            let at = target(r, gate.queries()[k]);
            assert(!t.holds_unknown(at));
            if at == p && value is None {
                assert(t.reads_enabled(i, k, p));
            }
        }
    }
    assert forall|k: int| 0 <= k < after.copies.len() implies after.copy_well_formed(
        #[trigger] after.copies[k],
    ) by {
        assert(t.copy_well_formed(t.copies[k]));
    }
    assert forall|q: Pos| #[trigger] t.advice.dom().contains(q) implies after.advice.dom().contains(
        q,
    ) && after.advice[q] == t.advice[q] by {}
    assert forall|k: int| 0 <= k < t.copies.len() implies after.copies.contains(
        #[trigger] t.copies[k],
    ) by {
        assert(after.copies[k] == t.copies[k]);
    }
}

/// Binding two cells keeps a table well formed and only adds to it.
pub proof fn lemma_constrain_preserves(t: TableModel, a: Pos, b: Pos)
    requires
        t.wf(),
        t.constrain_equal(a, b) is Ok,
    ensures
        t.constrain_equal(a, b)->Ok_0.wf(),
        t.grows_to(t.constrain_equal(a, b)->Ok_0),
{
    let after = t.constrain_equal(a, b)->Ok_0;
    assert forall|s: Selector, r: int, i: int|
        after.enabled.contains((s, r)) && 0 <= i < after.cs.gates.len()
            && after.cs.gates[i].selector == s implies after.window_in_bounds(after.cs.gates[i], r)
        && !after.window_unknown(after.cs.gates[i], r) by {
        let gate = t.cs.gates[i];
        assert(t.window_in_bounds(gate, r) && !t.window_unknown(gate, r));
        assert forall|k: int| 0 <= k < gate.queries().len() implies !after.holds_unknown(
            #[trigger] target(r, gate.queries()[k]),
        ) by {
            assert(!t.holds_unknown(target(r, gate.queries()[k])));
        }
    }
    assert forall|k: int| 0 <= k < after.copies.len() implies after.copy_well_formed(
        #[trigger] after.copies[k],
    ) by {
        if k < t.copies.len() {
            assert(t.copy_well_formed(t.copies[k]));
        }
    }
    assert forall|k: int| 0 <= k < t.copies.len() implies after.copies.contains(
        #[trigger] t.copies[k],
    ) by {
        assert(after.copies[k] == t.copies[k]);
    }
}

/// In a well-formed table, every gate reads only cells of the table from
/// every row at which it is enabled.
pub proof fn lemma_windows_in_bounds(t: TableModel, i: int, row: int, k: int)
    requires
        t.wf(),
        0 <= i < t.cs.gates.len(),
        t.enabled.contains((t.cs.gates[i].selector, row)),
        0 <= k < t.cs.gates[i].queries().len(),
    ensures
        0 <= row < t.num_rows,
        t.in_table(target(row, t.cs.gates[i].queries()[k])),
        !t.holds_unknown(target(row, t.cs.gates[i].queries()[k])),
{
    assert(t.window_in_bounds(t.cs.gates[i], row));
    assert(!t.window_unknown(t.cs.gates[i], row));
}

/// Writing one cell leaves the known value of every other position as it
/// was, and so does any write that is no assignment.
pub proof fn lemma_value_kept(t: TableModel, op: Op, p: Pos)
    requires
        t.apply(op) is Ok,
        op matches Op::Assign(q, _) ==> q != p,
    ensures
        t.apply(op)->Ok_0.value_at(p) == t.value_at(p),
{
}

/// The empty table is well formed.
pub proof fn lemma_empty_wf(cs: ConstraintSystemModel, num_rows: nat, instance: Seq<Seq<nat>>)
    ensures
        TableModel::empty(cs, num_rows, instance).wf(),
{
}

/// `grows_to` is reflexive and transitive.
pub proof fn lemma_grows_trans(a: TableModel, b: TableModel, c: TableModel)
    requires
        a.grows_to(b),
        b.grows_to(c),
    ensures
        a.grows_to(a),
        a.grows_to(c),
{
    assert forall|k: int| 0 <= k < a.copies.len() implies a.copies.contains(
        #[trigger] a.copies[k],
    ) by {}
    assert forall|k: int| 0 <= k < a.copies.len() implies c.copies.contains(
        #[trigger] a.copies[k],
    ) by {
        assert(b.copies.contains(a.copies[k]));
        let j = choose|j: int| 0 <= j < b.copies.len() && b.copies[j] == a.copies[k];
        assert(c.copies.contains(b.copies[j]));
    }
}

/// Any sequence of writes keeps a table well formed and only adds to it,
/// whether or not one of them fails.
pub proof fn lemma_run_preserves(t: TableModel, ops: Seq<Op>)
    requires
        t.wf(),
    ensures
        t.run(ops).0.wf(),
        t.grows_to(t.run(ops).0),
    decreases ops.len(),
{
    lemma_grows_trans(t, t, t);
    if ops.len() > 0 {
        match t.apply(ops[0]) {
            Ok(next) => {
                match ops[0] {
                    Op::Enable(selector, row) => lemma_enable_preserves(t, selector, row),
                    Op::Assign(p, value) => lemma_assign_preserves(t, p, value),
                    Op::Copy(a, b) => lemma_constrain_preserves(t, a, b),
                }
                lemma_run_preserves(next, ops.drop_first());
                lemma_grows_trans(t, next, next.run(ops.drop_first()).0);
            },
            Err(_) => {},
        }
    }
}

/// What a write that succeeded leaves in the table.
pub open spec fn holds(t: TableModel, op: Op) -> bool {
    match op {
        Op::Enable(selector, row) => t.enabled.contains((selector, row)),
        Op::Assign(p, value) => t.slot(p) == Some(value),
        Op::Copy(a, b) => t.bound(a, b),
    }
}

/// Nothing that was written is lost: where every write of a sequence
/// succeeds, the table reached holds what each of them wrote.
pub proof fn lemma_run_holds(t: TableModel, ops: Seq<Op>, i: int)
    requires
        t.wf(),
        t.run(ops).1 is None,
        0 <= i < ops.len(),
    ensures
        holds(t.run(ops).0, ops[i]),
    decreases ops.len(),
{
    let next = t.apply(ops[0])->Ok_0;
    let rest = ops.drop_first();
    let end = next.run(rest).0;
    match ops[0] {
        Op::Enable(selector, row) => lemma_enable_preserves(t, selector, row),
        Op::Assign(p, value) => lemma_assign_preserves(t, p, value),
        Op::Copy(a, b) => lemma_constrain_preserves(t, a, b),
    }
    if i == 0 {
        lemma_run_preserves(next, rest);
        match ops[0] {
            Op::Enable(selector, row) => {},
            Op::Assign(p, value) => {
                assert(next.advice.dom().contains(p));
            },
            Op::Copy(a, b) => {
                if !t.bound(a, b) {
                    assert(next.copies[t.copies.len() as int] == (a, b));
                }
                if next.copies.contains((a, b)) {
                    let k = choose|k: int| 0 <= k < next.copies.len() && next.copies[k] == (a, b);
                    assert(end.copies.contains(next.copies[k]));
                } else {
                    let k = choose|k: int| 0 <= k < next.copies.len() && next.copies[k] == (b, a);
                    assert(end.copies.contains(next.copies[k]));
                }
            },
        }
    } else {
        assert(rest[i - 1] == ops[i]);
        lemma_run_holds(next, rest, i - 1);
    }
}

/// What running one write gives.
pub proof fn lemma_run_one(t: TableModel, op: Op)
    ensures
        t.run(seq![op]) == match t.apply(op) {
            Ok(next) => (next, None::<Error>),
            Err(e) => (t, Some(e)),
        },
{
    let ops = seq![op];
    assert(ops[0] == op);
    assert(ops.drop_first().len() == 0);
    match t.apply(op) {
        Ok(next) => {
            assert(next.run(ops.drop_first()) == (next, None::<Error>));
        },
        Err(_) => {},
    }
}

/// What running two writes gives.
pub proof fn lemma_run_two(t: TableModel, first: Op, second: Op)
    ensures
        t.run(seq![first, second]) == match t.apply(first) {
            Ok(next) => match next.apply(second) {
                Ok(last) => (last, None::<Error>),
                Err(e) => (next, Some(e)),
            },
            Err(e) => (t, Some(e)),
        },
{
    assert(seq![first, second] == seq![first] + seq![second]);
    lemma_run_concat(t, seq![first], seq![second]);
    lemma_run_one(t, first);
    match t.apply(first) {
        Ok(next) => lemma_run_one(next, second),
        Err(_) => {},
    }
}

/// Running a sequence of writes is running its first `k` and then the rest.
pub proof fn lemma_run_split(t: TableModel, ops: Seq<Op>, k: int)
    requires
        0 <= k <= ops.len(),
    ensures
        t.run(ops) == if t.run(ops.take(k)).1 is None {
            t.run(ops.take(k)).0.run(ops.skip(k))
        } else {
            t.run(ops.take(k))
        },
{
    assert(ops == ops.take(k) + ops.skip(k));
    lemma_run_concat(t, ops.take(k), ops.skip(k));
}

/// Running two sequences of writes one after the other is running their
/// concatenation.
pub proof fn lemma_run_concat(t: TableModel, first: Seq<Op>, second: Seq<Op>)
    ensures
        t.run(first + second) == if t.run(first).1 is None {
            t.run(first).0.run(second)
        } else {
            t.run(first)
        },
    decreases first.len(),
{
    if first.len() == 0 {
        assert(first + second == second);
    } else {
        assert((first + second)[0] == first[0]);
        assert((first + second).drop_first() == first.drop_first() + second);
        match t.apply(first[0]) {
            Ok(next) => lemma_run_concat(next, first.drop_first(), second),
            Err(_) => {},
        }
    }
}

} // verus!
