//! The table that an assignment pass fills: created empty over a constraint
//! system and the public inputs, written by the three operations of the
//! model, and well formed at every moment.

use crate::constraint_system::ConstraintSystem;
use crate::field::{Fe, Value};
use crate::gate::{gate_models, Cell, Column, ColumnKind, Error, Gate, Pos, Query, Selector};
use crate::table_model::{
    lemma_assign_preserves, lemma_constrain_preserves, lemma_empty_wf, lemma_enable_preserves,
    lemma_run_two, target, Op, TableModel,
};
use vstd::prelude::*;

verus! {

/// The integers that the elements of a column stand for.
pub open spec fn values_of(column: Seq<Fe>) -> Seq<nat> {
    column.map_values(|f: Fe| f@)
}

/// The public inputs as the model holds them.
pub open spec fn public_inputs(instance: Seq<Vec<Fe>>) -> Seq<Seq<nat>> {
    instance.map_values(|column: Vec<Fe>| values_of(column@))
}

spec fn written(advice: Seq<Vec<Option<Value>>>, p: Pos) -> bool {
    &&& p.0.kind == ColumnKind::Advice
    &&& p.0.index < advice.len()
    &&& 0 <= p.1 < advice[p.0.index as int]@.len()
    &&& advice[p.0.index as int]@[p.1] is Some
}

spec fn advice_of(advice: Seq<Vec<Option<Value>>>) -> Map<Pos, Option<nat>> {
    Map::new(|p: Pos| written(advice, p), |p: Pos| advice[p.0.index as int]@[p.1]->Some_0@)
}

spec fn flagged(selectors: Seq<Vec<bool>>, e: (Selector, int)) -> bool {
    &&& e.0.index < selectors.len()
    &&& 0 <= e.1 < selectors[e.0.index as int]@.len()
    &&& selectors[e.0.index as int]@[e.1]
}

spec fn enabled_of(selectors: Seq<Vec<bool>>) -> Set<(Selector, int)> {
    Set::new(|e: (Selector, int)| flagged(selectors, e))
}

spec fn copies_of(copies: Seq<(Cell, Cell)>) -> Seq<(Pos, Pos)> {
    copies.map_values(|c: (Cell, Cell)| (c.0@, c.1@))
}

/// The storage of a table: one vector of slots for each advice column and
/// one vector of flags for each selector.
struct Grid<'a> {
    cs: &'a ConstraintSystem,
    num_rows: usize,
    instance: Vec<Vec<Fe>>,
    advice: Vec<Vec<Option<Value>>>,
    selectors: Vec<Vec<bool>>,
    copies: Vec<(Cell, Cell)>,
}

impl<'a> View for Grid<'a> {
    type V = TableModel;

    closed spec fn view(&self) -> TableModel {
        TableModel {
            cs: self.cs@,
            num_rows: self.num_rows as nat,
            instance: public_inputs(self.instance@),
            advice: advice_of(self.advice@),
            enabled: enabled_of(self.selectors@),
            copies: copies_of(self.copies@),
        }
    }
}

fn empty_slots(n: usize) -> (r: Vec<Option<Value>>)
    ensures
        r@.len() == n,
        forall|i: int| 0 <= i < n ==> r@[i] is None,
{
    let mut r: Vec<Option<Value>> = Vec::new();
    let mut i: usize = 0;
    while i < n
        invariant
            i <= n,
            r@.len() == i,
            forall|j: int| 0 <= j < i ==> r@[j] is None,
        decreases n - i,
    {
        r.push(None);
        i += 1;
    }
    r
}

fn cleared_flags(n: usize) -> (r: Vec<bool>)
    ensures
        r@.len() == n,
        forall|i: int| 0 <= i < n ==> !r@[i],
{
    let mut r: Vec<bool> = Vec::new();
    let mut i: usize = 0;
    while i < n
        invariant
            i <= n,
            r@.len() == i,
            forall|j: int| 0 <= j < i ==> !r@[j],
        decreases n - i,
    {
        r.push(false);
        i += 1;
    }
    r
}

impl<'a> Grid<'a> {
    /// One vector for each declared column and selector, each as long as the
    /// table has rows.
    spec fn sized(&self) -> bool {
        &&& self.advice@.len() == self.cs@.num_advice
        &&& forall|c: int|
            0 <= c < self.advice@.len() ==> (#[trigger] self.advice@[c])@.len() == self.num_rows
        &&& self.selectors@.len() == self.cs@.num_selectors
        &&& forall|s: int|
            0 <= s < self.selectors@.len() ==> (#[trigger] self.selectors@[s])@.len()
                == self.num_rows
    }

    fn new(cs: &'a ConstraintSystem, num_rows: usize, instance: Vec<Vec<Fe>>) -> (r: Grid<'a>)
        ensures
            r.sized(),
            r@ == TableModel::empty(cs@, num_rows as nat, public_inputs(instance@)),
    {
        let mut advice: Vec<Vec<Option<Value>>> = Vec::new();
        let mut c: usize = 0;
        while c < cs.num_advice_columns()
            invariant
                c <= cs@.num_advice,
                advice@.len() == c,
                forall|i: int| 0 <= i < c ==> (#[trigger] advice@[i])@.len() == num_rows,
                forall|i: int, j: int|
                    0 <= i < c && 0 <= j < num_rows ==> (#[trigger] advice@[i]@[j]) is None,
            decreases cs@.num_advice - c,
        {
            advice.push(empty_slots(num_rows));
            c += 1;
        }
        let mut selectors: Vec<Vec<bool>> = Vec::new();
        let mut s: usize = 0;
        while s < cs.num_selectors()
            invariant
                s <= cs@.num_selectors,
                selectors@.len() == s,
                forall|i: int| 0 <= i < s ==> (#[trigger] selectors@[i])@.len() == num_rows,
                forall|i: int, j: int|
                    0 <= i < s && 0 <= j < num_rows ==> !(#[trigger] selectors@[i]@[j]),
            decreases cs@.num_selectors - s,
        {
            selectors.push(cleared_flags(num_rows));
            s += 1;
        }
        let r = Grid { cs, num_rows, instance, advice, selectors, copies: Vec::new() };
        proof {
            assert(advice_of(r.advice@) =~= Map::<Pos, Option<nat>>::empty());
            assert(enabled_of(r.selectors@) =~= Set::<(Selector, int)>::empty());
            assert(copies_of(r.copies@) =~= Seq::<(Pos, Pos)>::empty());
        }
        r
    }

    fn in_table(&self, cell: Cell) -> (r: bool)
        ensures
            r == self@.in_table(cell@),
    {
        self.cs.has_column(cell.column) && cell.row < self.num_rows
    }

    /// What the table holds at a cell.
    fn slot(&self, cell: Cell) -> (r: Option<Value>)
        requires
            self.sized(),
        ensures
            (match r {
                Some(v) => self@.slot(cell@) == Some(v@),
                None => self@.slot(cell@) is None,
            }),
    {
        match cell.column.kind {
            ColumnKind::Advice => {
                if cell.column.index < self.advice.len() && cell.row < self.num_rows {
                    self.advice[cell.column.index][cell.row]
                } else {
                    None
                }
            },
            ColumnKind::Instance => {
                if self.in_table(cell) {
                    if cell.column.index < self.instance.len() && cell.row
                        < self.instance[cell.column.index].len() {
                        Some(Value::Known(self.instance[cell.column.index][cell.row]))
                    } else {
                        Some(Value::Unknown)
                    }
                } else {
                    None
                }
            },
        }
    }

    fn is_enabled(&self, selector: Selector, row: usize) -> (r: bool)
        requires
            self.sized(),
        ensures
            r == self@.enabled.contains((selector, row as int)),
    {
        selector.index < self.selectors.len() && row < self.num_rows
            && self.selectors[selector.index][row]
    }

    fn has_copy(&self, a: Cell, b: Cell) -> (r: bool)
        ensures
            r == self@.copies.contains((a@, b@)),
    {
        let mut i: usize = 0;
        while i < self.copies.len()
            invariant
                i <= self.copies.len(),
                forall|j: int| 0 <= j < i ==> copies_of(self.copies@)[j] != (a@, b@),
            decreases self.copies.len() - i,
        {
            let held = self.copies[i];
            if held.0 == a && held.1 == b {
                assert(copies_of(self.copies@)[i as int] == (a@, b@));
                return true;
            }
            i += 1;
        }
        false
    }

    fn set_flag(&mut self, selector: Selector, row: usize)
        requires
            old(self).sized(),
            old(self)@.cs.has_selector(selector),
            row < old(self)@.num_rows,
        ensures
            final(self).sized(),
            final(self)@ == (TableModel {
                enabled: old(self)@.enabled.insert((selector, row as int)),
                ..old(self)@
            }),
        no_unwind
    {
        self.selectors[selector.index][row] = true;
        proof {
            assert(enabled_of(self.selectors@) =~= enabled_of(old(self).selectors@).insert(
                (selector, row as int),
            ));
        }
    }

    fn set_slot(&mut self, cell: Cell, value: Value)
        requires
            old(self).sized(),
            cell.column.kind == ColumnKind::Advice,
            old(self)@.in_table(cell@),
        ensures
            final(self).sized(),
            final(self)@ == (TableModel {
                advice: old(self)@.advice.insert(cell@, value@),
                ..old(self)@
            }),
        no_unwind
    {
        self.advice[cell.column.index][cell.row] = Some(value);
        proof {
            assert(advice_of(self.advice@) =~= advice_of(old(self).advice@).insert(
                cell@,
                value@,
            ));
        }
    }
}

/// The error of a result, if it is one.
pub open spec fn failure<T>(r: Result<T, Error>) -> Option<Error> {
    match r {
        Ok(_) => None,
        Err(e) => Some(e),
    }
}

/// An advice cell that was written, with the value it was written with.
#[derive(Clone, Copy, Debug)]
pub struct AssignedCell {
    pub cell: Cell,
    pub value: Value,
}

impl View for AssignedCell {
    type V = (Pos, Option<nat>);

    open spec fn view(&self) -> (Pos, Option<nat>) {
        (self.cell@, self.value@)
    }
}

/// A table under assignment. It borrows the constraint system that it was
/// made over, so one configuration serves any number of tables.
pub struct Table<'a> {
    grid: Grid<'a>,
}

impl<'a> View for Table<'a> {
    type V = TableModel;

    closed spec fn view(&self) -> TableModel {
        self.grid@
    }
}

impl<'a> Table<'a> {
    #[verifier::type_invariant]
    spec fn inv(self) -> bool {
        self.grid.sized() && self.grid@.wf()
    }

    /// An empty table of `num_rows` rows over a constraint system, with the
    /// public inputs of each instance column from row 0 on.
    pub fn new(cs: &'a ConstraintSystem, num_rows: usize, instance: Vec<Vec<Fe>>) -> (r: Table<'a>)
        ensures
            r@ == TableModel::empty(cs@, num_rows as nat, public_inputs(instance@)),
            r@.wf(),
    {
        proof {
            lemma_empty_wf(cs@, num_rows as nat, public_inputs(instance@));
        }
        Table { grid: Grid::new(cs, num_rows, instance) }
    }

    /// The declared number of rows. Every table is well formed.
    pub fn num_rows(&self) -> (r: usize)
        ensures
            r == self@.num_rows,
            self@.wf(),
    {
        proof {
            use_type_invariant(self);
        }
        self.grid.num_rows
    }

    pub fn constraint_system(&self) -> (r: &'a ConstraintSystem)
        ensures
            r@ == self@.cs,
    {
        self.grid.cs
    }

    /// What the table holds at a cell: nothing, a value that is not known, or
    /// a known value.
    pub fn slot(&self, cell: Cell) -> (r: Option<Value>)
        ensures
            (match r {
                Some(v) => self@.slot(cell@) == Some(v@),
                None => self@.slot(cell@) is None,
            }),
    {
        proof {
            use_type_invariant(self);
        }
        self.grid.slot(cell)
    }

    pub fn is_enabled(&self, selector: Selector, row: usize) -> (r: bool)
        ensures
            r == self@.enabled.contains((selector, row as int)),
    {
        proof {
            use_type_invariant(self);
        }
        self.grid.is_enabled(selector, row)
    }

    /// The copy constraints, in the order in which they were first made.
    pub fn copies(&self) -> (r: &Vec<(Cell, Cell)>)
        ensures
            r@.len() == self@.copies.len(),
            forall|k: int|
                0 <= k < r@.len() ==> (#[trigger] r@[k]).0@ == self@.copies[k].0 && r@[k].1@
                    == self@.copies[k].1,
    {
        &self.grid.copies
    }

    /// The cell that a query reads from `row`, if it lies in the table.
    pub fn target_cell(&self, row: usize, q: &Query) -> (r: Option<Cell>)
        ensures
            (match r {
                Some(c) => c@ == target(row as int, *q) && self@.in_table(c@),
                None => !self@.in_table(target(row as int, *q)) && self@.slot(
                    target(row as int, *q),
                ) is None,
            }),
    {
        proof {
            use_type_invariant(self);
        }
        let at: i128 = row as i128 + q.rotation.0 as i128;
        if 0 <= at && at < self.grid.num_rows as i128 {
            let cell = Cell { column: q.column, row: at as usize };
            if self.grid.in_table(cell) {
                Some(cell)
            } else {
                None
            }
        } else {
            None
        }
    }

    fn window_in_bounds(&self, gate: &Gate, row: usize) -> (r: bool)
        ensures
            r == self@.window_in_bounds(gate@, row as int),
    {
        let window = gate.window();
        let mut k: usize = 0;
        while k < window.len()
            invariant
                k <= window@.len(),
                window@ == gate@.queries(),
                forall|j: int|
                    0 <= j < k ==> self@.in_table(#[trigger] target(row as int, window@[j])),
            decreases window@.len() - k,
        {
            if self.target_cell(row, &window[k]).is_none() {
                return false;
            }
            k += 1;
        }
        true
    }

    fn window_unknown(&self, gate: &Gate, row: usize) -> (r: bool)
        ensures
            r == self@.window_unknown(gate@, row as int),
    {
        proof {
            use_type_invariant(self);
        }
        let window = gate.window();
        let mut k: usize = 0;
        while k < window.len()
            invariant
                k <= window@.len(),
                window@ == gate@.queries(),
                self.grid.sized(),
                self@.wf(),
                forall|j: int|
                    0 <= j < k ==> !self@.holds_unknown(
                        #[trigger] target(row as int, window@[j]),
                    ),
            decreases window@.len() - k,
        {
            match self.target_cell(row, &window[k]) {
                Some(cell) => {
                    match self.grid.slot(cell) {
                        Some(Value::Unknown) => {
                            return true;
                        },
                        _ => {},
                    }
                },
                None => {},
            }
            k += 1;
        }
        false
    }

    fn selector_out_of_bounds(&self, selector: Selector, row: usize) -> (r: bool)
        ensures
            r == self@.selector_out_of_bounds(selector, row as int),
    {
        if !(selector.index < self.grid.cs.num_selectors() && row < self.grid.num_rows) {
            return true;
        }
        let gates = self.grid.cs.gates();
        let mut i: usize = 0;
        while i < gates.len()
            invariant
                i <= gates@.len(),
                gate_models(gates@) == self@.cs.gates,
                forall|j: int|
                    0 <= j < i && (#[trigger] self@.cs.gates[j]).selector == selector
                        ==> self@.window_in_bounds(self@.cs.gates[j], row as int),
            decreases gates@.len() - i,
        {
            assert(gates@[i as int]@ == self@.cs.gates[i as int]);
            if gates[i].selector == selector && !self.window_in_bounds(&gates[i], row) {
                return true;
            }
            i += 1;
        }
        false
    }

    fn selector_unknown(&self, selector: Selector, row: usize) -> (r: bool)
        ensures
            r == self@.selector_unknown(selector, row as int),
    {
        let gates = self.grid.cs.gates();
        let mut i: usize = 0;
        while i < gates.len()
            invariant
                i <= gates@.len(),
                gate_models(gates@) == self@.cs.gates,
                forall|j: int|
                    0 <= j < i && (#[trigger] self@.cs.gates[j]).selector == selector
                        ==> !self@.window_unknown(self@.cs.gates[j], row as int),
            decreases gates@.len() - i,
        {
            assert(gates@[i as int]@ == self@.cs.gates[i as int]);
            if gates[i].selector == selector && self.window_unknown(&gates[i], row) {
                return true;
            }
            i += 1;
        }
        false
    }

    /// Whether query `k` of a gate reads the cell from a row at which the
    /// selector is enabled.
    fn reads_enabled(&self, selector: Selector, q: &Query, cell: Cell) -> (r: bool)
        ensures
            r == (q.column == cell.column && self@.enabled.contains(
                (selector, cell.row - q.rotation.0),
            )),
    {
        proof {
            use_type_invariant(self);
        }
        if q.column == cell.column {
            let from: i128 = cell.row as i128 - q.rotation.0 as i128;
            if 0 <= from && from < self.grid.num_rows as i128 {
                self.grid.is_enabled(selector, from as usize)
            } else {
                false
            }
        } else {
            false
        }
    }

    fn gate_demands(&self, i: usize, cell: Cell) -> (r: bool)
        requires
            i < self@.cs.gates.len(),
        ensures
            r == (exists|k: int|
                0 <= k < self@.cs.gates[i as int].queries().len() && self@.reads_enabled(
                    i as int,
                    k,
                    cell@,
                )),
    {
        let gates = self.grid.cs.gates();
        assert(gates@[i as int]@ == self@.cs.gates[i as int]);
        let gate = &gates[i];
        let window = gate.window();
        let mut k: usize = 0;
        while k < window.len()
            invariant
                k <= window@.len(),
                window@ == gate@.queries(),
                gate@ == self@.cs.gates[i as int],
                forall|j: int| 0 <= j < k ==> !self@.reads_enabled(i as int, j, cell@),
            decreases window@.len() - k,
        {
            if self.reads_enabled(gate.selector, &window[k], cell) {
                assert(self@.reads_enabled(i as int, k as int, cell@));
                return true;
            }
            k += 1;
        }
        false
    }

    /// Whether a gate that is enabled somewhere reads the cell.
    pub fn demanded(&self, cell: Cell) -> (r: bool)
        ensures
            r == self@.demanded(cell@),
    {
        let count: usize = self.grid.cs.gates().len();
        let mut i: usize = 0;
        while i < count
            invariant
                i <= count,
                count == self@.cs.gates.len(),
                forall|j: int, k: int|
                    0 <= j < i && 0 <= k < self@.cs.gates[j].queries().len()
                        ==> !self@.reads_enabled(j, k, cell@),
            decreases count - i,
        {
            if self.gate_demands(i, cell) {
                return true;
            }
            i += 1;
        }
        false
    }

    /// Enables a selector at a row. Fails, and leaves the table as it was,
    /// where a gate under the selector would read outside the table or would
    /// read a cell whose value is not known.
    pub fn enable_selector(&mut self, selector: Selector, row: usize) -> (r: Result<(), Error>)
        ensures
            final(self)@.wf(),
            (match r {
                Ok(()) => old(self)@.enable_selector(selector, row as int) == Ok::<
                    TableModel,
                    Error,
                >(final(self)@),
                Err(e) => old(self)@.enable_selector(selector, row as int) == Err::<
                    TableModel,
                    Error,
                >(e) && final(self)@ == old(self)@,
            }),
    {
        proof {
            use_type_invariant(&*self);
        }
        if self.selector_out_of_bounds(selector, row) {
            return Err(Error::OutOfBoundsWindow);
        }
        if self.selector_unknown(selector, row) {
            return Err(Error::MissingWitness);
        }
        proof {
            lemma_enable_preserves(self@, selector, row as int);
        }
        self.grid.set_flag(selector, row);
        Ok(())
    }

    /// Writes a witness value to an advice cell. Fails, and leaves the table
    /// as it was, where the cell is no advice cell of the table, where the
    /// value is not known and an enabled gate reads the cell, or where the
    /// cell holds something else already.
    pub fn assign_advice(&mut self, column: Column, row: usize, value: Value) -> (r: Result<
        AssignedCell,
        Error,
    >)
        ensures
            final(self)@.wf(),
            (match r {
                Ok(assigned) => old(self)@.assign_advice((column, row as int), value@) == Ok::<
                    TableModel,
                    Error,
                >(final(self)@) && assigned.cell == (Cell { column, row }) && assigned.value
                    == value,
                Err(e) => old(self)@.assign_advice((column, row as int), value@) == Err::<
                    TableModel,
                    Error,
                >(e) && final(self)@ == old(self)@,
            }),
    {
        proof {
            use_type_invariant(&*self);
        }
        let cell = Cell { column, row };
        if !(column.kind == ColumnKind::Advice && self.grid.in_table(cell)) {
            return Err(Error::OutOfBoundsWindow);
        }
        if !value.is_known() && self.demanded(cell) {
            return Err(Error::MissingWitness);
        }
        match self.grid.slot(cell) {
            Some(held) => {
                if !held.equals(&value) {
                    return Err(Error::CellConflict);
                }
            },
            None => {},
        }
        proof {
            lemma_assign_preserves(self@, cell@, value@);
        }
        self.grid.set_slot(cell, value);
        Ok(AssignedCell { cell, value })
    }

    /// Binds two cells to hold the same value. Fails, and leaves the table
    /// as it was, where equality is not enabled on one of the columns, where
    /// one of the cells lies outside the table, or where one of them holds no
    /// known value.
    pub fn constrain_equal(&mut self, a: Cell, b: Cell) -> (r: Result<(), Error>)
        ensures
            final(self)@.wf(),
            (match r {
                Ok(()) => old(self)@.constrain_equal(a@, b@) == Ok::<TableModel, Error>(
                    final(self)@,
                ),
                Err(e) => old(self)@.constrain_equal(a@, b@) == Err::<TableModel, Error>(e)
                    && final(self)@ == old(self)@,
            }),
    {
        proof {
            use_type_invariant(&*self);
        }
        if !(self.grid.cs.equality_enabled(a.column) && self.grid.cs.equality_enabled(b.column)) {
            return Err(Error::InvalidEquality);
        }
        if !(self.grid.in_table(a) && self.grid.in_table(b)) {
            return Err(Error::OutOfBoundsWindow);
        }
        if !self.holds_known(a) || !self.holds_known(b) {
            return Err(Error::MissingWitness);
        }
        if self.grid.has_copy(a, b) || self.grid.has_copy(b, a) {
            return Ok(());
        }
        let mut copies: Vec<(Cell, Cell)> = Vec::new();
        std::mem::swap(&mut copies, &mut self.grid.copies);
        copies.push((a, b));
        proof {
            lemma_constrain_preserves(old(self)@, a@, b@);
            assert(copies_of(copies@) =~= copies_of(old(self).grid.copies@).push((a@, b@)));
        }
        self.grid.copies = copies;
        Ok(())
    }

    /// Whether the table holds a known value at the cell.
    pub fn holds_known(&self, cell: Cell) -> (r: bool)
        ensures
            r == (self@.value_at(cell@) is Some),
    {
        proof {
            use_type_invariant(self);
        }
        match self.grid.slot(cell) {
            Some(Value::Known(_)) => true,
            _ => false,
        }
    }

    /// Binds a cell to a cell of an instance column.
    pub fn constrain_instance(&mut self, cell: Cell, instance: Column, row: usize) -> (r: Result<
        (),
        Error,
    >)
        ensures
            final(self)@.wf(),
            (match r {
                Ok(()) => old(self)@.constrain_equal(cell@, (instance, row as int)) == Ok::<
                    TableModel,
                    Error,
                >(final(self)@),
                Err(e) => old(self)@.constrain_equal(cell@, (instance, row as int)) == Err::<
                    TableModel,
                    Error,
                >(e) && final(self)@ == old(self)@,
            }),
    {
        self.constrain_equal(cell, Cell { column: instance, row })
    }

    /// Writes the value of an assigned cell to another advice cell and binds
    /// the two. The table is left as the last write that succeeded left it.
    pub fn copy_advice(&mut self, from: &AssignedCell, column: Column, row: usize) -> (r: Result<
        AssignedCell,
        Error,
    >)
        ensures
            final(self)@.wf(),
            (final(self)@, failure(r)) == old(self)@.run(
                seq![
                    Op::Assign((column, row as int), from.value@),
                    Op::Copy((column, row as int), from.cell@),
                ],
            ),
            r matches Ok(assigned) ==> assigned.cell == (Cell { column, row }) && assigned.value
                == from.value,
    {
        proof {
            lemma_run_two(
                self@,
                Op::Assign((column, row as int), from.value@),
                Op::Copy((column, row as int), from.cell@),
            );
        }
        let assigned = self.assign_advice(column, row, from.value)?;
        self.constrain_equal(assigned.cell, from.cell)?;
        Ok(assigned)
    }

    /// Writes to an advice cell the value that a cell of an instance column
    /// holds, and binds the two. The table is left as the last write that
    /// succeeded left it.
    pub fn assign_advice_from_instance(
        &mut self,
        instance: Column,
        instance_row: usize,
        advice: Column,
        row: usize,
    ) -> (r: Result<AssignedCell, Error>)
        ensures
            final(self)@.wf(),
            (final(self)@, failure(r)) == old(self)@.run(
                seq![
                    Op::Assign(
                        (advice, row as int),
                        old(self)@.value_at((instance, instance_row as int)),
                    ),
                    Op::Copy((advice, row as int), (instance, instance_row as int)),
                ],
            ),
            r matches Ok(assigned) ==> assigned.cell == (Cell { column: advice, row })
                && assigned.value@ == old(self)@.value_at((instance, instance_row as int)),
    {
        let source = Cell { column: instance, row: instance_row };
        let value = match self.slot(source) {
            Some(held) => held,
            None => Value::Unknown,
        };
        proof {
            lemma_run_two(
                self@,
                Op::Assign((advice, row as int), value@),
                Op::Copy((advice, row as int), source@),
            );
        }
        let assigned = self.assign_advice(advice, row, value)?;
        self.constrain_equal(assigned.cell, source)?;
        Ok(assigned)
    }
}

} // verus!
