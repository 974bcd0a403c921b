//! The static description of a circuit: its columns, its selectors, the
//! columns that copy constraints may name, and its gates. It holds no witness.

use crate::gate::{gate_models, Column, ColumnKind, Expression, Gate, GateModel, Selector};
use vstd::prelude::*;

verus! {

/// What a constraint system declares.
pub struct ConstraintSystemModel {
    pub num_advice: nat,
    pub num_instance: nat,
    pub num_selectors: nat,
    /// The columns on which equality was enabled.
    pub equality: Set<Column>,
    pub gates: Seq<GateModel>,
}

impl ConstraintSystemModel {
    /// The system that declares nothing.
    pub open spec fn empty() -> ConstraintSystemModel {
        ConstraintSystemModel {
            num_advice: 0,
            num_instance: 0,
            num_selectors: 0,
            equality: Set::empty(),
            gates: Seq::empty(),
        }
    }

    /// Whether the column was allocated in this system.
    pub open spec fn has_column(self, column: Column) -> bool {
        match column.kind {
            ColumnKind::Advice => column.index < self.num_advice,
            ColumnKind::Instance => column.index < self.num_instance,
        }
    }

    /// Whether the selector was allocated in this system.
    pub open spec fn has_selector(self, selector: Selector) -> bool {
        selector.index < self.num_selectors
    }
}

/// The constraint system that a configuration is declared on. Columns and
/// selectors are handed out in order; nothing that was declared is ever
/// taken back.
pub struct ConstraintSystem {
    num_advice: usize,
    num_instance: usize,
    num_selectors: usize,
    equality: Vec<Column>,
    gates: Vec<Gate>,
}

impl View for ConstraintSystem {
    type V = ConstraintSystemModel;

    closed spec fn view(&self) -> ConstraintSystemModel {
        ConstraintSystemModel {
            num_advice: self.num_advice as nat,
            num_instance: self.num_instance as nat,
            num_selectors: self.num_selectors as nat,
            equality: self.equality@.to_set(),
            gates: gate_models(self.gates@),
        }
    }
}

impl ConstraintSystem {
    pub fn new() -> (r: ConstraintSystem)
        ensures
            r@ == ConstraintSystemModel::empty(),
    {
        let r = ConstraintSystem {
            num_advice: 0,
            num_instance: 0,
            num_selectors: 0,
            equality: Vec::new(),
            gates: Vec::new(),
        };
        assert(r.equality@.to_set() =~= Set::empty());
        assert(gate_models(r.gates@) =~= Seq::empty());
        r
    }

    /// Allocates the next advice column.
    pub fn advice_column(&mut self) -> (r: Column)
        requires
            old(self)@.num_advice < usize::MAX,
        ensures
            r == (Column { kind: ColumnKind::Advice, index: old(self)@.num_advice as usize }),
            final(self)@ == (ConstraintSystemModel {
                num_advice: old(self)@.num_advice + 1,
                ..old(self)@
            }),
    {
        let index: usize = self.num_advice;
        self.num_advice = index + 1;
        Column { kind: ColumnKind::Advice, index }
    }

    /// Allocates the next instance column.
    pub fn instance_column(&mut self) -> (r: Column)
        requires
            old(self)@.num_instance < usize::MAX,
        ensures
            r == (Column { kind: ColumnKind::Instance, index: old(self)@.num_instance as usize }),
            final(self)@ == (ConstraintSystemModel {
                num_instance: old(self)@.num_instance + 1,
                ..old(self)@
            }),
    {
        let index: usize = self.num_instance;
        self.num_instance = index + 1;
        Column { kind: ColumnKind::Instance, index }
    }

    /// Allocates the next selector.
    pub fn selector(&mut self) -> (r: Selector)
        requires
            old(self)@.num_selectors < usize::MAX,
        ensures
            r == (Selector { index: old(self)@.num_selectors as usize }),
            final(self)@ == (ConstraintSystemModel {
                num_selectors: old(self)@.num_selectors + 1,
                ..old(self)@
            }),
    {
        let index: usize = self.num_selectors;
        self.num_selectors = index + 1;
        Selector { index }
    }

    /// Whether equality was enabled on the column.
    pub fn equality_enabled(&self, column: Column) -> (r: bool)
        ensures
            r == self@.equality.contains(column),
    {
        let mut i: usize = 0;
        while i < self.equality.len()
            invariant
                i <= self.equality.len(),
                forall|j: int| 0 <= j < i ==> self.equality@[j] != column,
            decreases self.equality.len() - i,
        {
            if self.equality[i] == column {
                return true;
            }
            i += 1;
        }
        false
    }

    /// Lets copy constraints name the column. Enabling it twice changes
    /// nothing.
    pub fn enable_equality(&mut self, column: Column)
        ensures
            final(self)@ == (ConstraintSystemModel {
                equality: old(self)@.equality.insert(column),
                ..old(self)@
            }),
    {
        if !self.equality_enabled(column) {
            proof {
                self.equality@.lemma_push_to_set_commute(column);
            }
            self.equality.push(column);
        } else {
            assert(self@.equality.insert(column) =~= self@.equality);
        }
    }

    /// Registers a gate: the constraints are in force at the rows where the
    /// selector is enabled.
    pub fn create_gate(&mut self, name: &'static str, selector: Selector, polys: Vec<Expression>)
        ensures
            final(self)@ == (ConstraintSystemModel {
                gates: old(self)@.gates.push(
                    (GateModel { name: name@, selector, polys: polys@ }),
                ),
                ..old(self)@
            }),
    {
        self.gates.push(Gate { name, selector, polys });
        assert(gate_models(self.gates@) =~= gate_models(old(self).gates@).push(
            GateModel { name: name@, selector, polys: polys@ },
        ));
    }

    pub fn num_advice_columns(&self) -> (r: usize)
        ensures
            r == self@.num_advice,
    {
        self.num_advice
    }

    pub fn num_instance_columns(&self) -> (r: usize)
        ensures
            r == self@.num_instance,
    {
        self.num_instance
    }

    pub fn num_selectors(&self) -> (r: usize)
        ensures
            r == self@.num_selectors,
    {
        self.num_selectors
    }

    pub fn gates(&self) -> (r: &Vec<Gate>)
        ensures
            gate_models(r@) == self@.gates,
    {
        &self.gates
    }

    /// Whether the column was allocated in this system.
    pub fn has_column(&self, column: Column) -> (r: bool)
        ensures
            r == self@.has_column(column),
    {
        match column.kind {
            ColumnKind::Advice => column.index < self.num_advice,
            ColumnKind::Instance => column.index < self.num_instance,
        }
    }
}

} // verus!
