//! Columns, selectors, cells and gates: the static vocabulary of a circuit.

use crate::field::Fe;
use vstd::prelude::*;

verus! {

/// What a column holds.
#[derive(Clone, Copy, Debug, PartialEq, Eq, Structural)]
pub enum ColumnKind {
    /// Holds private witness values.
    Advice,
    /// Holds public values.
    Instance,
}

/// A column of the table, named by its kind and its index among the columns
/// of that kind.
#[derive(Clone, Copy, Debug, PartialEq, Eq, Structural)]
pub struct Column {
    pub kind: ColumnKind,
    pub index: usize,
}

/// A row flag that switches gates on.
#[derive(Clone, Copy, Debug, PartialEq, Eq, Structural)]
pub struct Selector {
    pub index: usize,
}

/// A row offset relative to the row at which a gate is evaluated.
#[derive(Clone, Copy, Debug, PartialEq, Eq, Structural)]
pub struct Rotation(pub i32);

impl Rotation {
    pub fn cur() -> (r: Rotation)
        ensures
            r == Rotation(0),
    {
        Rotation(0)
    }

    pub fn prev() -> (r: Rotation)
        ensures
            r == Rotation(-1i32),
    {
        Rotation(-1)
    }

    pub fn next() -> (r: Rotation)
        ensures
            r == Rotation(1),
    {
        Rotation(1)
    }
}

/// A column read at a relative row offset.
#[derive(Clone, Copy, Debug, PartialEq, Eq, Structural)]
pub struct Query {
    pub column: Column,
    pub rotation: Rotation,
}

/// The identity of a cell: a column and an absolute row.
#[derive(Clone, Copy, Debug, PartialEq, Eq, Structural)]
pub struct Cell {
    pub column: Column,
    pub row: usize,
}

/// A position in the table, with the row as a mathematical integer.
pub type Pos = (Column, int);

impl View for Cell {
    type V = Pos;

    open spec fn view(&self) -> Pos {
        (self.column, self.row as int)
    }
}

/// A polynomial over the cells around a row.
#[derive(Debug)]
pub enum Expression {
    Constant(Fe),
    /// 1 where the selector is enabled at the row of evaluation, else 0.
    Selector(Selector),
    Query(Query),
    Negated(Box<Expression>),
    Sum(Box<Expression>, Box<Expression>),
    Product(Box<Expression>, Box<Expression>),
}

impl Expression {
    /// The column reads of the expression, left to right.
    pub open spec fn queries(self) -> Seq<Query>
        decreases self,
    {
        match self {
            Expression::Constant(_) => Seq::empty(),
            Expression::Selector(_) => Seq::empty(),
            Expression::Query(q) => seq![q],
            Expression::Negated(a) => a.queries(),
            Expression::Sum(a, b) => a.queries() + b.queries(),
            Expression::Product(a, b) => a.queries() + b.queries(),
        }
    }

    pub fn constant(value: Fe) -> (r: Expression)
        ensures
            r == Expression::Constant(value),
    {
        Expression::Constant(value)
    }

    pub fn selector(selector: Selector) -> (r: Expression)
        ensures
            r == Expression::Selector(selector),
    {
        Expression::Selector(selector)
    }

    pub fn query(column: Column, rotation: Rotation) -> (r: Expression)
        ensures
            r == Expression::Query((Query { column, rotation })),
    {
        Expression::Query(Query { column, rotation })
    }

    pub fn neg(self) -> (r: Expression)
        ensures
            r == Expression::Negated(Box::new(self)),
    {
        Expression::Negated(Box::new(self))
    }

    pub fn add(self, rhs: Expression) -> (r: Expression)
        ensures
            r == Expression::Sum(Box::new(self), Box::new(rhs)),
    {
        Expression::Sum(Box::new(self), Box::new(rhs))
    }

    /// `self - rhs`, held as the sum of `self` and the negated `rhs`.
    pub fn sub(self, rhs: Expression) -> (r: Expression)
        ensures
            r == Expression::Sum(Box::new(self), Box::new(Expression::Negated(Box::new(rhs)))),
    {
        Expression::Sum(Box::new(self), Box::new(Expression::Negated(Box::new(rhs))))
    }

    pub fn mul(self, rhs: Expression) -> (r: Expression)
        ensures
            r == Expression::Product(Box::new(self), Box::new(rhs)),
    {
        Expression::Product(Box::new(self), Box::new(rhs))
    }

    /// Appends the column reads of the expression to `out`.
    pub fn collect_queries(&self, out: &mut Vec<Query>)
        ensures
            final(out)@ == old(out)@ + self.queries(),
        decreases self,
    {
        match self {
            Expression::Constant(_) => {},
            Expression::Selector(_) => {},
            Expression::Query(q) => {
                out.push(*q);
            },
            Expression::Negated(a) => {
                a.collect_queries(out);
            },
            Expression::Sum(a, b) => {
                a.collect_queries(out);
                b.collect_queries(out);
            },
            Expression::Product(a, b) => {
                a.collect_queries(out);
                b.collect_queries(out);
            },
        }
    }
}

/// The constraint `selector * (a + b - c)`: where the selector is enabled,
/// the cell read by `c` holds the sum of those read by `a` and `b`.
pub open spec fn add_poly(selector: Selector, a: Query, b: Query, c: Query) -> Expression {
    Expression::Product(
        Box::new(Expression::Selector(selector)),
        Box::new(
            Expression::Sum(
                Box::new(
                    Expression::Sum(
                        Box::new(Expression::Query(a)),
                        Box::new(Expression::Query(b)),
                    ),
                ),
                Box::new(Expression::Negated(Box::new(Expression::Query(c)))),
            ),
        ),
    )
}

/// The addition constraint reads `a`, `b` and `c`, in that order.
pub proof fn lemma_add_poly_queries(selector: Selector, a: Query, b: Query, c: Query)
    ensures
        add_poly(selector, a, b, c).queries() == seq![a, b, c],
{
    reveal_with_fuel(Expression::queries, 5);
    assert(add_poly(selector, a, b, c).queries() =~= seq![a, b, c]);
}

/// Builds the constraint `selector * (a + b - c)`.
pub fn add_constraint(selector: Selector, a: Query, b: Query, c: Query) -> (r: Expression)
    ensures
        r == add_poly(selector, a, b, c),
{
    let s = Expression::selector(selector);
    let a = Expression::query(a.column, a.rotation);
    let b = Expression::query(b.column, b.rotation);
    let c = Expression::query(c.column, c.rotation);
    s.mul(a.add(b).sub(c))
}

/// The column reads of a list of expressions, in order.
pub open spec fn queries_of(polys: Seq<Expression>) -> Seq<Query>
    decreases polys.len(),
{
    if polys.len() == 0 {
        Seq::empty()
    } else {
        queries_of(polys.drop_last()) + polys.last().queries()
    }
}

/// A list of one expression reads what that expression reads.
pub proof fn lemma_queries_of_one(e: Expression)
    ensures
        queries_of(seq![e]) == e.queries(),
{
    let polys = seq![e];
    assert(polys.drop_last() =~= Seq::<Expression>::empty());
    assert(queries_of(polys.drop_last()) =~= Seq::<Query>::empty());
    assert(polys.last() == e);
    assert(queries_of(polys) =~= e.queries());
}

/// A named set of polynomial constraints, in force at the rows where its
/// selector is enabled.
#[derive(Debug)]
pub struct Gate {
    pub name: &'static str,
    pub selector: Selector,
    pub polys: Vec<Expression>,
}

/// A gate as contracts speak of it.
pub struct GateModel {
    pub name: Seq<char>,
    pub selector: Selector,
    pub polys: Seq<Expression>,
}

impl GateModel {
    /// Every column read that this gate makes around its row: its window.
    pub open spec fn queries(self) -> Seq<Query> {
        queries_of(self.polys)
    }
}

impl View for Gate {
    type V = GateModel;

    open spec fn view(&self) -> GateModel {
        GateModel { name: self.name@, selector: self.selector, polys: self.polys@ }
    }
}

/// Each gate of a list as contracts speak of it.
pub open spec fn gate_models(gates: Seq<Gate>) -> Seq<GateModel> {
    gates.map_values(|g: Gate| g@)
}

impl Gate {
    /// Every column read that this gate makes around its row.
    pub fn window(&self) -> (r: Vec<Query>)
        ensures
            r@ == self@.queries(),
    {
        let mut out: Vec<Query> = Vec::new();
        let mut i: usize = 0;
        while i < self.polys.len()
            invariant
                i <= self.polys.len(),
                out@ == queries_of(self.polys@.take(i as int)),
            decreases self.polys.len() - i,
        {
            proof {
                let next = self.polys@.take(i + 1);
                assert(next.drop_last() == self.polys@.take(i as int));
                assert(next.last() == self.polys@[i as int]);
            }
            self.polys[i].collect_queries(&mut out);
            i += 1;
        }
        proof {
            assert(self.polys@.take(i as int) == self.polys@);
        }
        out
    }
}

/// Why an assignment or a check failed.
#[derive(Clone, Copy, Debug, PartialEq, Eq, Structural)]
pub enum Error {
    /// A cell that an enabled gate reads, or a cell bound by a copy
    /// constraint, has no known value.
    MissingWitness,
    /// A copy constraint names a column on which equality was never enabled.
    InvalidEquality,
    /// A cell, a selector row or the window of a gate lies outside the table.
    OutOfBoundsWindow,
    /// A cell that holds a value was written again with another one.
    CellConflict,
    /// The assigned values break a gate or a copy constraint.
    ConstraintViolation,
}

} // verus!
