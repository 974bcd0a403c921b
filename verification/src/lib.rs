//! Fibonacci circuits over a PLONKish table.
//!
//! A circuit is described in two steps. Its shape is declared on a
//! [`constraint_system::ConstraintSystem`]: columns, a selector, the columns
//! that copy constraints may name, and one addition gate. Its witness is then
//! written into a [`table::Table`] over that system, cell by cell, and the
//! filled table is judged by the oracle in [`oracle`].
//!
//! Two layouts compute the same sequence: [`multi_column`] spends three
//! advice columns and one row for each step, [`single_column`] one advice
//! column read at three rows. What each of them writes is stated as a
//! sequence of writes to the table model of [`table_model`], and what those
//! writes amount to is proved in [`multi_column_soundness`] and
//! [`single_column_soundness`].

pub mod constraint_system;
pub mod field;
pub mod gate;
pub mod multi_column;
pub mod multi_column_soundness;
pub mod oracle;
pub mod recurrence;
pub mod single_column;
pub mod single_column_soundness;
pub mod table;
pub mod table_model;
