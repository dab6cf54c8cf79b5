//! Queries and conditions: the expressions over the cells and the state of
//! the rows around a row from which constraints are made.
//!
//! A query stands for a field element, a condition for a truth value. Both are
//! read at a row of a table; a rotation reaches the rows before and after it.
//! Rows beyond either end of the table read as padding.

use crate::field::{field_add, field_mul, field_sub, Fe};
use crate::kinds::{PathKind, PathSet, ProofKind, SegmentKind, SegmentSet};
use crate::row::{table_view, AdviceColumn, Indicator, Row, RowView};
use vstd::prelude::*;

verus! {

/// An expression that stands for a field element at each row.
#[derive(Debug)]
pub enum Query {
    /// The same element at every row.
    Constant(Fe),
    /// The cell of a column, so many rows after the row (before it, when
    /// negative).
    Cell(AdviceColumn, i32),
    /// The code of the claim kind of the row.
    ProofKind,
    /// One where the segment kind of the row so many rows away is in the set,
    /// zero where it is not.
    SegmentMatches(SegmentSet, i32),
    Sum(Box<Query>, Box<Query>),
    Difference(Box<Query>, Box<Query>),
    Product(Box<Query>, Box<Query>),
}

/// An expression that stands for a truth value at each row.
#[derive(Debug)]
pub enum Condition {
    Always,
    /// The segment kind of the row so many rows away is in the set.
    Segment(SegmentSet, i32),
    /// The path kind of the row so many rows away is in the set.
    Path(PathSet, i32),
    /// The row belongs to a claim of the kind.
    Claim(ProofKind),
    /// The indicator of the row is set.
    Indicator(Indicator),
    Not(Box<Condition>),
    And(Box<Condition>, Box<Condition>),
}

/// The row at a place of the table, or padding beyond its ends.
pub open spec fn row_at(table: Seq<RowView>, row: int) -> RowView {
    if 0 <= row < table.len() {
        table[row]
    } else {
        RowView::padding()
    }
}

/// The element that a query stands for at a row.
pub open spec fn query_value(query: Query, table: Seq<RowView>, row: int) -> nat
    decreases query,
{
    match query {
        Query::Constant(c) => c@,
        Query::Cell(column, rotation) => row_at(table, row + rotation).cell(column),
        Query::ProofKind => row_at(table, row).proof_kind.spec_code(),
        Query::SegmentMatches(set, rotation) => if set.spec_contains(
            row_at(table, row + rotation).segment_kind,
        ) {
            1
        } else {
            0
        },
        Query::Sum(a, b) => field_add(query_value(*a, table, row), query_value(*b, table, row)),
        Query::Difference(a, b) => field_sub(
            query_value(*a, table, row),
            query_value(*b, table, row),
        ),
        Query::Product(a, b) => field_mul(query_value(*a, table, row), query_value(*b, table, row)),
    }
}

/// Whether a condition holds at a row.
pub open spec fn condition_holds(condition: Condition, table: Seq<RowView>, row: int) -> bool
    decreases condition,
{
    match condition {
        Condition::Always => true,
        Condition::Segment(set, rotation) => set.spec_contains(
            row_at(table, row + rotation).segment_kind,
        ),
        Condition::Path(set, rotation) => set.spec_contains(row_at(table, row + rotation).path_kind),
        Condition::Claim(kind) => row_at(table, row).proof_kind == kind,
        Condition::Indicator(indicator) => row_at(table, row).indicator(indicator),
        Condition::Not(c) => !condition_holds(*c, table, row),
        Condition::And(a, b) => condition_holds(*a, table, row) && condition_holds(*b, table, row),
    }
}

/// The row so many rows after a row of the table, or padding beyond its ends.
pub fn rotated_row(rows: &[Row], row: usize, rotation: i32) -> (r: Row)
    ensures
        r@ == row_at(table_view(rows@), row + rotation),
{
    let place: i128 = row as i128 + rotation as i128;
    if 0 <= place && place < rows.len() as i128 {
        rows[place as usize]
    } else {
        Row::padding()
    }
}

impl AdviceColumn {
    /// The cell of this column so many rows after the row.
    pub fn rotation(self, i: i32) -> (r: Query)
        ensures
            forall|table: Seq<RowView>, row: int| #[trigger]
                query_value(r, table, row) == row_at(table, row + i).cell(self),
    {
        Query::Cell(self, i)
    }

    /// The cell of this column on the row.
    pub fn current(self) -> (r: Query)
        ensures
            forall|table: Seq<RowView>, row: int| #[trigger]
                query_value(r, table, row) == row_at(table, row).cell(self),
    {
        Query::Cell(self, 0)
    }

    /// The cell of this column on the row before.
    pub fn previous(self) -> (r: Query)
        ensures
            forall|table: Seq<RowView>, row: int| #[trigger]
                query_value(r, table, row) == row_at(table, row - 1).cell(self),
    {
        Query::Cell(self, -1)
    }
}

impl Query {
    /// The query that stands for the same element at every row.
    pub fn constant(value: Fe) -> (r: Query)
        ensures
            forall|table: Seq<RowView>, row: int| #[trigger] query_value(r, table, row) == value@,
    {
        Query::Constant(value)
    }

    /// The query that stands for a number at every row.
    pub fn number(x: u64) -> (r: Query)
        ensures
            forall|table: Seq<RowView>, row: int| #[trigger] query_value(r, table, row) == x,
    {
        Query::Constant(Fe::from_u64(x))
    }

    /// The query that stands for zero.
    pub fn zero() -> (r: Query)
        ensures
            forall|table: Seq<RowView>, row: int| #[trigger] query_value(r, table, row) == 0,
    {
        Query::Constant(Fe::zero())
    }

    /// The query that stands for one.
    pub fn one() -> (r: Query)
        ensures
            forall|table: Seq<RowView>, row: int| #[trigger] query_value(r, table, row) == 1,
    {
        Query::Constant(Fe::one())
    }

    /// The code of the claim kind of the row.
    pub fn proof_kind() -> (r: Query)
        ensures
            forall|table: Seq<RowView>, row: int| #[trigger]
                query_value(r, table, row) == row_at(table, row).proof_kind.spec_code(),
    {
        Query::ProofKind
    }

    /// One where the segment kind of the row is in the set, zero where it is
    /// not.
    pub fn segment_matches(set: SegmentSet) -> (r: Query)
        ensures
            forall|table: Seq<RowView>, row: int| #[trigger]
                query_value(r, table, row) == if set.spec_contains(row_at(table, row).segment_kind) {
                    1nat
                } else {
                    0nat
                },
    {
        Query::SegmentMatches(set, 0)
    }

    /// The sum of two queries.
    pub fn plus(self, other: Query) -> (r: Query)
        ensures
            forall|table: Seq<RowView>, row: int| #[trigger]
                query_value(r, table, row) == field_add(
                    query_value(self, table, row),
                    query_value(other, table, row),
                ),
    {
        Query::Sum(Box::new(self), Box::new(other))
    }

    /// The difference of two queries.
    pub fn minus(self, other: Query) -> (r: Query)
        ensures
            forall|table: Seq<RowView>, row: int| #[trigger]
                query_value(r, table, row) == field_sub(
                    query_value(self, table, row),
                    query_value(other, table, row),
                ),
    {
        Query::Difference(Box::new(self), Box::new(other))
    }

    /// The product of two queries.
    pub fn times(self, other: Query) -> (r: Query)
        ensures
            forall|table: Seq<RowView>, row: int| #[trigger]
                query_value(r, table, row) == field_mul(
                    query_value(self, table, row),
                    query_value(other, table, row),
                ),
    {
        Query::Product(Box::new(self), Box::new(other))
    }

    /// The element that the query stands for at a row of a table.
    pub fn evaluate(&self, rows: &[Row], row: usize) -> (r: Fe)
        ensures
            r@ == query_value(*self, table_view(rows@), row as int),
        decreases self,
    {
        match self {
            Query::Constant(c) => *c,
            Query::Cell(column, rotation) => rotated_row(rows, row, *rotation).cell(*column),
            Query::ProofKind => Fe::from_u64(rotated_row(rows, row, 0).proof_kind.code()),
            Query::SegmentMatches(set, rotation) => Fe::from_bool(
                set.contains(rotated_row(rows, row, *rotation).segment_kind),
            ),
            Query::Sum(a, b) => a.evaluate(rows, row).add(&b.evaluate(rows, row)),
            Query::Difference(a, b) => a.evaluate(rows, row).sub(&b.evaluate(rows, row)),
            Query::Product(a, b) => a.evaluate(rows, row).mul(&b.evaluate(rows, row)),
        }
    }
}

impl Condition {
    /// The condition that holds at every row.
    pub fn always() -> (r: Condition)
        ensures
            forall|table: Seq<RowView>, row: int| #[trigger] condition_holds(r, table, row),
    {
        Condition::Always
    }

    /// The segment kind of the row so many rows away is in the set.
    pub fn segment(set: SegmentSet, rotation: i32) -> (r: Condition)
        ensures
            forall|table: Seq<RowView>, row: int| #[trigger]
                condition_holds(r, table, row) == set.spec_contains(
                    row_at(table, row + rotation).segment_kind,
                ),
    {
        Condition::Segment(set, rotation)
    }

    /// The path kind of the row so many rows away is in the set.
    pub fn path(set: PathSet, rotation: i32) -> (r: Condition)
        ensures
            forall|table: Seq<RowView>, row: int| #[trigger]
                condition_holds(r, table, row) == set.spec_contains(
                    row_at(table, row + rotation).path_kind,
                ),
    {
        Condition::Path(set, rotation)
    }

    /// The segment kind of the row so many rows away is the given one.
    pub fn segment_is(kind: SegmentKind, rotation: i32) -> (r: Condition)
        ensures
            forall|table: Seq<RowView>, row: int| #[trigger]
                condition_holds(r, table, row) == (row_at(table, row + rotation).segment_kind
                    == kind),
    {
        Condition::Segment(SegmentSet::only(kind), rotation)
    }

    /// The path kind of the row so many rows away is the given one.
    pub fn path_is(kind: PathKind, rotation: i32) -> (r: Condition)
        ensures
            forall|table: Seq<RowView>, row: int| #[trigger]
                condition_holds(r, table, row) == (row_at(table, row + rotation).path_kind == kind),
    {
        Condition::Path(PathSet::only(kind), rotation)
    }

    /// The row so many rows away is a trie row.
    pub fn is_trie(rotation: i32) -> (r: Condition)
        ensures
            forall|table: Seq<RowView>, row: int| #[trigger]
                condition_holds(r, table, row) == row_at(
                    table,
                    row + rotation,
                ).segment_kind.spec_is_trie(),
    {
        Condition::Segment(SegmentSet::trie(), rotation)
    }

    /// The row belongs to a claim of the kind.
    pub fn claim_is(kind: ProofKind) -> (r: Condition)
        ensures
            forall|table: Seq<RowView>, row: int| #[trigger]
                condition_holds(r, table, row) == (row_at(table, row).proof_kind == kind),
    {
        Condition::Claim(kind)
    }

    /// The indicator of the row is set.
    pub fn indicator(indicator: Indicator) -> (r: Condition)
        ensures
            forall|table: Seq<RowView>, row: int| #[trigger]
                condition_holds(r, table, row) == row_at(table, row).indicator(indicator),
    {
        Condition::Indicator(indicator)
    }

    /// The condition does not hold.
    pub fn not(self) -> (r: Condition)
        ensures
            forall|table: Seq<RowView>, row: int| #[trigger]
                condition_holds(r, table, row) == !condition_holds(self, table, row),
    {
        Condition::Not(Box::new(self))
    }

    /// Both conditions hold.
    pub fn and(self, other: Condition) -> (r: Condition)
        ensures
            forall|table: Seq<RowView>, row: int| #[trigger]
                condition_holds(r, table, row) == (condition_holds(self, table, row)
                    && condition_holds(other, table, row)),
    {
        Condition::And(Box::new(self), Box::new(other))
    }

    /// Whether the condition holds at a row of a table.
    pub fn evaluate(&self, rows: &[Row], row: usize) -> (r: bool)
        ensures
            r == condition_holds(*self, table_view(rows@), row as int),
        decreases self,
    {
        match self {
            Condition::Always => true,
            Condition::Segment(set, rotation) => set.contains(
                rotated_row(rows, row, *rotation).segment_kind,
            ),
            Condition::Path(set, rotation) => set.contains(
                rotated_row(rows, row, *rotation).path_kind,
            ),
            Condition::Claim(kind) => rotated_row(rows, row, 0).proof_kind == *kind,
            Condition::Indicator(indicator) => rotated_row(rows, row, 0).indicator(*indicator),
            Condition::Not(c) => !c.evaluate(rows, row),
            Condition::And(a, b) => a.evaluate(rows, row) && b.evaluate(rows, row),
        }
    }
}

} // verus!
