//! Checks a table of rows against the constraints, row by row.

use crate::config::MptUpdateConfig;
use crate::constraint::{all_hold, constraint_holds, satisfied, Constraint, LookupTables};
use crate::row::{table_view, Row};
use vstd::prelude::*;

verus! {

/// A constraint that does not hold at a row.
#[derive(Clone, Copy, Debug, PartialEq, Eq, Structural)]
pub struct Violation {
    /// The place of the row in the table.
    pub row: usize,
    /// The place of the constraint among the constraints.
    pub constraint: usize,
}

/// The first constraint that does not hold at a row, if there is one.
pub fn check_row(constraints: &[Constraint], rows: &[Row], row: usize, tables: &LookupTables) -> (r:
    Option<usize>)
    ensures
        match r {
            None => all_hold(constraints@, table_view(rows@), row as int, tables@),
            Some(k) => {
                &&& k < constraints@.len()
                &&& !constraint_holds(constraints@[k as int], table_view(rows@), row as int, tables@)
                &&& forall|j: int|
                    0 <= j < k ==> constraint_holds(
                        #[trigger] constraints@[j],
                        table_view(rows@),
                        row as int,
                        tables@,
                    )
            },
        },
{
    let mut k: usize = 0;
    while k < constraints.len()
        invariant
            k <= constraints@.len(),
            forall|j: int|
                0 <= j < k ==> constraint_holds(
                    #[trigger] constraints@[j],
                    table_view(rows@),
                    row as int,
                    tables@,
                ),
        decreases constraints@.len() - k,
    {
        if !constraints[k].check(rows, row, tables) {
            return Some(k);
        }
        k += 1;
    }
    None
}

/// The first row of a table at which a constraint does not hold, with the
/// first such constraint, if there is one.
pub fn check_table(constraints: &[Constraint], rows: &[Row], tables: &LookupTables) -> (r: Result<
    (),
    Violation,
>)
    ensures
        match r {
            Ok(()) => satisfied(constraints@, table_view(rows@), tables@),
            Err(v) => {
                &&& v.row < rows@.len()
                &&& v.constraint < constraints@.len()
                &&& !constraint_holds(
                    constraints@[v.constraint as int],
                    table_view(rows@),
                    v.row as int,
                    tables@,
                )
                &&& forall|j: int|
                    0 <= j < v.constraint ==> constraint_holds(
                        #[trigger] constraints@[j],
                        table_view(rows@),
                        v.row as int,
                        tables@,
                    )
                &&& forall|i: int|
                    0 <= i < v.row ==> #[trigger] all_hold(
                        constraints@,
                        table_view(rows@),
                        i,
                        tables@,
                    )
            },
        },
{
    let mut row: usize = 0;
    while row < rows.len()
        invariant
            row <= rows@.len(),
            forall|i: int|
                0 <= i < row ==> #[trigger] all_hold(constraints@, table_view(rows@), i, tables@),
        decreases rows@.len() - row,
    {
        match check_row(constraints, rows, row, tables) {
            Some(constraint) => { return Err(Violation { row, constraint }); },
            None => {},
        }
        row += 1;
    }
    Ok(())
}

impl MptUpdateConfig {
    /// Checks a table against the constraints: it is satisfied, or there is a
    /// first row at which a first constraint does not hold.
    pub fn check(&self, rows: &[Row], tables: &LookupTables) -> (r: Result<(), Violation>)
        ensures
            r is Ok == satisfied(self.constraints@, table_view(rows@), tables@),
            match r {
                Ok(()) => true,
                Err(v) => {
                    &&& v.row < rows@.len()
                    &&& v.constraint < self.constraints@.len()
                    &&& !constraint_holds(
                        self.constraints@[v.constraint as int],
                        table_view(rows@),
                        v.row as int,
                        tables@,
                    )
                    &&& forall|j: int|
                        0 <= j < v.constraint ==> constraint_holds(
                            #[trigger] self.constraints@[j],
                            table_view(rows@),
                            v.row as int,
                            tables@,
                        )
                    &&& forall|i: int|
                        0 <= i < v.row ==> #[trigger] all_hold(
                            self.constraints@,
                            table_view(rows@),
                            i,
                            tables@,
                        )
                },
            },
    {
        let r = check_table(self.constraints.as_slice(), rows, tables);
        proof {
            if let Err(v) = r {
                assert(!all_hold(self.constraints@, table_view(rows@), v.row as int, tables@));
            }
        }
        r
    }
}

} // verus!
