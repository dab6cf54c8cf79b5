//! Constraints: what must hold at every row of a table, and the relations
//! that lookups refer to.
//!
//! A constraint is an equality between queries, a requirement on the state of
//! the rows around a row, or a lookup: the demand that the values of some
//! queries form a line of a relation that someone else maintains. Each is
//! guarded by a condition and binds a row only where its condition holds.

use crate::claim::HashTable;
use crate::field::Fe;
use crate::query::{condition_holds, query_value, row_at, Condition, Query};
use crate::row::{table_view, Indicator, Row, RowView};
use vstd::prelude::*;

verus! {

/// A constraint on the rows of a table.
#[derive(Debug)]
pub enum Constraint {
    /// Where the condition holds, the query is zero.
    Zero { name: &'static str, when: Condition, query: Query },
    /// Where the condition holds, the two queries are equal.
    Equal { name: &'static str, when: Condition, left: Query, right: Query },
    /// Where the first condition holds, so does the second.
    Require { name: &'static str, when: Condition, then: Condition },
    /// The indicator is set exactly where the query is zero.
    Flag { name: &'static str, indicator: Indicator, query: Query },
    /// Where the condition holds, the hash relation says that the third query
    /// is the hash of the first two.
    Hash { name: &'static str, when: Condition, left: Query, right: Query, hash: Query },
    /// Where the condition holds, the key-bit relation says that the bit of
    /// the key at the index is the third query.
    KeyBit { name: &'static str, when: Condition, key: Query, index: Query, bit: Query },
    /// Where the condition holds, the byte-range relation says that the value
    /// has no byte after the one with the given number, counted from zero.
    ByteRange { name: &'static str, when: Condition, value: Query, last_byte: Query },
}

/// One line of the key-bit relation: the bit of `key` at `index`.
#[derive(Clone, Copy, Debug)]
pub struct KeyBit {
    pub key: Fe,
    pub index: usize,
    pub bit: bool,
}

impl View for KeyBit {
    type V = (nat, nat, nat);

    open spec fn view(&self) -> (nat, nat, nat) {
        (
            self.key@,
            self.index as nat,
            if self.bit {
                1
            } else {
                0
            },
        )
    }
}

/// One line of the byte-range relation: `value` has no byte after the one
/// with the number `last_byte`, counted from zero.
#[derive(Clone, Copy, Debug)]
pub struct ByteRange {
    pub value: Fe,
    pub last_byte: u8,
}

impl View for ByteRange {
    type V = (nat, nat);

    open spec fn view(&self) -> (nat, nat) {
        (self.value@, self.last_byte as nat)
    }
}

/// The relations that lookups refer to, as the lines of them that are known.
pub struct LookupTables {
    pub hashes: HashTable,
    pub key_bits: Vec<KeyBit>,
    pub byte_ranges: Vec<ByteRange>,
}

/// The relations that lookups refer to.
pub struct Relations {
    /// Left, right, and the hash of the two.
    pub hash: Seq<(nat, nat, nat)>,
    /// Key, index, and the bit of the key at the index.
    pub key_bit: Seq<(nat, nat, nat)>,
    /// Value, and the number of its last byte.
    pub byte_range: Seq<(nat, nat)>,
}

impl View for LookupTables {
    type V = Relations;

    open spec fn view(&self) -> Relations {
        Relations {
            hash: self.hashes@,
            key_bit: Seq::new(self.key_bits@.len(), |i: int| self.key_bits@[i]@),
            byte_range: Seq::new(self.byte_ranges@.len(), |i: int| self.byte_ranges@[i]@),
        }
    }
}

impl LookupTables {
    /// Whether the key-bit relation has the line.
    pub fn has_key_bit(&self, key: &Fe, index: &Fe, bit: &Fe) -> (r: bool)
        ensures
            r == self@.key_bit.contains((key@, index@, bit@)),
    {
        let mut i: usize = 0;
        while i < self.key_bits.len()
            invariant
                i <= self.key_bits@.len(),
                forall|k: int| 0 <= k < i ==> #[trigger] self@.key_bit[k] != (key@, index@, bit@),
            decreases self.key_bits@.len() - i,
        {
            let e = &self.key_bits[i];
            if e.key.equals(key) && Fe::from_u64(e.index as u64).equals(index) && Fe::from_bool(
                e.bit,
            ).equals(bit) {
                assert(self@.key_bit[i as int] == (key@, index@, bit@));
                return true;
            }
            i += 1;
        }
        false
    }

    /// Whether the byte-range relation has the line.
    pub fn has_byte_range(&self, value: &Fe, last_byte: &Fe) -> (r: bool)
        ensures
            r == self@.byte_range.contains((value@, last_byte@)),
    {
        let mut i: usize = 0;
        while i < self.byte_ranges.len()
            invariant
                i <= self.byte_ranges@.len(),
                forall|k: int| 0 <= k < i ==> #[trigger] self@.byte_range[k] != (value@, last_byte@),
            decreases self.byte_ranges@.len() - i,
        {
            let e = &self.byte_ranges[i];
            if e.value.equals(value) && Fe::from_u64(e.last_byte as u64).equals(last_byte) {
                assert(self@.byte_range[i as int] == (value@, last_byte@));
                return true;
            }
            i += 1;
        }
        false
    }
}

/// Whether a constraint holds at a row of a table.
pub open spec fn constraint_holds(
    constraint: Constraint,
    table: Seq<RowView>,
    row: int,
    relations: Relations,
) -> bool {
    match constraint {
        Constraint::Zero { name, when, query } => condition_holds(when, table, row) ==> query_value(
            query,
            table,
            row,
        ) == 0,
        Constraint::Equal { name, when, left, right } => condition_holds(when, table, row)
            ==> query_value(left, table, row) == query_value(right, table, row),
        Constraint::Require { name, when, then } => condition_holds(when, table, row)
            ==> condition_holds(then, table, row),
        Constraint::Flag { name, indicator, query } => row_at(table, row).indicator(indicator) == (
        query_value(query, table, row) == 0),
        Constraint::Hash { name, when, left, right, hash } => condition_holds(when, table, row)
            ==> relations.hash.contains(
            (
                query_value(left, table, row),
                query_value(right, table, row),
                query_value(hash, table, row),
            ),
        ),
        Constraint::KeyBit { name, when, key, index, bit } => condition_holds(when, table, row)
            ==> relations.key_bit.contains(
            (
                query_value(key, table, row),
                query_value(index, table, row),
                query_value(bit, table, row),
            ),
        ),
        Constraint::ByteRange { name, when, value, last_byte } => condition_holds(when, table, row)
            ==> relations.byte_range.contains(
            (query_value(value, table, row), query_value(last_byte, table, row)),
        ),
    }
}

/// Whether all constraints hold at a row of a table.
pub open spec fn all_hold(
    constraints: Seq<Constraint>,
    table: Seq<RowView>,
    row: int,
    relations: Relations,
) -> bool {
    forall|k: int|
        0 <= k < constraints.len() ==> constraint_holds(
            #[trigger] constraints[k],
            table,
            row,
            relations,
        )
}

/// Whether a table satisfies the constraints: all of them hold at each of its
/// rows.
pub open spec fn satisfied(constraints: Seq<Constraint>, table: Seq<RowView>, relations: Relations) -> bool {
    forall|row: int| 0 <= row < table.len() ==> #[trigger] all_hold(constraints, table, row, relations)
}

/// All of some constraints and one more hold where all of them hold and the
/// one more holds.
pub proof fn lemma_all_hold_push(
    constraints: Seq<Constraint>,
    constraint: Constraint,
    table: Seq<RowView>,
    row: int,
    relations: Relations,
)
    ensures
        all_hold(constraints.push(constraint), table, row, relations) == (all_hold(
            constraints,
            table,
            row,
            relations,
        ) && constraint_holds(constraint, table, row, relations)),
{
    let more = constraints.push(constraint);
    if all_hold(more, table, row, relations) {
        assert(more[constraints.len() as int] == constraint);
        assert forall|k: int| 0 <= k < constraints.len() implies constraint_holds(
            #[trigger] constraints[k],
            table,
            row,
            relations,
        ) by {
            assert(more[k] == constraints[k]);
        }
    }
    if all_hold(constraints, table, row, relations) && constraint_holds(
        constraint,
        table,
        row,
        relations,
    ) {
        assert forall|k: int| 0 <= k < more.len() implies constraint_holds(
            #[trigger] more[k],
            table,
            row,
            relations,
        ) by {
            if k < constraints.len() {
                assert(more[k] == constraints[k]);
            }
        }
    }
}

impl Constraint {
    /// The name of the constraint.
    pub open spec fn spec_name(&self) -> &'static str {
        match self {
            Constraint::Zero { name, .. } => *name,
            Constraint::Equal { name, .. } => *name,
            Constraint::Require { name, .. } => *name,
            Constraint::Flag { name, .. } => *name,
            Constraint::Hash { name, .. } => *name,
            Constraint::KeyBit { name, .. } => *name,
            Constraint::ByteRange { name, .. } => *name,
        }
    }

    /// The name of the constraint.
    #[verifier::when_used_as_spec(spec_name)]
    pub fn name(&self) -> (r: &'static str)
        ensures
            r == self.spec_name(),
    {
        match self {
            Constraint::Zero { name, .. } => name,
            Constraint::Equal { name, .. } => name,
            Constraint::Require { name, .. } => name,
            Constraint::Flag { name, .. } => name,
            Constraint::Hash { name, .. } => name,
            Constraint::KeyBit { name, .. } => name,
            Constraint::ByteRange { name, .. } => name,
        }
    }

    /// Whether the constraint holds at a row of a table.
    pub fn check(&self, rows: &[Row], row: usize, tables: &LookupTables) -> (r: bool)
        ensures
            r == constraint_holds(*self, table_view(rows@), row as int, tables@),
    {
        match self {
            Constraint::Zero { name, when, query } => {
                !when.evaluate(rows, row) || query.evaluate(rows, row).is_zero()
            },
            Constraint::Equal { name, when, left, right } => {
                !when.evaluate(rows, row) || left.evaluate(rows, row).equals(
                    &right.evaluate(rows, row),
                )
            },
            Constraint::Require { name, when, then } => {
                !when.evaluate(rows, row) || then.evaluate(rows, row)
            },
            Constraint::Flag { name, indicator, query } => {
                crate::query::rotated_row(rows, row, 0).indicator(*indicator) == query.evaluate(
                    rows,
                    row,
                ).is_zero()
            },
            Constraint::Hash { name, when, left, right, hash } => {
                !when.evaluate(rows, row) || tables.hashes.contains(
                    &left.evaluate(rows, row),
                    &right.evaluate(rows, row),
                    &hash.evaluate(rows, row),
                )
            },
            Constraint::KeyBit { name, when, key, index, bit } => {
                !when.evaluate(rows, row) || tables.has_key_bit(
                    &key.evaluate(rows, row),
                    &index.evaluate(rows, row),
                    &bit.evaluate(rows, row),
                )
            },
            Constraint::ByteRange { name, when, value, last_byte } => {
                !when.evaluate(rows, row) || tables.has_byte_range(
                    &value.evaluate(rows, row),
                    &last_byte.evaluate(rows, row),
                )
            },
        }
    }
}

/// Collects constraints.
pub struct ConstraintBuilder {
    pub constraints: Vec<Constraint>,
}

impl ConstraintBuilder {
    /// Whether all constraints collected so far hold at a row of a table.
    pub open spec fn holds(&self, table: Seq<RowView>, row: int, relations: Relations) -> bool {
        all_hold(self.constraints@, table, row, relations)
    }

    /// A builder without constraints.
    pub fn new() -> (r: ConstraintBuilder)
        ensures
            r.constraints@.len() == 0,
            forall|table: Seq<RowView>, row: int, relations: Relations| #[trigger]
                r.holds(table, row, relations),
    {
        ConstraintBuilder { constraints: Vec::new() }
    }

    /// Adds a constraint.
    pub fn add(&mut self, constraint: Constraint)
        ensures
            final(self).constraints@ == old(self).constraints@.push(constraint),
            forall|table: Seq<RowView>, row: int, relations: Relations| #[trigger]
                final(self).holds(table, row, relations) == (old(self).holds(table, row, relations)
                    && constraint_holds(constraint, table, row, relations)),
    {
        proof {
            assert forall|table: Seq<RowView>, row: int, relations: Relations| #[trigger]
                all_hold(self.constraints@.push(constraint), table, row, relations) == (all_hold(
                    self.constraints@,
                    table,
                    row,
                    relations,
                ) && constraint_holds(constraint, table, row, relations)) by {
                lemma_all_hold_push(self.constraints@, constraint, table, row, relations);
            }
        }
        self.constraints.push(constraint);
    }

    /// Where the condition holds, the query must be zero.
    pub fn assert_zero(&mut self, name: &'static str, when: Condition, query: Query)
        ensures
            final(self).constraints@ == old(self).constraints@.push(
                (Constraint::Zero { name, when, query }),
            ),
            forall|table: Seq<RowView>, row: int, relations: Relations| #[trigger]
                final(self).holds(table, row, relations) == (old(self).holds(table, row, relations)
                    && (condition_holds(when, table, row) ==> query_value(query, table, row) == 0)),
    {
        self.add(Constraint::Zero { name, when, query });
    }

    /// Where the condition holds, the two queries must be equal.
    pub fn assert_equal(&mut self, name: &'static str, when: Condition, left: Query, right: Query)
        ensures
            final(self).constraints@ == old(self).constraints@.push(
                (Constraint::Equal { name, when, left, right }),
            ),
            forall|table: Seq<RowView>, row: int, relations: Relations| #[trigger]
                final(self).holds(table, row, relations) == (old(self).holds(table, row, relations)
                    && (condition_holds(when, table, row) ==> query_value(left, table, row)
                    == query_value(right, table, row))),
    {
        self.add(Constraint::Equal { name, when, left, right });
    }

    /// Where the first condition holds, the second must hold.
    pub fn require(&mut self, name: &'static str, when: Condition, then: Condition)
        ensures
            final(self).constraints@ == old(self).constraints@.push(
                (Constraint::Require { name, when, then }),
            ),
            forall|table: Seq<RowView>, row: int, relations: Relations| #[trigger]
                final(self).holds(table, row, relations) == (old(self).holds(table, row, relations)
                    && (condition_holds(when, table, row) ==> condition_holds(then, table, row))),
    {
        self.add(Constraint::Require { name, when, then });
    }

    /// The condition must hold nowhere.
    pub fn assert_unreachable(&mut self, name: &'static str, when: Condition)
        ensures
            final(self).constraints@ == old(self).constraints@.push(
                (Constraint::Require {
                    name,
                    when,
                    then: Condition::Not(Box::new(Condition::Always)),
                }),
            ),
            forall|table: Seq<RowView>, row: int, relations: Relations| #[trigger]
                final(self).holds(table, row, relations) == (old(self).holds(table, row, relations)
                    && !condition_holds(when, table, row)),
    {
        let never = Condition::Not(Box::new(Condition::Always));
        proof {
            assert forall|table: Seq<RowView>, row: int| !#[trigger] condition_holds(
                never,
                table,
                row,
            ) by {
                reveal_with_fuel(condition_holds, 2);
            }
        }
        self.add(Constraint::Require { name, when, then: never });
    }

    /// The indicator must be set exactly where the query is zero.
    pub fn define_indicator(&mut self, name: &'static str, indicator: Indicator, query: Query)
        ensures
            final(self).constraints@ == old(self).constraints@.push(
                (Constraint::Flag { name, indicator, query }),
            ),
            forall|table: Seq<RowView>, row: int, relations: Relations| #[trigger]
                final(self).holds(table, row, relations) == (old(self).holds(table, row, relations)
                    && (row_at(table, row).indicator(indicator) == (query_value(query, table, row)
                    == 0))),
    {
        self.add(Constraint::Flag { name, indicator, query });
    }

    /// Where the condition holds, the hash relation must say that the third
    /// query is the hash of the first two.
    pub fn add_hash_lookup(
        &mut self,
        name: &'static str,
        when: Condition,
        left: Query,
        right: Query,
        hash: Query,
    )
        ensures
            final(self).constraints@ == old(self).constraints@.push(
                (Constraint::Hash { name, when, left, right, hash }),
            ),
            forall|table: Seq<RowView>, row: int, relations: Relations| #[trigger]
                final(self).holds(table, row, relations) == (old(self).holds(table, row, relations)
                    && (condition_holds(when, table, row) ==> relations.hash.contains(
                    (
                        query_value(left, table, row),
                        query_value(right, table, row),
                        query_value(hash, table, row),
                    ),
                ))),
    {
        self.add(Constraint::Hash { name, when, left, right, hash });
    }

    /// Where the condition holds, the key-bit relation must say that the bit
    /// of the key at the index is the third query.
    pub fn add_key_bit_lookup(
        &mut self,
        name: &'static str,
        when: Condition,
        key: Query,
        index: Query,
        bit: Query,
    )
        ensures
            final(self).constraints@ == old(self).constraints@.push(
                (Constraint::KeyBit { name, when, key, index, bit }),
            ),
            forall|table: Seq<RowView>, row: int, relations: Relations| #[trigger]
                final(self).holds(table, row, relations) == (old(self).holds(table, row, relations)
                    && (condition_holds(when, table, row) ==> relations.key_bit.contains(
                    (
                        query_value(key, table, row),
                        query_value(index, table, row),
                        query_value(bit, table, row),
                    ),
                ))),
    {
        self.add(Constraint::KeyBit { name, when, key, index, bit });
    }

    /// Where the condition holds, the byte-range relation must say that the
    /// value has no byte after the one with the given number.
    pub fn add_byte_range_lookup(
        &mut self,
        name: &'static str,
        when: Condition,
        value: Query,
        last_byte: Query,
    )
        ensures
            final(self).constraints@ == old(self).constraints@.push(
                (Constraint::ByteRange { name, when, value, last_byte }),
            ),
            forall|table: Seq<RowView>, row: int, relations: Relations| #[trigger]
                final(self).holds(table, row, relations) == (old(self).holds(table, row, relations)
                    && (condition_holds(when, table, row) ==> relations.byte_range.contains(
                    (query_value(value, table, row), query_value(last_byte, table, row)),
                ))),
    {
        self.add(Constraint::ByteRange { name, when, value, last_byte });
    }
}

} // verus!
