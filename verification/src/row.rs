//! The row: the unit of the constraint table. A row holds its state (claim
//! kind, segment kind, path kind), one field element for each column, and three
//! indicators derived from its cells.

use crate::field::Fe;
use crate::kinds::{PathKind, ProofKind, SegmentKind};
use vstd::prelude::*;

verus! {

/// The columns of the table that hold field elements.
#[derive(Clone, Copy, Debug, PartialEq, Eq, Structural)]
pub enum AdviceColumn {
    OldHash,
    NewHash,
    OldValue,
    NewValue,
    Address,
    StorageKey,
    Depth,
    Key,
    OtherKey,
    OtherKeyHash,
    OtherLeafDataHash,
    Direction,
    Sibling,
    UpperAddressBits,
}

/// The indicators that a row derives from its cells.
#[derive(Clone, Copy, Debug, PartialEq, Eq, Structural)]
pub enum Indicator {
    /// The old hash is zero.
    OldHashIsZero,
    /// The new hash is zero.
    NewHashIsZero,
    /// The key equals the other key.
    KeyEqualsOtherKey,
}

/// One row of the table.
#[derive(Clone, Copy, Debug)]
pub struct Row {
    pub proof_kind: ProofKind,
    pub segment_kind: SegmentKind,
    pub path_kind: PathKind,
    pub old_hash: Fe,
    pub new_hash: Fe,
    pub old_value: Fe,
    pub new_value: Fe,
    pub address: Fe,
    pub storage_key: Fe,
    pub depth: Fe,
    pub key: Fe,
    pub other_key: Fe,
    pub other_key_hash: Fe,
    pub other_leaf_data_hash: Fe,
    pub direction: Fe,
    pub sibling: Fe,
    pub upper_address_bits: Fe,
    pub old_hash_is_zero: bool,
    pub new_hash_is_zero: bool,
    pub key_equals_other_key: bool,
}

/// What a row is to the constraints: its state, the number in each cell, and
/// its indicators.
pub struct RowView {
    pub proof_kind: ProofKind,
    pub segment_kind: SegmentKind,
    pub path_kind: PathKind,
    pub old_hash: nat,
    pub new_hash: nat,
    pub old_value: nat,
    pub new_value: nat,
    pub address: nat,
    pub storage_key: nat,
    pub depth: nat,
    pub key: nat,
    pub other_key: nat,
    pub other_key_hash: nat,
    pub other_leaf_data_hash: nat,
    pub direction: nat,
    pub sibling: nat,
    pub upper_address_bits: nat,
    pub old_hash_is_zero: bool,
    pub new_hash_is_zero: bool,
    pub key_equals_other_key: bool,
}

impl RowView {
    /// The number in the cell of a column.
    pub open spec fn cell(self, column: AdviceColumn) -> nat {
        match column {
            AdviceColumn::OldHash => self.old_hash,
            AdviceColumn::NewHash => self.new_hash,
            AdviceColumn::OldValue => self.old_value,
            AdviceColumn::NewValue => self.new_value,
            AdviceColumn::Address => self.address,
            AdviceColumn::StorageKey => self.storage_key,
            AdviceColumn::Depth => self.depth,
            AdviceColumn::Key => self.key,
            AdviceColumn::OtherKey => self.other_key,
            AdviceColumn::OtherKeyHash => self.other_key_hash,
            AdviceColumn::OtherLeafDataHash => self.other_leaf_data_hash,
            AdviceColumn::Direction => self.direction,
            AdviceColumn::Sibling => self.sibling,
            AdviceColumn::UpperAddressBits => self.upper_address_bits,
        }
    }

    /// The value of an indicator.
    pub open spec fn indicator(self, which: Indicator) -> bool {
        match which {
            Indicator::OldHashIsZero => self.old_hash_is_zero,
            Indicator::NewHashIsZero => self.new_hash_is_zero,
            Indicator::KeyEqualsOtherKey => self.key_equals_other_key,
        }
    }

    /// A row outside any claim: the state in which a claim starts, every cell
    /// zero.
    pub open spec fn padding() -> RowView {
        RowView {
            proof_kind: ProofKind::NonceChanged,
            segment_kind: SegmentKind::Start,
            path_kind: PathKind::Start,
            old_hash: 0,
            new_hash: 0,
            old_value: 0,
            new_value: 0,
            address: 0,
            storage_key: 0,
            depth: 0,
            key: 0,
            other_key: 0,
            other_key_hash: 0,
            other_leaf_data_hash: 0,
            direction: 0,
            sibling: 0,
            upper_address_bits: 0,
            old_hash_is_zero: true,
            new_hash_is_zero: true,
            key_equals_other_key: true,
        }
    }

    /// Whether every cell holds a reduced field element.
    pub open spec fn reduced(self) -> bool {
        forall|column: AdviceColumn| #[trigger] self.cell(column) < crate::field::modulus()
    }
}

impl View for Row {
    type V = RowView;

    open spec fn view(&self) -> RowView {
        RowView {
            proof_kind: self.proof_kind,
            segment_kind: self.segment_kind,
            path_kind: self.path_kind,
            old_hash: self.old_hash@,
            new_hash: self.new_hash@,
            old_value: self.old_value@,
            new_value: self.new_value@,
            address: self.address@,
            storage_key: self.storage_key@,
            depth: self.depth@,
            key: self.key@,
            other_key: self.other_key@,
            other_key_hash: self.other_key_hash@,
            other_leaf_data_hash: self.other_leaf_data_hash@,
            direction: self.direction@,
            sibling: self.sibling@,
            upper_address_bits: self.upper_address_bits@,
            old_hash_is_zero: self.old_hash_is_zero,
            new_hash_is_zero: self.new_hash_is_zero,
            key_equals_other_key: self.key_equals_other_key,
        }
    }
}

/// The rows of a table as the constraints see them.
pub open spec fn table_view(rows: Seq<Row>) -> Seq<RowView> {
    Seq::new(rows.len(), |i: int| rows[i]@)
}

impl Row {
    /// A row outside any claim.
    pub fn padding() -> (r: Row)
        ensures
            r@ == RowView::padding(),
    {
        Row {
            proof_kind: ProofKind::NonceChanged,
            segment_kind: SegmentKind::Start,
            path_kind: PathKind::Start,
            old_hash: Fe::zero(),
            new_hash: Fe::zero(),
            old_value: Fe::zero(),
            new_value: Fe::zero(),
            address: Fe::zero(),
            storage_key: Fe::zero(),
            depth: Fe::zero(),
            key: Fe::zero(),
            other_key: Fe::zero(),
            other_key_hash: Fe::zero(),
            other_leaf_data_hash: Fe::zero(),
            direction: Fe::zero(),
            sibling: Fe::zero(),
            upper_address_bits: Fe::zero(),
            old_hash_is_zero: true,
            new_hash_is_zero: true,
            key_equals_other_key: true,
        }
    }

    /// The element in the cell of a column.
    pub fn cell(&self, column: AdviceColumn) -> (r: Fe)
        ensures
            r@ == self@.cell(column),
    {
        match column {
            AdviceColumn::OldHash => self.old_hash,
            AdviceColumn::NewHash => self.new_hash,
            AdviceColumn::OldValue => self.old_value,
            AdviceColumn::NewValue => self.new_value,
            AdviceColumn::Address => self.address,
            AdviceColumn::StorageKey => self.storage_key,
            AdviceColumn::Depth => self.depth,
            AdviceColumn::Key => self.key,
            AdviceColumn::OtherKey => self.other_key,
            AdviceColumn::OtherKeyHash => self.other_key_hash,
            AdviceColumn::OtherLeafDataHash => self.other_leaf_data_hash,
            AdviceColumn::Direction => self.direction,
            AdviceColumn::Sibling => self.sibling,
            AdviceColumn::UpperAddressBits => self.upper_address_bits,
        }
    }

    /// The value of an indicator.
    pub fn indicator(&self, which: Indicator) -> (r: bool)
        ensures
            r == self@.indicator(which),
    {
        match which {
            Indicator::OldHashIsZero => self.old_hash_is_zero,
            Indicator::NewHashIsZero => self.new_hash_is_zero,
            Indicator::KeyEqualsOtherKey => self.key_equals_other_key,
        }
    }
}

impl AdviceColumn {
    /// Writes a value to this column's cell of a row and leaves the rest of
    /// the row as it was.
    pub fn assign(&self, row: &mut Row, value: Fe)
        ensures
            final(row)@.cell(*self) == value@,
            forall|column: AdviceColumn|
                column != *self ==> #[trigger] final(row)@.cell(column) == old(row)@.cell(column),
            final(row).proof_kind == old(row).proof_kind,
            final(row).segment_kind == old(row).segment_kind,
            final(row).path_kind == old(row).path_kind,
            forall|which: Indicator|
                #[trigger] final(row)@.indicator(which) == old(row)@.indicator(which),
    {
        match self {
            AdviceColumn::OldHash => { row.old_hash = value; },
            AdviceColumn::NewHash => { row.new_hash = value; },
            AdviceColumn::OldValue => { row.old_value = value; },
            AdviceColumn::NewValue => { row.new_value = value; },
            AdviceColumn::Address => { row.address = value; },
            AdviceColumn::StorageKey => { row.storage_key = value; },
            AdviceColumn::Depth => { row.depth = value; },
            AdviceColumn::Key => { row.key = value; },
            AdviceColumn::OtherKey => { row.other_key = value; },
            AdviceColumn::OtherKeyHash => { row.other_key_hash = value; },
            AdviceColumn::OtherLeafDataHash => { row.other_leaf_data_hash = value; },
            AdviceColumn::Direction => { row.direction = value; },
            AdviceColumn::Sibling => { row.sibling = value; },
            AdviceColumn::UpperAddressBits => { row.upper_address_bits = value; },
        }
    }
}

} // verus!
