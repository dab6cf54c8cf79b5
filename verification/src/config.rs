//! The constraint generator: registers, for every state of a row and every
//! kind of claim, the constraints that hold exactly where the rules do.

use crate::constraint::{all_hold, Constraint, ConstraintBuilder, Relations};
use crate::field::{field_mul, modulus, Fe};
use crate::kinds::{PathKind, PathSet, ProofKind, SegmentKind, SegmentSet};
use crate::query::{condition_holds, query_value, row_at, Condition, Query};
use crate::row::{AdviceColumn, Indicator, RowView};
use crate::rules::{
    base_rules, claim_rules, code_size, common_rules, extension_new_rules, extension_old_rules,
    inverse_of_two_64, lemma_inverse_of_two_64, row_rules, select_left, select_right, state_rules,
    two_64,
};
use vstd::arithmetic::div_mod::{lemma_mul_mod_noop_left, lemma_mul_mod_noop_right, lemma_small_mod};
use vstd::arithmetic::mul::lemma_mul_is_associative;
use vstd::prelude::*;

verus! {

/// The child to the left under the node above the row, on the old side.
pub fn old_left() -> (r: Query)
    ensures
        forall|table: Seq<RowView>, row: int| #[trigger]
            query_value(r, table, row) == select_left(
                row_at(table, row).direction,
                row_at(table, row).old_hash,
                row_at(table, row).sibling,
            ),
{
    AdviceColumn::Direction.current().times(AdviceColumn::Sibling.current()).plus(
        Query::one().minus(AdviceColumn::Direction.current()).times(AdviceColumn::OldHash.current()),
    )
}

/// The child to the right under the node above the row, on the old side.
pub fn old_right() -> (r: Query)
    ensures
        forall|table: Seq<RowView>, row: int| #[trigger]
            query_value(r, table, row) == select_right(
                row_at(table, row).direction,
                row_at(table, row).old_hash,
                row_at(table, row).sibling,
            ),
{
    AdviceColumn::Direction.current().times(AdviceColumn::OldHash.current()).plus(
        Query::one().minus(AdviceColumn::Direction.current()).times(AdviceColumn::Sibling.current()),
    )
}

/// The child to the left under the node above the row, on the new side.
pub fn new_left() -> (r: Query)
    ensures
        forall|table: Seq<RowView>, row: int| #[trigger]
            query_value(r, table, row) == select_left(
                row_at(table, row).direction,
                row_at(table, row).new_hash,
                row_at(table, row).sibling,
            ),
{
    AdviceColumn::Direction.current().times(AdviceColumn::Sibling.current()).plus(
        Query::one().minus(AdviceColumn::Direction.current()).times(AdviceColumn::NewHash.current()),
    )
}

/// The child to the right under the node above the row, on the new side.
pub fn new_right() -> (r: Query)
    ensures
        forall|table: Seq<RowView>, row: int| #[trigger]
            query_value(r, table, row) == select_right(
                row_at(table, row).direction,
                row_at(table, row).new_hash,
                row_at(table, row).sibling,
            ),
{
    AdviceColumn::Direction.current().times(AdviceColumn::NewHash.current()).plus(
        Query::one().minus(AdviceColumn::Direction.current()).times(AdviceColumn::Sibling.current()),
    )
}

/// A reduced number has one inverse at most.
proof fn lemma_inverse_unique(a: nat, x: nat, y: nat)
    requires
        x < modulus(),
        y < modulus(),
        field_mul(a, x) == 1,
        field_mul(a, y) == 1,
    ensures
        x == y,
{
    let m = modulus() as int;
    let (a, x, y) = (a as int, x as int, y as int);
    lemma_small_mod(x as nat, m as nat);
    lemma_small_mod(y as nat, m as nat);
    assert((x * (a * y)) % m == x) by {
        lemma_mul_mod_noop_right(x, a * y, m);
        assert(x * 1 == x);
    }
    assert((x * (a * y)) % m == y) by {
        lemma_mul_is_associative(x, a, y);
        lemma_mul_mod_noop_left(x * a, y, m);
        assert(x * a == a * x) by (nonlinear_arith);
        assert(1 * y == y);
    }
}

/// The element that multiplied by two to the power of 64 gives one.
pub fn inverse_of_two_64_element() -> (r: Fe)
    ensures
        r@ == inverse_of_two_64(),
{
    let r = Fe::from_u64(0x1_0000_0000).square().inverse_or_zero();
    proof {
        use_type_invariant(&r);
        lemma_inverse_of_two_64();
        lemma_inverse_unique(two_64(), r@, inverse_of_two_64());
    }
    r
}

/// The code size that the old hash packs above the old value.
pub fn old_code_size() -> (r: Query)
    ensures
        forall|table: Seq<RowView>, row: int| #[trigger]
            query_value(r, table, row) == code_size(
                row_at(table, row).old_hash,
                row_at(table, row).old_value,
            ),
{
    AdviceColumn::OldHash.current().minus(AdviceColumn::OldValue.current()).times(
        Query::constant(inverse_of_two_64_element()),
    )
}

/// The code size that the new hash packs above the new value.
pub fn new_code_size() -> (r: Query)
    ensures
        forall|table: Seq<RowView>, row: int| #[trigger]
            query_value(r, table, row) == code_size(
                row_at(table, row).new_hash,
                row_at(table, row).new_value,
            ),
{
    AdviceColumn::NewHash.current().minus(AdviceColumn::NewValue.current()).times(
        Query::constant(inverse_of_two_64_element()),
    )
}

/// The row belongs to a claim of the kind and has the segment kind.
fn at(kind: ProofKind, segment_kind: SegmentKind) -> (r: Condition)
    ensures
        forall|table: Seq<RowView>, row: int| #[trigger]
            condition_holds(r, table, row) == (row_at(table, row).proof_kind == kind && row_at(
                table,
                row,
            ).segment_kind == segment_kind),
{
    Condition::claim_is(kind).and(Condition::segment_is(segment_kind, 0))
}

/// The row belongs to a claim of the kind and has the segment and path kind.
fn at_path(kind: ProofKind, segment_kind: SegmentKind, path_kind: PathKind) -> (r: Condition)
    ensures
        forall|table: Seq<RowView>, row: int| #[trigger]
            condition_holds(r, table, row) == (row_at(table, row).proof_kind == kind && row_at(
                table,
                row,
            ).segment_kind == segment_kind && row_at(table, row).path_kind == path_kind),
{
    at(kind, segment_kind).and(Condition::path_is(path_kind, 0))
}

/// Registers what holds of the rows of a claim of the kind besides the row
/// that holds the claimed value: the first row of the leaf block shows the
/// key, the next two and the last turn left, and no row lies in the storage
/// trie.
fn configure_account_leaf(cb: &mut ConstraintBuilder, kind: ProofKind)
    ensures
        forall|table: Seq<RowView>, row: int, relations: Relations| #[trigger]
            final(cb).holds(table, row, relations) == (old(cb).holds(table, row, relations) && {
                let previous = row_at(table, row - 1);
                let current = row_at(table, row);
                current.proof_kind == kind ==> match current.segment_kind {
                    SegmentKind::AccountLeaf0 => crate::rules::first_leaf_rules(
                        previous,
                        current,
                        relations,
                    ),
                    SegmentKind::AccountLeaf1 => current.direction == 0,
                    SegmentKind::AccountLeaf2 => current.direction == 0,
                    SegmentKind::AccountLeaf4 => current.direction == 0,
                    SegmentKind::StorageTrie => false,
                    SegmentKind::StorageLeaf0 => false,
                    SegmentKind::StorageLeaf1 => false,
                    _ => true,
                }
            }),
{
    cb.assert_equal(
        "direction is 1",
        at(kind, SegmentKind::AccountLeaf0),
        AdviceColumn::Direction.current(),
        Query::one(),
    );
    let address_low = AdviceColumn::Address.current().minus(
        AdviceColumn::UpperAddressBits.current().times(Query::number(0x1_0000_0000)),
    ).times(Query::constant(Fe::from_u128(0x1_0000_0000_0000_0000_0000_0000)));
    cb.add_hash_lookup(
        "key = h(address_high, address_low)",
        at(kind, SegmentKind::AccountLeaf0),
        AdviceColumn::UpperAddressBits.current(),
        address_low,
        AdviceColumn::Key.previous(),
    );
    cb.add_hash_lookup(
        "sibling = h(1, key)",
        at(kind, SegmentKind::AccountLeaf0),
        Query::one(),
        AdviceColumn::Key.previous(),
        AdviceColumn::Sibling.current(),
    );
    cb.assert_zero(
        "direction is 0",
        at(kind, SegmentKind::AccountLeaf1),
        AdviceColumn::Direction.current(),
    );
    cb.assert_zero(
        "direction is 0",
        at(kind, SegmentKind::AccountLeaf2),
        AdviceColumn::Direction.current(),
    );
    cb.assert_zero(
        "direction is 0",
        at(kind, SegmentKind::AccountLeaf4),
        AdviceColumn::Direction.current(),
    );
    cb.assert_unreachable(
        "unreachable segment type for account update",
        Condition::claim_is(kind).and(
            Condition::segment(
                SegmentSet::none().with(SegmentKind::StorageTrie).with(
                    SegmentKind::StorageLeaf0,
                ).with(SegmentKind::StorageLeaf1),
                0,
            ),
        ),
    );
}

/// Registers the constraints on the rows of claims that a nonce changed.
pub fn configure_nonce(cb: &mut ConstraintBuilder)
    ensures
        forall|table: Seq<RowView>, row: int, relations: Relations| #[trigger]
            final(cb).holds(table, row, relations) == (old(cb).holds(table, row, relations)
                && claim_rules(
                ProofKind::NonceChanged,
                row_at(table, row - 1),
                row_at(table, row),
                relations,
            )),
{
    let kind = ProofKind::NonceChanged;
    let leaf = SegmentKind::AccountLeaf3;
    configure_account_leaf(cb, kind);
    cb.assert_zero("direction is 0", at(kind, leaf), AdviceColumn::Direction.current());

    cb.add_byte_range_lookup(
        "old nonce is 8 bytes",
        at_path(kind, leaf, PathKind::Common),
        AdviceColumn::OldValue.current(),
        Query::number(7),
    );
    cb.add_byte_range_lookup(
        "new nonce is 8 bytes",
        at_path(kind, leaf, PathKind::Common),
        AdviceColumn::NewValue.current(),
        Query::number(7),
    );
    cb.assert_equal(
        "old_code_size = new_code_size for nonce update",
        at_path(kind, leaf, PathKind::Common),
        old_code_size(),
        new_code_size(),
    );
    cb.add_byte_range_lookup(
        "existing code size is 8 bytes",
        at_path(kind, leaf, PathKind::Common),
        old_code_size(),
        Query::number(7),
    );

    cb.add_byte_range_lookup(
        "new nonce is 8 bytes",
        at_path(kind, leaf, PathKind::ExtensionNew),
        AdviceColumn::NewValue.current(),
        Query::number(7),
    );
    cb.add_byte_range_lookup(
        "new code size is 8 bytes",
        at_path(kind, leaf, PathKind::ExtensionNew),
        new_code_size(),
        Query::number(7),
    );
    cb.assert_zero(
        "code size is 0 for ExtensionNew nonce update",
        at_path(kind, leaf, PathKind::ExtensionNew),
        old_code_size(),
    );

    cb.add_byte_range_lookup(
        "old nonce is 8 bytes",
        at_path(kind, leaf, PathKind::ExtensionOld),
        AdviceColumn::OldValue.current(),
        Query::number(7),
    );
    cb.add_byte_range_lookup(
        "old code size is 8 bytes",
        at_path(kind, leaf, PathKind::ExtensionOld),
        old_code_size(),
        Query::number(7),
    );
    cb.assert_zero(
        "code size is 0 for ExtensionOld nonce update",
        at_path(kind, leaf, PathKind::ExtensionOld),
        new_code_size(),
    );
}

/// Registers the constraints on the rows of claims that a balance changed.
pub fn configure_balance(cb: &mut ConstraintBuilder)
    ensures
        forall|table: Seq<RowView>, row: int, relations: Relations| #[trigger]
            final(cb).holds(table, row, relations) == (old(cb).holds(table, row, relations)
                && claim_rules(
                ProofKind::BalanceChanged,
                row_at(table, row - 1),
                row_at(table, row),
                relations,
            )),
{
    let kind = ProofKind::BalanceChanged;
    let leaf = SegmentKind::AccountLeaf3;
    configure_account_leaf(cb, kind);
    cb.assert_equal(
        "direction is 1",
        at(kind, leaf),
        AdviceColumn::Direction.current(),
        Query::one(),
    );
    cb.assert_equal(
        "old_hash is old balance",
        at(kind, leaf).and(
            Condition::path(
                PathSet::none().with(PathKind::Common).with(PathKind::ExtensionOld),
                0,
            ),
        ),
        AdviceColumn::OldValue.current(),
        AdviceColumn::OldHash.current(),
    );
    cb.assert_equal(
        "new_hash is new balance",
        at(kind, leaf).and(
            Condition::path(
                PathSet::none().with(PathKind::Common).with(PathKind::ExtensionNew),
                0,
            ),
        ),
        AdviceColumn::NewValue.current(),
        AdviceColumn::NewHash.current(),
    );
}

/// Registers the rule that a row of the segment kind stands only after rows
/// of the kinds in the set.
fn configure_segment_order(cb: &mut ConstraintBuilder, after: SegmentKind, before: SegmentSet)
    ensures
        forall|table: Seq<RowView>, row: int, relations: Relations| #[trigger]
            final(cb).holds(table, row, relations) == (old(cb).holds(table, row, relations) && (
            row_at(table, row).segment_kind == after ==> before.spec_contains(
                row_at(table, row - 1).segment_kind,
            ))),
{
    cb.require(
        "backward transition for segment",
        Condition::segment_is(after, 0),
        Condition::segment(before, -1),
    );
}

/// Registers the rule that a row of the path kind stands only after rows of
/// the kinds in the set, and within a leaf block only after a row of its own
/// kind.
fn configure_path_order(cb: &mut ConstraintBuilder, after: PathKind, before: PathSet)
    ensures
        forall|table: Seq<RowView>, row: int, relations: Relations| #[trigger]
            final(cb).holds(table, row, relations) == (old(cb).holds(table, row, relations) && (
            row_at(table, row).path_kind == after ==> before.spec_contains(
                row_at(table, row - 1).path_kind,
            ) && (crate::rules::is_inner_leaf(row_at(table, row).segment_kind) ==> row_at(
                table,
                row - 1,
            ).path_kind == after))),
{
    cb.require(
        "backward transition for path",
        Condition::path_is(after, 0),
        Condition::path(before, -1),
    );
    cb.require(
        "path is carried through the leaf block",
        Condition::path_is(after, 0).and(
            Condition::segment(
                SegmentSet::none().with(SegmentKind::AccountLeaf1).with(
                    SegmentKind::AccountLeaf2,
                ).with(SegmentKind::AccountLeaf3).with(SegmentKind::AccountLeaf4).with(
                    SegmentKind::StorageLeaf1,
                ),
                0,
            ),
        ),
        Condition::path_is(after, -1),
    );
}

/// Registers the constraints of the state machine: each row demands of the
/// row before it a state from which its own can be reached.
pub fn configure_states(cb: &mut ConstraintBuilder)
    ensures
        forall|table: Seq<RowView>, row: int, relations: Relations| #[trigger]
            final(cb).holds(table, row, relations) == (old(cb).holds(table, row, relations)
                && state_rules(row_at(table, row - 1), row_at(table, row))),
{
    cb.require(
        "path is undefined on start rows",
        Condition::segment_is(SegmentKind::Start, 0),
        Condition::path_is(PathKind::Start, 0),
    );
    cb.require(
        "path is undefined on start rows only",
        Condition::path_is(PathKind::Start, 0),
        Condition::segment_is(SegmentKind::Start, 0),
    );
    let above_account = SegmentSet::none().with(SegmentKind::Start).with(SegmentKind::AccountTrie);
    let above_storage = SegmentSet::none().with(SegmentKind::AccountLeaf4).with(
        SegmentKind::StorageTrie,
    );
    configure_segment_order(cb, SegmentKind::AccountTrie, above_account);
    configure_segment_order(cb, SegmentKind::AccountLeaf0, above_account);
    configure_segment_order(
        cb,
        SegmentKind::AccountLeaf1,
        SegmentSet::only(SegmentKind::AccountLeaf0),
    );
    configure_segment_order(
        cb,
        SegmentKind::AccountLeaf2,
        SegmentSet::only(SegmentKind::AccountLeaf1),
    );
    configure_segment_order(
        cb,
        SegmentKind::AccountLeaf3,
        SegmentSet::only(SegmentKind::AccountLeaf2),
    );
    configure_segment_order(
        cb,
        SegmentKind::AccountLeaf4,
        SegmentSet::only(SegmentKind::AccountLeaf3),
    );
    configure_segment_order(cb, SegmentKind::StorageTrie, above_storage);
    configure_segment_order(cb, SegmentKind::StorageLeaf0, above_storage);
    configure_segment_order(
        cb,
        SegmentKind::StorageLeaf1,
        SegmentSet::only(SegmentKind::StorageLeaf0),
    );
    configure_path_order(
        cb,
        PathKind::Common,
        PathSet::none().with(PathKind::Start).with(PathKind::Common),
    );
    configure_path_order(
        cb,
        PathKind::ExtensionOld,
        PathSet::none().with(PathKind::Start).with(PathKind::Common).with(PathKind::ExtensionOld),
    );
    configure_path_order(
        cb,
        PathKind::ExtensionNew,
        PathSet::none().with(PathKind::Start).with(PathKind::Common).with(PathKind::ExtensionNew),
    );
}

/// Registers the constraints on every row: depth and direction on the trie,
/// zero key and depth off it, the range of the upper address bits, and what
/// the indicators stand for.
pub fn configure_base(cb: &mut ConstraintBuilder)
    ensures
        forall|table: Seq<RowView>, row: int, relations: Relations| #[trigger]
            final(cb).holds(table, row, relations) == (old(cb).holds(table, row, relations)
                && base_rules(row_at(table, row - 1), row_at(table, row), relations)),
{
    cb.add_key_bit_lookup(
        "direction is correct for key and depth",
        Condition::is_trie(0),
        AdviceColumn::Key.current(),
        AdviceColumn::Depth.current().minus(Query::one()),
        AdviceColumn::Direction.current(),
    );
    cb.assert_equal(
        "depth increases by 1 in trie segments",
        Condition::is_trie(0),
        AdviceColumn::Depth.current(),
        AdviceColumn::Depth.previous().plus(Query::one()),
    );
    cb.add_key_bit_lookup(
        "direction is correct for other_key and depth",
        Condition::is_trie(0).and(Condition::path_is(PathKind::Common, 0)),
        AdviceColumn::OtherKey.current(),
        AdviceColumn::Depth.current().minus(Query::one()),
        AdviceColumn::Direction.current(),
    );
    cb.assert_zero(
        "key is 0 in non-trie segments",
        Condition::is_trie(0).not(),
        AdviceColumn::Key.current(),
    );
    cb.assert_zero(
        "depth is 0 in non-trie segments",
        Condition::is_trie(0).not(),
        AdviceColumn::Depth.current(),
    );
    cb.add_byte_range_lookup(
        "upper_128_bits is 16 bytes",
        Condition::always(),
        AdviceColumn::UpperAddressBits.current(),
        Query::number(15),
    );
    cb.define_indicator(
        "old hash is zero",
        Indicator::OldHashIsZero,
        AdviceColumn::OldHash.current(),
    );
    cb.define_indicator(
        "new hash is zero",
        Indicator::NewHashIsZero,
        AdviceColumn::NewHash.current(),
    );
    cb.define_indicator(
        "key equals other key",
        Indicator::KeyEqualsOtherKey,
        AdviceColumn::Key.current().minus(AdviceColumn::OtherKey.current()),
    );
}

/// The row has the path kind.
fn on_path(path_kind: PathKind) -> (r: Condition)
    ensures
        forall|table: Seq<RowView>, row: int| #[trigger]
            condition_holds(r, table, row) == (row_at(table, row).path_kind == path_kind),
{
    Condition::path_is(path_kind, 0)
}

/// The row has the path kind and is a trie row, and the row after it is a
/// trie row or not, as asked.
fn on_trie_path(path_kind: PathKind, trie_goes_on: bool) -> (r: Condition)
    ensures
        forall|table: Seq<RowView>, row: int| #[trigger]
            condition_holds(r, table, row) == (row_at(table, row).path_kind == path_kind && row_at(
                table,
                row,
            ).segment_kind.spec_is_trie() && row_at(table, row + 1).segment_kind.spec_is_trie()
                == trie_goes_on),
{
    let here = on_path(path_kind).and(Condition::is_trie(0));
    if trie_goes_on {
        here.and(Condition::is_trie(1))
    } else {
        here.and(Condition::is_trie(1).not())
    }
}

/// The row has the path kind, and the row after it is the first of a leaf
/// block with the other path kind.
fn before_leaf_block(path_kind: PathKind, block_path_kind: PathKind) -> (r: Condition)
    ensures
        forall|table: Seq<RowView>, row: int| #[trigger]
            condition_holds(r, table, row) == (row_at(table, row).path_kind == path_kind && row_at(
                table,
                row + 1,
            ).path_kind == block_path_kind && row_at(table, row + 1).segment_kind
                == SegmentKind::AccountLeaf0),
{
    on_path(path_kind).and(Condition::path_is(block_path_kind, 1)).and(
        Condition::segment_is(SegmentKind::AccountLeaf0, 1),
    )
}

/// Registers the constraints on rows on which both paths run.
pub fn configure_common_path(cb: &mut ConstraintBuilder)
    ensures
        forall|table: Seq<RowView>, row: int, relations: Relations| #[trigger]
            final(cb).holds(table, row, relations) == (old(cb).holds(table, row, relations) && (
            row_at(table, row).path_kind == PathKind::Common ==> common_rules(
                row_at(table, row - 1),
                row_at(table, row),
                row_at(table, row + 1),
                relations,
            ))),
{
    cb.add_hash_lookup(
        "poseidon hash correct for old common path",
        on_path(PathKind::Common),
        old_left(),
        old_right(),
        AdviceColumn::OldHash.previous(),
    );
    cb.add_hash_lookup(
        "poseidon hash correct for new common path",
        on_path(PathKind::Common),
        new_left(),
        new_right(),
        AdviceColumn::NewHash.previous(),
    );
    cb.assert_zero(
        "old hash is zero for type 2 empty account",
        before_leaf_block(PathKind::Common, PathKind::ExtensionNew),
        AdviceColumn::OldHash.current(),
    );
    cb.assert_zero(
        "new hash is zero for type 2 empty account",
        before_leaf_block(PathKind::Common, PathKind::ExtensionOld),
        AdviceColumn::NewHash.current(),
    );
}

/// Registers the constraints on rows on which only the old path goes on.
pub fn configure_extension_old(cb: &mut ConstraintBuilder)
    ensures
        forall|table: Seq<RowView>, row: int, relations: Relations| #[trigger]
            final(cb).holds(table, row, relations) == (old(cb).holds(table, row, relations) && (
            row_at(table, row).path_kind == PathKind::ExtensionOld ==> extension_old_rules(
                row_at(table, row - 1),
                row_at(table, row),
                row_at(table, row + 1),
                relations,
            ))),
{
    cb.assert_zero(
        "sibling is zero for non-final old extension path segments",
        on_trie_path(PathKind::ExtensionOld, true),
        AdviceColumn::Sibling.current(),
    );
    cb.assert_equal(
        "sibling is new leaf hash for final old extension path segments",
        on_trie_path(PathKind::ExtensionOld, false),
        AdviceColumn::Sibling.current(),
        AdviceColumn::NewHash.current(),
    );
    cb.assert_equal(
        "new_hash unchanged for path_type=Old",
        on_path(PathKind::ExtensionOld),
        AdviceColumn::NewHash.current(),
        AdviceColumn::NewHash.previous(),
    );
    cb.add_hash_lookup(
        "poseidon hash correct for old path",
        on_path(PathKind::ExtensionOld),
        old_left(),
        old_right(),
        AdviceColumn::OldHash.previous(),
    );
}

/// Registers the constraints on rows on which only the new path goes on.
pub fn configure_extension_new(cb: &mut ConstraintBuilder)
    ensures
        forall|table: Seq<RowView>, row: int, relations: Relations| #[trigger]
            final(cb).holds(table, row, relations) == (old(cb).holds(table, row, relations) && (
            row_at(table, row).path_kind == PathKind::ExtensionNew ==> extension_new_rules(
                row_at(table, row - 1),
                row_at(table, row),
                row_at(table, row + 1),
                relations,
            ))),
{
    cb.assert_zero(
        "old value is 0 if old account is empty",
        on_path(PathKind::ExtensionNew),
        AdviceColumn::OldValue.current(),
    );
    cb.assert_zero(
        "sibling is zero for non-final new extension path segments",
        on_trie_path(PathKind::ExtensionNew, true),
        AdviceColumn::Sibling.current(),
    );
    cb.assert_equal(
        "sibling is old leaf hash for final new extension path segments",
        on_trie_path(PathKind::ExtensionNew, false),
        AdviceColumn::Sibling.current(),
        AdviceColumn::OldHash.current(),
    );
    cb.assert_equal(
        "old_hash unchanged for path_type=New",
        on_path(PathKind::ExtensionNew),
        AdviceColumn::OldHash.current(),
        AdviceColumn::OldHash.previous(),
    );
    cb.add_hash_lookup(
        "poseidon hash correct for new path",
        on_path(PathKind::ExtensionNew),
        new_left(),
        new_right(),
        AdviceColumn::NewHash.previous(),
    );
    cb.add_hash_lookup(
        "other_key_hash = h(1, other_key)",
        on_path(PathKind::ExtensionNew).and(Condition::segment_is(SegmentKind::AccountLeaf0, 0)),
        Query::one(),
        AdviceColumn::OtherKey.current(),
        AdviceColumn::OtherKeyHash.current(),
    );
    cb.add_hash_lookup(
        "previous old_hash = h(data_hash, key_hash)",
        on_path(PathKind::ExtensionNew).and(Condition::segment_is(SegmentKind::AccountLeaf0, 0)).and(
            Condition::indicator(Indicator::OldHashIsZero).not(),
        ),
        AdviceColumn::OtherLeafDataHash.current(),
        AdviceColumn::OtherKeyHash.current(),
        AdviceColumn::OldHash.previous(),
    );
    cb.assert_zero(
        "if old account is type 1, then old value is 0",
        on_path(PathKind::ExtensionNew).and(Condition::segment_is(SegmentKind::AccountLeaf0, 0)).and(
            Condition::indicator(Indicator::KeyEqualsOtherKey).not(),
        ),
        AdviceColumn::OldValue.current(),
    );
}

/// Why no constraints were made.
#[derive(Clone, Copy, Debug, PartialEq, Eq, Structural)]
pub enum ConfigError {
    /// Constraints were asked for a kind of claim that has none yet.
    UnimplementedClaimKind(ProofKind),
}

/// The constraints on the rows of claims of some kinds.
pub struct MptUpdateConfig {
    /// The kinds of claims whose rows are constrained.
    pub kinds: Vec<ProofKind>,
    pub constraints: Vec<Constraint>,
}

/// What a table of update rows shows to the tables that refer to it.
pub trait MptUpdateLookup {
    /// The queries that give, on the row that opens a claim, the claim: its
    /// kind, old root, new root, old value, new value, address and storage key.
    fn lookup(&self) -> [Query; 7];
}

/// The cell of a column on rows that open a claim, zero on other rows.
fn on_start(column: AdviceColumn) -> (r: Query)
    ensures
        forall|table: Seq<RowView>, row: int| #[trigger]
            query_value(r, table, row) == field_mul(
                row_at(table, row).cell(column),
                if row_at(table, row).segment_kind == SegmentKind::Start {
                    1
                } else {
                    0
                },
            ),
{
    column.current().times(Query::segment_matches(SegmentSet::only(SegmentKind::Start)))
}

impl MptUpdateLookup for MptUpdateConfig {
    fn lookup(&self) -> (r: [Query; 7])
        ensures
            forall|table: Seq<RowView>, row: int| #[trigger]
                query_value(r@[0], table, row) == row_at(table, row).proof_kind.spec_code(),
            forall|table: Seq<RowView>, row: int, k: int|
                1 <= k < 7 ==> #[trigger] query_value(r@[k], table, row) == field_mul(
                    row_at(table, row).cell(lookup_column(k)),
                    if row_at(table, row).segment_kind == SegmentKind::Start {
                        1
                    } else {
                        0
                    },
                ),
    {
        [
            Query::proof_kind(),
            on_start(AdviceColumn::OldHash),
            on_start(AdviceColumn::NewHash),
            on_start(AdviceColumn::OldValue),
            on_start(AdviceColumn::NewValue),
            on_start(AdviceColumn::Address),
            on_start(AdviceColumn::StorageKey),
        ]
    }
}

/// The column that a place of the lookup reads, from the second place on.
pub open spec fn lookup_column(place: int) -> AdviceColumn {
    if place == 1 {
        AdviceColumn::OldHash
    } else if place == 2 {
        AdviceColumn::NewHash
    } else if place == 3 {
        AdviceColumn::OldValue
    } else if place == 4 {
        AdviceColumn::NewValue
    } else if place == 5 {
        AdviceColumn::Address
    } else {
        AdviceColumn::StorageKey
    }
}

/// The first kind at or after `from` that has no constraints yet, if any.
pub open spec fn first_unimplemented(kinds: Seq<ProofKind>, from: int) -> Option<ProofKind>
    decreases kinds.len() - from,
{
    if from < 0 || from >= kinds.len() {
        None
    } else if !kinds[from].spec_is_implemented() {
        Some(kinds[from])
    } else {
        first_unimplemented(kinds, from + 1)
    }
}

impl MptUpdateConfig {
    /// Whether the constraints hold exactly where the rules for the kinds do.
    pub open spec fn wf(&self) -> bool {
        forall|table: Seq<RowView>, row: int, relations: Relations| #[trigger]
            all_hold(self.constraints@, table, row, relations) == row_rules(
                self.kinds@,
                row_at(table, row - 1),
                row_at(table, row),
                row_at(table, row + 1),
                relations,
            )
    }

    /// Makes the constraints for claims of the given kinds. There are none
    /// for a kind that is not implemented: asking for one is an error.
    pub fn configure(kinds: &[ProofKind]) -> (r: Result<MptUpdateConfig, ConfigError>)
        ensures
            match r {
                Ok(config) => {
                    &&& first_unimplemented(kinds@, 0) is None
                    &&& config.kinds@ == kinds@
                    &&& config.wf()
                },
                Err(ConfigError::UnimplementedClaimKind(kind)) => first_unimplemented(kinds@, 0)
                    == Some(kind),
            },
    {
        let mut cb = ConstraintBuilder::new();
        configure_states(&mut cb);
        configure_base(&mut cb);
        configure_common_path(&mut cb);
        configure_extension_old(&mut cb);
        configure_extension_new(&mut cb);
        let mut done: Vec<ProofKind> = Vec::new();
        let mut i: usize = 0;
        while i < kinds.len()
            invariant
                i <= kinds@.len(),
                done@ == kinds@.take(i as int),
                first_unimplemented(kinds@, 0) == first_unimplemented(kinds@, i as int),
                forall|table: Seq<RowView>, row: int, relations: Relations| #[trigger]
                    cb.holds(table, row, relations) == row_rules(
                        done@,
                        row_at(table, row - 1),
                        row_at(table, row),
                        row_at(table, row + 1),
                        relations,
                    ),
            decreases kinds@.len() - i,
        {
            let kind = kinds[i];
            let ghost before = done@;
            match kind {
                ProofKind::NonceChanged => configure_nonce(&mut cb),
                ProofKind::BalanceChanged => configure_balance(&mut cb),
                _ => { return Err(ConfigError::UnimplementedClaimKind(kind)); },
            }
            done.push(kind);
            proof {
                assert(done@ =~= kinds@.take(i + 1));
                assert forall|table: Seq<RowView>, row: int, relations: Relations| #[trigger]
                    cb.holds(table, row, relations) == row_rules(
                        done@,
                        row_at(table, row - 1),
                        row_at(table, row),
                        row_at(table, row + 1),
                        relations,
                    ) by {
                    let previous = row_at(table, row - 1);
                    let current = row_at(table, row);
                    let next = row_at(table, row + 1);
                    assert(done@[i as int] == kind);
                    if row_rules(done@, previous, current, next, relations) {
                        assert forall|k: int| 0 <= k < before.len() implies claim_rules(
                            #[trigger] before[k],
                            previous,
                            current,
                            relations,
                        ) by {
                            assert(done@[k] == before[k]);
                        }
                    }
                    if row_rules(before, previous, current, next, relations) && claim_rules(
                        kind,
                        previous,
                        current,
                        relations,
                    ) {
                        assert forall|k: int| 0 <= k < done@.len() implies claim_rules(
                            #[trigger] done@[k],
                            previous,
                            current,
                            relations,
                        ) by {
                            if k < before.len() {
                                assert(done@[k] == before[k]);
                            }
                        }
                    }
                }
            }
            i += 1;
        }
        proof {
            assert(done@ =~= kinds@);
            assert forall|table: Seq<RowView>, row: int, relations: Relations| #[trigger]
                all_hold(cb.constraints@, table, row, relations) == row_rules(
                    done@,
                    row_at(table, row - 1),
                    row_at(table, row),
                    row_at(table, row + 1),
                    relations,
                ) by {
                assert(cb.holds(table, row, relations) == all_hold(
                    cb.constraints@,
                    table,
                    row,
                    relations,
                ));
            }
        }
        Ok(MptUpdateConfig { kinds: done, constraints: cb.constraints })
    }
}

} // verus!
