//! What holds of every claim that is given rows, and of every table that
//! satisfies the constraints.

use crate::assign::{
    batch_rows, claim_error, claim_len, claim_rows, leaf_path, leaf_row, left_child,
    new_hash_above, new_side_hashes, old_hash_above, old_side_hashes, other_leaf, right_child,
    start_row, step_at, step_error, trie_row, walk_error,
};
use crate::claim::{
    account_key, hash_of, hashes_to, is_function, lemma_function_hash, Proof,
};
use crate::config::MptUpdateConfig;
use crate::constraint::{all_hold, satisfied, Constraint, Relations};
use crate::field::{field_add, field_mul, field_sub, modulus};
use crate::kinds::{PathKind, ProofKind, SegmentKind};
use crate::query::row_at;
use crate::row::{AdviceColumn, RowView};
use crate::rules::{
    code_size, hashes_up, inverse_of_two_64, is_inner_leaf, lemma_inverse_of_two_64, row_rules,
    segment_may_follow, select_left, select_right, two_64,
};
use vstd::arithmetic::div_mod::{
    lemma_add_mod_noop, lemma_mod_multiples_vanish, lemma_mul_mod_noop_left,
    lemma_mul_mod_noop_right, lemma_small_mod,
};
use vstd::arithmetic::mul::lemma_mul_is_associative;
use vstd::arithmetic::power2::pow2;
use vstd::prelude::*;

verus! {

/// The hash in which the old side of a claim's path ends: that of its lowest
/// step, or the old root where the path has no steps.
pub open spec fn old_end(p: Proof) -> nat {
    if p.steps@.len() == 0 {
        p.claim.old_root@
    } else {
        p.steps@[0].old_hash@
    }
}

/// The hash in which the new side of a claim's path ends.
pub open spec fn new_end(p: Proof) -> nat {
    if p.steps@.len() == 0 {
        p.claim.new_root@
    } else {
        p.steps@[0].new_hash@
    }
}

/// The hash above the lowest `count` steps, computed from the end of the old
/// side upward: at each step on which the old side goes on, the hash below
/// and the step's sibling are hashed as the step's direction says.
pub open spec fn old_hash_from_end(p: Proof, relation: Seq<(nat, nat, nat)>, count: nat) -> Option<
    nat,
>
    decreases count,
{
    if count == 0 {
        Some(old_end(p))
    } else {
        let below = old_hash_from_end(p, relation, (count - 1) as nat);
        let s = p.steps@[count - 1];
        if s.is_padding_open {
            below
        } else {
            match below {
                Some(h) => hash_of(
                    relation,
                    left_child(s.direction, h, s.sibling@),
                    right_child(s.direction, h, s.sibling@),
                ),
                None => None,
            }
        }
    }
}

/// The hash above the lowest `count` steps, computed from the end of the new
/// side upward.
pub open spec fn new_hash_from_end(p: Proof, relation: Seq<(nat, nat, nat)>, count: nat) -> Option<
    nat,
>
    decreases count,
{
    if count == 0 {
        Some(new_end(p))
    } else {
        let below = new_hash_from_end(p, relation, (count - 1) as nat);
        let s = p.steps@[count - 1];
        if s.is_padding_close {
            below
        } else {
            match below {
                Some(h) => hash_of(
                    relation,
                    left_child(s.direction, h, s.sibling@),
                    right_child(s.direction, h, s.sibling@),
                ),
                None => None,
            }
        }
    }
}

/// A walk with nothing wrong from some step on has nothing wrong with any
/// step from there on.
pub proof fn lemma_walk_steps(p: Proof, relation: Seq<(nat, nat, nat)>, from: int, index: int)
    requires
        0 <= from <= index < p.steps@.len(),
        walk_error(p, relation, from) is None,
    ensures
        step_error(p, relation, index) is None,
    decreases index - from,
{
    if from < index {
        lemma_walk_steps(p, relation, from + 1, index);
    }
}

/// The hash above a step of a checked walk, seen from the end: it is the
/// root for the highest step and the hash of the next step up for any other.
proof fn lemma_from_end(p: Proof, relation: Seq<(nat, nat, nat)>, count: nat)
    requires
        is_function(relation),
        walk_error(p, relation, 0) is None,
        count <= p.steps@.len(),
    ensures
        old_hash_from_end(p, relation, count) == Some(
            if count == p.steps@.len() {
                p.claim.old_root@
            } else {
                p.steps@[count as int].old_hash@
            },
        ),
        new_hash_from_end(p, relation, count) == Some(
            if count == p.steps@.len() {
                p.claim.new_root@
            } else {
                p.steps@[count as int].new_hash@
            },
        ),
    decreases count,
{
    if count > 0 {
        lemma_from_end(p, relation, (count - 1) as nat);
        let n = p.steps@.len();
        let index = n - count;
        lemma_walk_steps(p, relation, 0, index);
        let s = p.steps@[count - 1];
        assert(step_at(p, index) == s);
        assert(old_hash_above(p, index) == if count == n {
            p.claim.old_root@
        } else {
            p.steps@[count as int].old_hash@
        });
        assert(new_hash_above(p, index) == if count == n {
            p.claim.new_root@
        } else {
            p.steps@[count as int].new_hash@
        });
        if !s.is_padding_open {
            assert(old_side_hashes(p, relation, index));
            lemma_function_hash(
                relation,
                left_child(s.direction, s.old_hash@, s.sibling@),
                right_child(s.direction, s.old_hash@, s.sibling@),
                old_hash_above(p, index),
            );
        }
        if !s.is_padding_close {
            assert(new_side_hashes(p, relation, index));
            lemma_function_hash(
                relation,
                left_child(s.direction, s.new_hash@, s.sibling@),
                right_child(s.direction, s.new_hash@, s.sibling@),
                new_hash_above(p, index),
            );
        }
    }
}

/// Round trip. For a claim that is given rows, hashing upward along its path
/// from the end of each side, with a hash relation that is a function, gives
/// the claimed old root and the claimed new root.
pub proof fn lemma_roots_from_path(p: Proof, relation: Seq<(nat, nat, nat)>)
    requires
        is_function(relation),
        claim_error(p, relation) is None,
    ensures
        old_hash_from_end(p, relation, p.steps@.len()) == Some(p.claim.old_root@),
        new_hash_from_end(p, relation, p.steps@.len()) == Some(p.claim.new_root@),
{
    lemma_from_end(p, relation, p.steps@.len());
}

/// A batch without claims has no rows, and a table without rows satisfies any
/// constraints.
pub proof fn lemma_empty_batch(constraints: Seq<Constraint>, relations: Relations)
    ensures
        batch_rows(Seq::<Proof>::empty(), relations.hash) == Seq::<RowView>::empty(),
        satisfied(constraints, batch_rows(Seq::<Proof>::empty(), relations.hash), relations),
{
}

/// A table of nothing but padding satisfies the constraints for any kinds of
/// claims, if only the byte-range relation knows that zero fits in 16 bytes.
pub proof fn lemma_padding_satisfies(config: MptUpdateConfig, rows: nat, relations: Relations)
    requires
        config.wf(),
        relations.byte_range.contains((0, 15)),
    ensures
        satisfied(config.constraints@, Seq::new(rows, |i: int| RowView::padding()), relations),
{
    let table = Seq::new(rows, |i: int| RowView::padding());
    assert forall|row: int| 0 <= row < table.len() implies #[trigger] all_hold(
        config.constraints@,
        table,
        row,
        relations,
    ) by {
        assert(row_at(table, row - 1) == RowView::padding());
        assert(row_at(table, row) == RowView::padding());
        assert(row_at(table, row + 1) == RowView::padding());
        assert(field_sub(0, 0) == 0) by {
            lemma_small_mod(0, modulus());
        }
        assert(row_rules(
            config.kinds@,
            RowView::padding(),
            RowView::padding(),
            RowView::padding(),
            relations,
        ));
    }
}

/// Whether every line of the byte-range relation is true: a value with the
/// last byte `n` is below 256 to the power of `n + 1`.
pub open spec fn byte_ranges_are_true(relations: Relations) -> bool {
    forall|k: int|
        0 <= k < relations.byte_range.len() ==> (#[trigger] relations.byte_range[k]).0 < pow2(
            8 * (relations.byte_range[k].1 + 1),
        )
}

/// The bit of a key at an index, counted from the least significant.
pub open spec fn key_bit(key: nat, index: nat) -> nat {
    (key / pow2(index)) % 2
}

/// Whether every line of the key-bit relation is true.
pub open spec fn key_bits_are_true(relations: Relations) -> bool {
    forall|k: int|
        0 <= k < relations.key_bit.len() ==> (#[trigger] relations.key_bit[k]).2 == key_bit(
            relations.key_bit[k].0,
            relations.key_bit[k].1,
        )
}

/// At a row of a table that satisfies the constraints, the rules hold.
pub proof fn lemma_rules_hold(
    config: MptUpdateConfig,
    table: Seq<RowView>,
    relations: Relations,
    row: int,
)
    requires
        config.wf(),
        satisfied(config.constraints@, table, relations),
        0 <= row < table.len(),
    ensures
        row_rules(
            config.kinds@,
            row_at(table, row - 1),
            table[row],
            row_at(table, row + 1),
            relations,
        ),
{
    assert(all_hold(config.constraints@, table, row, relations));
}

/// The difference of two reduced numbers is zero only if they are equal.
pub proof fn lemma_field_sub_zero(a: nat, b: nat)
    requires
        a < modulus(),
        b < modulus(),
    ensures
        (field_sub(a, b) == 0) == (a == b),
{
    let m = modulus() as int;
    if a >= b {
        lemma_small_mod((a - b) as nat, modulus());
    } else {
        lemma_mod_multiples_vanish(1, a - b, m);
        lemma_small_mod((m + (a - b)) as nat, modulus());
    }
}

/// The indicators of a row say what they are named for.
pub proof fn lemma_indicators_are_true(
    config: MptUpdateConfig,
    table: Seq<RowView>,
    relations: Relations,
    row: int,
)
    requires
        config.wf(),
        satisfied(config.constraints@, table, relations),
        0 <= row < table.len(),
        table[row].reduced(),
    ensures
        table[row].old_hash_is_zero == (table[row].old_hash == 0),
        table[row].new_hash_is_zero == (table[row].new_hash == 0),
        table[row].key_equals_other_key == (table[row].key == table[row].other_key),
{
    lemma_rules_hold(config, table, relations, row);
    assert(table[row].cell(AdviceColumn::Key) < modulus());
    assert(table[row].cell(AdviceColumn::OtherKey) < modulus());
    lemma_field_sub_zero(table[row].key, table[row].other_key);
}

/// With a direction of zero or one, the children under a node are the hash
/// and its sibling, put left and right as the direction says.
pub proof fn lemma_select_children(direction: bool, hash: nat, sibling: nat)
    requires
        hash < modulus(),
        sibling < modulus(),
    ensures
        select_left(
            if direction {
                1
            } else {
                0
            },
            hash,
            sibling,
        ) == left_child(direction, hash, sibling),
        select_right(
            if direction {
                1
            } else {
                0
            },
            hash,
            sibling,
        ) == right_child(direction, hash, sibling),
{
    let m = modulus();
    lemma_small_mod(0, m);
    lemma_small_mod(1, m);
    lemma_small_mod(hash, m);
    lemma_small_mod(sibling, m);
    assert(1 * hash == hash && 1 * sibling == sibling && 0 * hash == 0 && 0 * sibling == 0);
    assert(field_sub(1, 1) == 0 && field_sub(1, 0) == 1);
}

/// On a trie row the direction is zero or one, and a side that goes on
/// hashes up to the row before: the hash relation has the line for the two
/// children, chosen by the direction, and the hash of that side on the row
/// before. A side that is frozen keeps the hash of the row before.
pub proof fn lemma_trie_row_hashes_up(
    config: MptUpdateConfig,
    table: Seq<RowView>,
    relations: Relations,
    row: int,
)
    requires
        config.wf(),
        satisfied(config.constraints@, table, relations),
        key_bits_are_true(relations),
        0 <= row < table.len(),
        table[row].reduced(),
        table[row].segment_kind.spec_is_trie(),
    ensures
        table[row].direction <= 1,
        table[row].path_kind.spec_old_is_active() ==> hashes_to(
            relations.hash,
            left_child(table[row].direction == 1, table[row].old_hash, table[row].sibling),
            right_child(table[row].direction == 1, table[row].old_hash, table[row].sibling),
            row_at(table, row - 1).old_hash,
        ),
        table[row].path_kind.spec_new_is_active() ==> hashes_to(
            relations.hash,
            left_child(table[row].direction == 1, table[row].new_hash, table[row].sibling),
            right_child(table[row].direction == 1, table[row].new_hash, table[row].sibling),
            row_at(table, row - 1).new_hash,
        ),
        table[row].path_kind == PathKind::ExtensionOld ==> table[row].new_hash == row_at(
            table,
            row - 1,
        ).new_hash,
        table[row].path_kind == PathKind::ExtensionNew ==> table[row].old_hash == row_at(
            table,
            row - 1,
        ).old_hash,
{
    let r = table[row];
    lemma_rules_hold(config, table, relations, row);
    lemma_direction_is_key_bit(config, table, relations, row);
    assert(r.cell(AdviceColumn::OldHash) < modulus());
    assert(r.cell(AdviceColumn::NewHash) < modulus());
    assert(r.cell(AdviceColumn::Sibling) < modulus());
    lemma_select_children(r.direction == 1, r.old_hash, r.sibling);
    lemma_select_children(r.direction == 1, r.new_hash, r.sibling);
}

/// The old hash on a row, computed from the old hash on a row below it
/// upward: on each row in between, the hash below and the row's sibling are
/// hashed as the row's direction says, unless the old side is frozen there.
pub open spec fn old_hash_from_below(
    table: Seq<RowView>,
    relation: Seq<(nat, nat, nat)>,
    row: int,
    below: int,
) -> Option<nat>
    decreases below - row,
{
    if below <= row {
        Some(table[below].old_hash)
    } else {
        let next = table[row + 1];
        match old_hash_from_below(table, relation, row + 1, below) {
            Some(h) => if next.path_kind.spec_old_is_active() {
                hash_of(
                    relation,
                    left_child(next.direction == 1, h, next.sibling),
                    right_child(next.direction == 1, h, next.sibling),
                )
            } else {
                Some(h)
            },
            None => None,
        }
    }
}

/// The new hash on a row, computed from the new hash on a row below it
/// upward.
pub open spec fn new_hash_from_below(
    table: Seq<RowView>,
    relation: Seq<(nat, nat, nat)>,
    row: int,
    below: int,
) -> Option<nat>
    decreases below - row,
{
    if below <= row {
        Some(table[below].new_hash)
    } else {
        let next = table[row + 1];
        match new_hash_from_below(table, relation, row + 1, below) {
            Some(h) => if next.path_kind.spec_new_is_active() {
                hash_of(
                    relation,
                    left_child(next.direction == 1, h, next.sibling),
                    right_child(next.direction == 1, h, next.sibling),
                )
            } else {
                Some(h)
            },
            None => None,
        }
    }
}

/// Round trip in the table. In a table that satisfies the constraints, with a
/// hash relation that is a function and a key-bit relation that is true, the
/// hashes on a row are those computed upward from any row below it through
/// trie rows: from the last trie row of a claim up to its start row, they are
/// the claimed roots.
pub proof fn lemma_table_hashes_from_below(
    config: MptUpdateConfig,
    table: Seq<RowView>,
    relations: Relations,
    row: int,
    below: int,
)
    requires
        config.wf(),
        satisfied(config.constraints@, table, relations),
        key_bits_are_true(relations),
        is_function(relations.hash),
        0 <= row <= below < table.len(),
        forall|i: int|
            row < i <= below ==> (#[trigger] table[i]).segment_kind.spec_is_trie()
                && table[i].reduced(),
    ensures
        old_hash_from_below(table, relations.hash, row, below) == Some(table[row].old_hash),
        new_hash_from_below(table, relations.hash, row, below) == Some(table[row].new_hash),
    decreases below - row,
{
    if row < below {
        lemma_table_hashes_from_below(config, table, relations, row + 1, below);
        let next = table[row + 1];
        assert(next.segment_kind.spec_is_trie() && next.reduced());
        lemma_trie_row_hashes_up(config, table, relations, row + 1);
        lemma_rules_hold(config, table, relations, row + 1);
        if next.path_kind.spec_old_is_active() {
            lemma_function_hash(
                relations.hash,
                left_child(next.direction == 1, next.old_hash, next.sibling),
                right_child(next.direction == 1, next.old_hash, next.sibling),
                table[row].old_hash,
            );
        }
        if next.path_kind.spec_new_is_active() {
            lemma_function_hash(
                relations.hash,
                left_child(next.direction == 1, next.new_hash, next.sibling),
                right_child(next.direction == 1, next.new_hash, next.sibling),
                table[row].new_hash,
            );
        }
    }
}

/// Whether each row of a table but the first stands after a row from whose
/// segment kind its own can be reached.
pub open spec fn segments_in_order(table: Seq<RowView>) -> bool {
    forall|i: int| 0 < i < table.len() ==> #[trigger] follows_at(table, i)
}

/// Whether the row at a place may follow the row before it.
pub open spec fn follows_at(table: Seq<RowView>, i: int) -> bool {
    segment_may_follow(table[i - 1].segment_kind, table[i].segment_kind)
}

/// Whether the row at a place of the rows of a claim is as the state machine
/// has it: the path kind is undefined on the start row only and does not
/// change in the leaf block; the depth counts the trie rows from one and is
/// zero elsewhere, as the key is.
pub open spec fn in_place(rows: Seq<RowView>, i: int) -> bool {
    let row = rows[i];
    &&& (row.segment_kind == SegmentKind::Start) == (row.path_kind == PathKind::Start)
    &&& row.segment_kind.spec_is_trie() ==> row.depth == i
    &&& !row.segment_kind.spec_is_trie() ==> row.depth == 0 && row.key == 0
    &&& is_inner_leaf(row.segment_kind) ==> row.path_kind == rows[i - 1].path_kind
}

/// The rows of a claim are in the order of the state machine: they begin
/// with a start row, each stands after a row that it may follow, and the path
/// kind is undefined on the start row only and does not change in the leaf
/// block. The depth counts the trie rows from one and is zero elsewhere, as
/// the key is.
pub proof fn lemma_claim_rows_in_order(p: Proof, relation: Seq<(nat, nat, nat)>)
    requires
        claim_error(p, relation) is None,
    ensures
        claim_rows(p, relation).len() == claim_len(p),
        claim_rows(p, relation)[0].segment_kind == SegmentKind::Start,
        segments_in_order(claim_rows(p, relation)),
        forall|i: int| 0 <= i < claim_len(p) ==> #[trigger] in_place(claim_rows(p, relation), i),
{
    let key = account_key(relation, p.claim.address).unwrap();
    let other = other_leaf(p, key).unwrap();
    let rows = claim_rows(p, relation);
    let n = p.steps@.len() as int;
    assert forall|i: int| 0 <= i < claim_len(p) implies #[trigger] in_place(rows, i) && (i > 0
        ==> follows_at(rows, i)) by {
        if i == 0 {
            assert(rows[i] == start_row(p, other));
        } else if i <= n {
            assert(rows[i] == trie_row(p, key, other, i - 1));
            lemma_walk_steps(p, relation, 0, i - 1);
            if i > 1 {
                assert(rows[i - 1] == trie_row(p, key, other, i - 2));
            } else {
                assert(rows[i - 1] == start_row(p, other));
            }
        } else {
            let path_kind = leaf_path(p).unwrap();
            assert(rows[i] == leaf_row(p, other, path_kind, i - n - 1));
            if i == n + 1 {
                assert(rows[i - 1] == trie_row(p, key, other, n - 1));
            } else {
                assert(rows[i - 1] == leaf_row(p, other, path_kind, i - n - 2));
            }
        }
    }
}

/// What the walk checks is what the constraints demand. On the trie row of
/// each step of a claim that is given rows, a side that goes on hashes up to
/// the row before, as the rules of its path kind have it, and a side that is
/// frozen keeps the hash of the row before.
pub proof fn lemma_assigned_rows_hash_up(p: Proof, relations: Relations, index: int)
    requires
        claim_error(p, relations.hash) is None,
        0 <= index < p.steps@.len(),
        step_at(p, index).old_hash.reduced(),
        step_at(p, index).new_hash.reduced(),
        step_at(p, index).sibling.reduced(),
    ensures
        ({
            let row = claim_rows(p, relations.hash)[index + 1];
            let before = claim_rows(p, relations.hash)[index];
            &&& row.path_kind != PathKind::Start
            &&& row.path_kind.spec_old_is_active() ==> hashes_up(
                relations,
                row.direction,
                row.old_hash,
                row.sibling,
                before.old_hash,
            )
            &&& row.path_kind.spec_new_is_active() ==> hashes_up(
                relations,
                row.direction,
                row.new_hash,
                row.sibling,
                before.new_hash,
            )
            &&& row.path_kind == PathKind::ExtensionOld ==> row.new_hash == before.new_hash
            &&& row.path_kind == PathKind::ExtensionNew ==> row.old_hash == before.old_hash
        }),
{
    let relation = relations.hash;
    let key = account_key(relation, p.claim.address).unwrap();
    let other = other_leaf(p, key).unwrap();
    let rows = claim_rows(p, relation);
    let s = step_at(p, index);
    lemma_walk_steps(p, relation, 0, index);
    assert(rows[index + 1] == trie_row(p, key, other, index));
    if index == 0 {
        assert(rows[index] == start_row(p, other));
    } else {
        assert(rows[index] == trie_row(p, key, other, index - 1));
    }
    assert(rows[index].old_hash == old_hash_above(p, index));
    assert(rows[index].new_hash == new_hash_above(p, index));
    lemma_select_children(s.direction, s.old_hash@, s.sibling@);
    lemma_select_children(s.direction, s.new_hash@, s.sibling@);
    if s.spec_path_kind().unwrap().spec_old_is_active() {
        assert(old_side_hashes(p, relation, index));
    }
    if s.spec_path_kind().unwrap().spec_new_is_active() {
        assert(new_side_hashes(p, relation, index));
    }
}

/// The leaf block of a claim is its last five rows, one for each of the
/// account's leaf segments, from the first to the last. The first turns
/// right, the fourth holds the value and turns as the kind of claim says, the
/// others turn left. Each holds the sibling that the witness gives for it.
pub proof fn lemma_leaf_block_of_claim(p: Proof, relation: Seq<(nat, nat, nat)>, index: int)
    requires
        claim_error(p, relation) is None,
        leaf_path(p) is Some,
        0 <= index < 5,
    ensures
        claim_rows(p, relation).len() == p.steps@.len() + 6,
        ({
            let row = claim_rows(p, relation)[p.steps@.len() + 1 + index];
            &&& row.segment_kind == if index == 0 {
                SegmentKind::AccountLeaf0
            } else if index == 1 {
                SegmentKind::AccountLeaf1
            } else if index == 2 {
                SegmentKind::AccountLeaf2
            } else if index == 3 {
                SegmentKind::AccountLeaf3
            } else {
                SegmentKind::AccountLeaf4
            }
            &&& row.path_kind == leaf_path(p).unwrap()
            &&& row.direction == if index == 0 || (index == 3 && p.claim.proof_kind
                == ProofKind::BalanceChanged) {
                1nat
            } else {
                0nat
            }
            &&& row.sibling == p.leaf_siblings@[index]@
            &&& p.claim.proof_kind.spec_is_implemented()
        }),
{
    let key = account_key(relation, p.claim.address).unwrap();
    let other = other_leaf(p, key).unwrap();
    let n = p.steps@.len() as int;
    assert(claim_rows(p, relation)[n + 1 + index] == leaf_row(
        p,
        other,
        leaf_path(p).unwrap(),
        index,
    ));
}

/// The number of rows of a batch of claims that have nothing wrong with
/// them: the place in the table at which the rows of the next claim begin.
pub open spec fn batch_len(proofs: Seq<Proof>) -> nat
    decreases proofs.len(),
{
    if proofs.len() == 0 {
        0
    } else {
        batch_len(proofs.drop_last()) + claim_len(proofs.last())
    }
}

/// A batch has as many rows as its claims have together, so the rows of each
/// claim stand at a place that follows from the paths of the claims before it
/// alone, and no two claims share a row.
pub proof fn lemma_rows_of_claim_in_batch(
    proofs: Seq<Proof>,
    relation: Seq<(nat, nat, nat)>,
    claim: int,
    index: int,
)
    requires
        forall|k: int| 0 <= k < proofs.len() ==> claim_error(#[trigger] proofs[k], relation) is None,
        0 <= claim < proofs.len(),
        0 <= index < claim_len(proofs[claim]),
    ensures
        batch_rows(proofs, relation).len() == batch_len(proofs),
        batch_len(proofs.take(claim)) + index < batch_len(proofs),
        batch_rows(proofs, relation)[batch_len(proofs.take(claim)) + index] == claim_rows(
            proofs[claim],
            relation,
        )[index],
    decreases proofs.len(),
{
    let before = proofs.drop_last();
    assert forall|k: int| 0 <= k < before.len() implies claim_error(
        #[trigger] before[k],
        relation,
    ) is None by {
        assert(before[k] == proofs[k]);
    }
    lemma_batch_rows_len(before, relation);
    lemma_claim_rows_in_order(proofs.last(), relation);
    if claim == proofs.len() - 1 {
        assert(proofs.take(claim) =~= before);
    } else {
        lemma_rows_of_claim_in_batch(before, relation, claim, index);
        assert(before.take(claim) =~= proofs.take(claim));
    }
}

/// A batch has as many rows as its claims have together.
pub proof fn lemma_batch_rows_len(proofs: Seq<Proof>, relation: Seq<(nat, nat, nat)>)
    requires
        forall|k: int| 0 <= k < proofs.len() ==> claim_error(#[trigger] proofs[k], relation) is None,
    ensures
        batch_rows(proofs, relation).len() == batch_len(proofs),
    decreases proofs.len(),
{
    if proofs.len() > 0 {
        let before = proofs.drop_last();
        assert forall|k: int| 0 <= k < before.len() implies claim_error(
            #[trigger] before[k],
            relation,
        ) is None by {
            assert(before[k] == proofs[k]);
        }
        lemma_batch_rows_len(before, relation);
        lemma_claim_rows_in_order(proofs.last(), relation);
    }
}

/// The rows of a batch are in the order of the state machine.
pub proof fn lemma_batch_rows_in_order(proofs: Seq<Proof>, relation: Seq<(nat, nat, nat)>)
    requires
        forall|k: int| 0 <= k < proofs.len() ==> claim_error(#[trigger] proofs[k], relation) is None,
    ensures
        segments_in_order(batch_rows(proofs, relation)),
    decreases proofs.len(),
{
    if proofs.len() > 0 {
        let before = batch_rows(proofs.drop_last(), relation);
        let last = claim_rows(proofs.last(), relation);
        assert forall|k: int| 0 <= k < proofs.drop_last().len() implies claim_error(
            #[trigger] proofs.drop_last()[k],
            relation,
        ) is None by {
            assert(proofs.drop_last()[k] == proofs[k]);
        }
        lemma_batch_rows_in_order(proofs.drop_last(), relation);
        lemma_claim_rows_in_order(proofs.last(), relation);
        lemma_order_of_tables_joined(before, last);
    }
}

/// Two tables in order, the second beginning with a start row, are in order
/// when joined.
proof fn lemma_order_of_tables_joined(first: Seq<RowView>, second: Seq<RowView>)
    requires
        segments_in_order(first),
        segments_in_order(second),
        second.len() > 0 ==> second[0].segment_kind == SegmentKind::Start,
    ensures
        segments_in_order(first + second),
{
    let all = first + second;
    assert forall|i: int| 0 < i < all.len() implies #[trigger] follows_at(all, i) by {
        if i < first.len() {
            assert(follows_at(first, i));
        } else if i > first.len() {
            assert(follows_at(second, i - first.len()));
        }
    }
}

/// A hash packs the code size above the nonce: the code size times two to
/// the power of 64, plus the nonce, is the hash, in the field.
pub proof fn lemma_code_size_packs(hash: nat, nonce: nat)
    requires
        hash < modulus(),
        nonce < modulus(),
    ensures
        field_add(field_mul(code_size(hash, nonce), two_64()), nonce) == hash,
{
    let m = modulus() as int;
    let b = two_64() as int;
    let c = inverse_of_two_64() as int;
    let x = field_sub(hash, nonce) as int;
    let s = code_size(hash, nonce) as int;
    assert((c * b) % m == 1) by {
        lemma_inverse_of_two_64();
        assert(c * b == b * c) by (nonlinear_arith);
    }
    assert((s * b) % m == x) by {
        lemma_mul_mod_noop_left(x * c, b, m);
        lemma_mul_is_associative(x, c, b);
        lemma_mul_mod_noop_right(x, c * b, m);
        assert(x * 1 == x);
        lemma_small_mod(x as nat, m as nat);
    }
    assert((x + nonce) % m == hash) by {
        lemma_add_mod_noop(hash - nonce, nonce as int, m);
        lemma_small_mod(nonce, m as nat);
        lemma_small_mod(hash, m as nat);
    }
}

/// The code size that is read from a code size packed above a nonce is that
/// code size.
pub proof fn lemma_code_size_of_packed(size: nat, nonce: nat)
    requires
        size < two_64(),
        nonce < two_64(),
    ensures
        size * two_64() + nonce < modulus(),
        code_size(size * two_64() + nonce, nonce) == size,
{
    let m = modulus() as int;
    let b = two_64() as int;
    let c = inverse_of_two_64() as int;
    let s = size as int;
    assert(s * b < b * b) by (nonlinear_arith)
        requires
            0 <= s < b,
    ;
    assert(b * b == 0x1_0000_0000_0000_0000_0000_0000_0000_0000int) by (nonlinear_arith)
        requires
            b == 0x1_0000_0000_0000_0000,
    ;
    lemma_small_mod((s * b) as nat, m as nat);
    assert(field_sub(size * two_64() + nonce, nonce) == s * b);
    assert((b * c) % m == 1) by {
        lemma_inverse_of_two_64();
    }
    assert(((s * b) * c) % m == s) by {
        lemma_mul_is_associative(s, b, c);
        lemma_mul_mod_noop_right(s, b * c, m);
        assert(s * 1 == s);
        lemma_small_mod(size, m as nat);
    }
}

/// A changed nonce of an account that exists. On the row that holds the
/// nonce, where both paths run, the old and the new hash pack the same code
/// size above the old and the new nonce, and code size and nonces fit in 8
/// bytes.
pub proof fn lemma_nonce_of_existing_account(
    config: MptUpdateConfig,
    table: Seq<RowView>,
    relations: Relations,
    row: int,
)
    requires
        config.wf(),
        config.kinds@.contains(ProofKind::NonceChanged),
        satisfied(config.constraints@, table, relations),
        byte_ranges_are_true(relations),
        0 <= row < table.len(),
        table[row].reduced(),
        table[row].proof_kind == ProofKind::NonceChanged,
        table[row].segment_kind == SegmentKind::AccountLeaf3,
        table[row].path_kind == PathKind::Common,
    ensures
        code_size(table[row].old_hash, table[row].old_value) == code_size(
            table[row].new_hash,
            table[row].new_value,
        ),
        code_size(table[row].old_hash, table[row].old_value) < two_64(),
        table[row].old_value < two_64(),
        table[row].new_value < two_64(),
        table[row].old_hash == code_size(table[row].old_hash, table[row].old_value) * two_64()
            + table[row].old_value,
        table[row].new_hash == code_size(table[row].new_hash, table[row].new_value) * two_64()
            + table[row].new_value,
{
    let r = table[row];
    lemma_rules_hold(config, table, relations, row);
    let k = choose|k: int| 0 <= k < config.kinds@.len() && config.kinds@[k] == ProofKind::NonceChanged;
    assert(crate::rules::claim_rules(config.kinds@[k], row_at(table, row - 1), r, relations));
    let size = code_size(r.old_hash, r.old_value);
    vstd::arithmetic::power2::lemma2_to64();
    let old_line = choose|i: int|
        0 <= i < relations.byte_range.len() && relations.byte_range[i] == (r.old_value, 7nat);
    let new_line = choose|i: int|
        0 <= i < relations.byte_range.len() && relations.byte_range[i] == (r.new_value, 7nat);
    let size_line = choose|i: int|
        0 <= i < relations.byte_range.len() && relations.byte_range[i] == (size, 7nat);
    assert(relations.byte_range[old_line].0 < pow2(64));
    assert(relations.byte_range[new_line].0 < pow2(64));
    assert(relations.byte_range[size_line].0 < pow2(64));
    assert(r.cell(crate::row::AdviceColumn::OldHash) < modulus());
    assert(r.cell(crate::row::AdviceColumn::NewHash) < modulus());
    lemma_code_size_packs(r.old_hash, r.old_value);
    lemma_code_size_packs(r.new_hash, r.new_value);
    assert(size * two_64() < two_64() * two_64()) by (nonlinear_arith)
        requires
            size < two_64(),
    ;
    assert(two_64() * two_64() == 0x1_0000_0000_0000_0000_0000_0000_0000_0000nat)
        by (nonlinear_arith)
        requires
            two_64() == 0x1_0000_0000_0000_0000,
    ;
    lemma_small_mod(size * two_64(), modulus());
    lemma_small_mod(size * two_64() + r.old_value, modulus());
    lemma_small_mod(size * two_64() + r.new_value, modulus());
}

/// A changed balance. On the row that holds the balance, the hash of a side
/// that is there is the claimed value of that side as it stands.
pub proof fn lemma_balance_is_leaf_hash(
    config: MptUpdateConfig,
    table: Seq<RowView>,
    relations: Relations,
    row: int,
)
    requires
        config.wf(),
        config.kinds@.contains(ProofKind::BalanceChanged),
        satisfied(config.constraints@, table, relations),
        0 <= row < table.len(),
        table[row].proof_kind == ProofKind::BalanceChanged,
        table[row].segment_kind == SegmentKind::AccountLeaf3,
    ensures
        table[row].path_kind.spec_old_is_active() ==> table[row].old_hash == table[row].old_value,
        table[row].path_kind.spec_new_is_active() ==> table[row].new_hash == table[row].new_value,
{
    lemma_rules_hold(config, table, relations, row);
    let k = choose|k: int|
        0 <= k < config.kinds@.len() && config.kinds@[k] == ProofKind::BalanceChanged;
    assert(crate::rules::claim_rules(
        config.kinds@[k],
        row_at(table, row - 1),
        table[row],
        relations,
    ));
}

/// The two ways in which an account is shown not to exist. On the first row
/// of a leaf block on which the old side is frozen: if the key is not the
/// other key, another leaf stands in the account's place, and the old value
/// is zero; if the old hash is not zero, it is the hash of that other leaf;
/// and if the paths ran together up to this row, the old hash before it is
/// zero: the account's place is empty.
pub proof fn lemma_empty_account(
    config: MptUpdateConfig,
    table: Seq<RowView>,
    relations: Relations,
    row: int,
)
    requires
        config.wf(),
        satisfied(config.constraints@, table, relations),
        0 <= row < table.len(),
        table[row].reduced(),
        table[row].path_kind == PathKind::ExtensionNew,
        table[row].segment_kind == SegmentKind::AccountLeaf0,
    ensures
        table[row].key != table[row].other_key ==> table[row].old_value == 0,
        table[row].old_hash != 0 ==> relations.hash.contains(
            (
                table[row].other_leaf_data_hash,
                table[row].other_key_hash,
                row_at(table, row - 1).old_hash,
            ),
        ),
        row_at(table, row - 1).path_kind == PathKind::Common ==> row_at(table, row - 1).old_hash
            == 0,
{
    lemma_rules_hold(config, table, relations, row);
    if row_at(table, row - 1).path_kind == PathKind::Common {
        lemma_rules_hold(config, table, relations, row - 1);
    }
}

/// On every trie row, the direction is the bit of the key at the depth
/// before, and the depth is one more than on the row before. Where both paths
/// run, the direction is that bit of the other key too.
pub proof fn lemma_direction_is_key_bit(
    config: MptUpdateConfig,
    table: Seq<RowView>,
    relations: Relations,
    row: int,
)
    requires
        config.wf(),
        satisfied(config.constraints@, table, relations),
        key_bits_are_true(relations),
        0 <= row < table.len(),
        table[row].segment_kind.spec_is_trie(),
    ensures
        table[row].depth == field_add(row_at(table, row - 1).depth, 1),
        table[row].direction == key_bit(table[row].key, field_sub(table[row].depth, 1)),
        table[row].path_kind == PathKind::Common ==> table[row].direction == key_bit(
            table[row].other_key,
            field_sub(table[row].depth, 1),
        ),
{
    let r = table[row];
    lemma_rules_hold(config, table, relations, row);
    let line = choose|i: int|
        0 <= i < relations.key_bit.len() && relations.key_bit[i] == (
            r.key,
            field_sub(r.depth, 1),
            r.direction,
        );
    assert(relations.key_bit[line].2 == r.direction);
    if r.path_kind == PathKind::Common {
        let other = choose|i: int|
            0 <= i < relations.key_bit.len() && relations.key_bit[i] == (
                r.other_key,
                field_sub(r.depth, 1),
                r.direction,
            );
        assert(relations.key_bit[other].2 == r.direction);
    }
}

} // verus!
