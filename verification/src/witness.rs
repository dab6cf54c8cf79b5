//! When the rows of a claim satisfy the constraints.
//!
//! The assigner checks the walk of a claim against the hash relation and
//! nothing else. What else the constraints demand of a claim's rows is
//! gathered here as the soundness of its witness; the rows of a claim with a
//! sound witness satisfy the constraints.

use crate::assign::{
    claim_error, claim_len, claim_rows, leaf_direction, leaf_hash, leaf_path, leaf_row, left_child,
    other_leaf, right_child, start_row, step_at, trie_row,
};
use crate::claim::{account_key, hashes_to, lemma_hash_of, Address, Proof};
use crate::config::MptUpdateConfig;
use crate::constraint::{all_hold, satisfied, Relations};
use crate::field::{field_add, field_sub, modulus, Fe};
use crate::kinds::{PathKind, ProofKind, SegmentKind};
use crate::laws::{
    lemma_assigned_rows_hash_up, lemma_field_sub_zero, lemma_select_children, lemma_walk_steps,
};
use crate::query::row_at;
use crate::row::RowView;
use crate::rules::{
    base_rules, claim_rules, code_size, first_leaf_rules, low_bits_shifted, path_may_follow,
    path_rules, row_rules, state_rules, two_32, two_96,
};
use vstd::arithmetic::div_mod::lemma_small_mod;
use vstd::prelude::*;

verus! {

/// The number in a cell that holds a direction.
pub open spec fn bit(direction: bool) -> nat {
    if direction {
        1
    } else {
        0
    }
}

/// The hash of a side on the row above row `index` of the leaf block: the
/// hash in which the side's walk ends above the first row, the side's hash on
/// the row before above any other.
pub open spec fn leaf_hash_above(hashes: Option<[Fe; 5]>, end: Fe, index: int) -> nat {
    if index <= 0 {
        end@
    } else {
        leaf_hash(hashes, end, index - 1)
    }
}

/// Whether a side of the leaf block hashes up, row by row, to the hash in
/// which the side's walk ends.
pub open spec fn leaf_side_hashes_up(
    p: Proof,
    relations: Relations,
    hashes: Option<[Fe; 5]>,
    end: Fe,
) -> bool {
    forall|i: int|
        0 <= i < 5 ==> hashes_to(
            relations.hash,
            left_child(
                leaf_direction(p.claim.proof_kind, i),
                #[trigger] leaf_hash(hashes, end, i),
                p.leaf_siblings@[i]@,
            ),
            right_child(
                leaf_direction(p.claim.proof_kind, i),
                leaf_hash(hashes, end, i),
                p.leaf_siblings@[i]@,
            ),
            leaf_hash_above(hashes, end, i),
        )
}

/// Whether a side of the leaf block keeps the hash in which the side's walk
/// ends.
pub open spec fn leaf_side_is_frozen(hashes: Option<[Fe; 5]>, end: Fe) -> bool {
    forall|i: int| 0 <= i < 5 ==> #[trigger] leaf_hash(hashes, end, i) == end@
}

/// Whether the row that holds the claimed value is as the kind of claim has
/// it. For a nonce: the hash of a side that is there packs a code size above
/// its nonce, the byte-range relation knows that both fit in 8 bytes, the
/// code sizes of two sides that are there are equal, and that of a frozen side
/// is zero. For a balance: the hash of a side that is there is its value.
pub open spec fn value_row_is_sound(p: Proof, relations: Relations, path_kind: PathKind) -> bool {
    let old_hash = leaf_hash(p.old_leaf_hashes, p.steps@[0].old_hash, 3);
    let new_hash = leaf_hash(p.new_leaf_hashes, p.steps@[0].new_hash, 3);
    let old_value = p.claim.old_value@;
    let new_value = p.claim.new_value@;
    let old_size = code_size(old_hash, old_value);
    let new_size = code_size(new_hash, new_value);
    match p.claim.proof_kind {
        ProofKind::NonceChanged => {
            &&& path_kind.spec_old_is_active() ==> relations.byte_range.contains((old_value, 7))
                && relations.byte_range.contains((old_size, 7))
            &&& path_kind.spec_new_is_active() ==> relations.byte_range.contains((new_value, 7))
                && relations.byte_range.contains((new_size, 7))
            &&& path_kind == PathKind::Common ==> old_size == new_size
            &&& path_kind == PathKind::ExtensionNew ==> old_size == 0
            &&& path_kind == PathKind::ExtensionOld ==> new_size == 0
        },
        _ => {
            &&& path_kind.spec_old_is_active() ==> old_value == old_hash
            &&& path_kind.spec_new_is_active() ==> new_value == new_hash
        },
    }
}

/// Whether the leaf block of a claim is as the constraints demand. A side
/// that goes on hashes up through the block, a side that is frozen keeps its
/// hash. The first sibling is the hash of one and the account's key, and the
/// byte-range relation knows that the upper bits of the address fit in 16
/// bytes. Where the old side is frozen, the other leaf is shown: the hash of
/// its key is that of one and its key, and where the old side does not end
/// empty, it ends in the hash of the other leaf's data and key hash.
pub open spec fn leaf_block_is_sound(
    p: Proof,
    relations: Relations,
    key: nat,
    other: (nat, nat, nat),
    path_kind: PathKind,
) -> bool {
    let old_end = p.steps@[0].old_hash;
    let new_end = p.steps@[0].new_hash;
    &&& forall|i: int|
        0 <= i < 5 ==> (#[trigger] p.leaf_siblings@[i]).reduced() && leaf_hash(
            p.old_leaf_hashes,
            old_end,
            i,
        ) < modulus() && leaf_hash(p.new_leaf_hashes, new_end, i) < modulus()
    &&& path_kind.spec_old_is_active() ==> leaf_side_hashes_up(
        p,
        relations,
        p.old_leaf_hashes,
        old_end,
    )
    &&& path_kind.spec_new_is_active() ==> leaf_side_hashes_up(
        p,
        relations,
        p.new_leaf_hashes,
        new_end,
    )
    &&& path_kind == PathKind::ExtensionNew ==> leaf_side_is_frozen(p.old_leaf_hashes, old_end)
    &&& path_kind == PathKind::ExtensionOld ==> leaf_side_is_frozen(p.new_leaf_hashes, new_end)
    &&& hashes_to(relations.hash, 1, key, p.leaf_siblings@[0]@)
    &&& relations.byte_range.contains((p.claim.address.high(), 15))
    &&& path_kind == PathKind::ExtensionNew ==> hashes_to(relations.hash, 1, other.0, other.1)
    &&& path_kind == PathKind::ExtensionNew && old_end@ != 0 ==> hashes_to(
        relations.hash,
        other.2,
        other.1,
        old_end@,
    )
    &&& value_row_is_sound(p, relations, path_kind)
}

/// Whether the step at `index` of the walk, counted from the root, is as the
/// constraints demand. Its elements are reduced. The key-bit relation knows
/// that its direction is the bit of the key at its index, and, where both
/// paths run, of the other key. A side that has ended stays ended. Beside a
/// path that goes on alone lies nothing, but on the last step the leaf that
/// was moved, whose hash is the frozen one.
pub open spec fn step_is_sound(
    p: Proof,
    relations: Relations,
    key: nat,
    other: (nat, nat, nat),
    index: int,
) -> bool {
    let s = step_at(p, index);
    let path_kind = s.spec_path_kind().unwrap();
    let is_last = index == p.steps@.len() - 1;
    &&& s.old_hash.reduced() && s.new_hash.reduced() && s.sibling.reduced()
    &&& relations.key_bit.contains((key, index as nat, bit(s.direction)))
    &&& path_kind == PathKind::Common ==> relations.key_bit.contains(
        (other.0, index as nat, bit(s.direction)),
    )
    &&& index > 0 ==> path_may_follow(step_at(p, index - 1).spec_path_kind().unwrap(), path_kind)
    &&& path_kind == PathKind::ExtensionOld ==> s.sibling@ == if is_last {
        s.new_hash@
    } else {
        0
    }
    &&& path_kind == PathKind::ExtensionNew ==> s.sibling@ == if is_last {
        s.old_hash@
    } else {
        0
    }
    &&& path_kind == PathKind::ExtensionNew ==> p.claim.old_value@ == 0
}

/// Whether the witness of a claim that is given rows is as the constraints
/// demand: what the assigner does not check.
pub open spec fn witness_is_sound(p: Proof, relations: Relations) -> bool {
    let key = account_key(relations.hash, p.claim.address).unwrap();
    let other = other_leaf(p, key).unwrap();
    &&& key < modulus()
    &&& other.0 < modulus()
    &&& p.steps@.len() < two_32()
    &&& relations.byte_range.contains((0, 15))
    &&& forall|index: int|
        0 <= index < p.steps@.len() ==> #[trigger] step_is_sound(p, relations, key, other, index)
    &&& match leaf_path(p) {
        Some(path_kind) => {
            &&& leaf_block_is_sound(p, relations, key, other, path_kind)
            &&& path_kind == PathKind::ExtensionNew ==> p.claim.old_value@ == 0
        },
        None => true,
    }
}

/// The rules hold of the row that opens a claim, whatever stands before and
/// after it.
proof fn lemma_start_row(
    p: Proof,
    relations: Relations,
    kinds: Seq<ProofKind>,
    before: RowView,
    after: RowView,
)
    requires
        claim_error(p, relations.hash) is None,
        witness_is_sound(p, relations),
    ensures
        row_rules(kinds, before, claim_rows(p, relations.hash)[0], after, relations),
{
    let key = account_key(relations.hash, p.claim.address).unwrap();
    let other = other_leaf(p, key).unwrap();
    let row = claim_rows(p, relations.hash)[0];
    assert(row == start_row(p, other));
    lemma_field_sub_zero(0, other.0);
    assert(state_rules(before, row));
    assert(base_rules(before, row, relations));
    assert(path_rules(before, row, after, relations));
    assert forall|k: int| 0 <= k < kinds.len() implies claim_rules(
        #[trigger] kinds[k],
        before,
        row,
        relations,
    ) by {}
}

/// The row after row `index` of the rows of a claim: the next row of the
/// claim, or what stands after the claim.
pub open spec fn row_after(rows: Seq<RowView>, index: int, after: RowView) -> RowView {
    if index + 1 < rows.len() {
        rows[index + 1]
    } else {
        after
    }
}

/// The rules hold of the trie rows of a claim, if a start row or padding
/// stands after the claim.
proof fn lemma_trie_row(
    p: Proof,
    relations: Relations,
    kinds: Seq<ProofKind>,
    index: int,
    after: RowView,
)
    requires
        claim_error(p, relations.hash) is None,
        witness_is_sound(p, relations),
        0 <= index < p.steps@.len(),
        after.segment_kind == SegmentKind::Start,
    ensures
        row_rules(
            kinds,
            claim_rows(p, relations.hash)[index],
            claim_rows(p, relations.hash)[index + 1],
            row_after(claim_rows(p, relations.hash), index + 1, after),
            relations,
        ),
{
    let key = account_key(relations.hash, p.claim.address).unwrap();
    let other = other_leaf(p, key).unwrap();
    let rows = claim_rows(p, relations.hash);
    let n = p.steps@.len() as int;
    let s = step_at(p, index);
    let row = rows[index + 1];
    let before = rows[index];
    let next = row_after(rows, index + 1, after);
    assert(step_is_sound(p, relations, key, other, index));
    lemma_walk_steps(p, relations.hash, 0, index);
    assert(row == trie_row(p, key, other, index));
    if index == 0 {
        assert(before == start_row(p, other));
    } else {
        assert(before == trie_row(p, key, other, index - 1));
        lemma_walk_steps(p, relations.hash, 0, index - 1);
    }
    if index + 1 < n {
        assert(next == trie_row(p, key, other, index + 1));
    } else if leaf_path(p) is Some {
        assert(next == leaf_row(p, other, leaf_path(p).unwrap(), 0));
    } else {
        assert(next == after);
    }
    lemma_assigned_rows_hash_up(p, relations, index);
    lemma_small_mod(index as nat, modulus());
    lemma_small_mod((index + 1) as nat, modulus());
    lemma_field_sub_zero(key, other.0);
    assert(field_sub((index + 1) as nat, 1) == index);
    assert(field_add(index as nat, 1) == index + 1);
    assert(state_rules(before, row));
    assert(base_rules(before, row, relations));
    assert(path_rules(before, row, next, relations));
    assert forall|k: int| 0 <= k < kinds.len() implies claim_rules(
        #[trigger] kinds[k],
        before,
        row,
        relations,
    ) by {}
}

/// What the constraints compute from an address and its upper bits is the
/// lower bits of the address, moved to the top of a 128-bit word.
pub proof fn lemma_low_bits_shifted(address: Address)
    ensures
        low_bits_shifted(address@, address.high()) == address.low() * two_96(),
{
    address.lemma_split();
    let m = modulus();
    lemma_small_mod(address.high() * two_32(), m);
    lemma_small_mod(address.low(), m);
    lemma_small_mod(address.low() * two_96(), m);
}

/// The rules hold of the rows of the leaf block of a claim, if a start row or
/// padding stands after the claim.
proof fn lemma_leaf_row(
    p: Proof,
    relations: Relations,
    kinds: Seq<ProofKind>,
    index: int,
    after: RowView,
)
    requires
        claim_error(p, relations.hash) is None,
        witness_is_sound(p, relations),
        leaf_path(p) is Some,
        0 <= index < 5,
        after.segment_kind == SegmentKind::Start,
    ensures
        row_rules(
            kinds,
            claim_rows(p, relations.hash)[p.steps@.len() + index],
            claim_rows(p, relations.hash)[p.steps@.len() + index + 1],
            row_after(claim_rows(p, relations.hash), p.steps@.len() + index + 1, after),
            relations,
        ),
{
    let key = account_key(relations.hash, p.claim.address).unwrap();
    let other = other_leaf(p, key).unwrap();
    let rows = claim_rows(p, relations.hash);
    let n = p.steps@.len() as int;
    let path_kind = leaf_path(p).unwrap();
    let row = rows[n + index + 1];
    let before = rows[n + index];
    let next = row_after(rows, n + index + 1, after);
    let direction = leaf_direction(p.claim.proof_kind, index);
    let old_hash = leaf_hash(p.old_leaf_hashes, p.steps@[0].old_hash, index);
    let new_hash = leaf_hash(p.new_leaf_hashes, p.steps@[0].new_hash, index);
    assert(leaf_block_is_sound(p, relations, key, other, path_kind));
    assert(row == leaf_row(p, other, path_kind, index));
    if index == 0 {
        assert(before == trie_row(p, key, other, n - 1));
        assert(step_at(p, n - 1) == p.steps@[0]);
        lemma_walk_steps(p, relations.hash, 0, n - 1);
    } else {
        assert(before == leaf_row(p, other, path_kind, index - 1));
    }
    if index < 4 {
        assert(next == leaf_row(p, other, path_kind, index + 1));
    } else {
        assert(next == after);
    }
    assert(p.leaf_siblings@[index].reduced());
    assert(before.old_hash == leaf_hash_above(p.old_leaf_hashes, p.steps@[0].old_hash, index));
    assert(before.new_hash == leaf_hash_above(p.new_leaf_hashes, p.steps@[0].new_hash, index));
    lemma_select_children(direction, old_hash, p.leaf_siblings@[index]@);
    lemma_select_children(direction, new_hash, p.leaf_siblings@[index]@);
    lemma_field_sub_zero(0, other.0);
    lemma_low_bits_shifted(p.claim.address);
    lemma_hash_of(
        relations.hash,
        p.claim.address.high(),
        p.claim.address.low() * 0x1_0000_0000_0000_0000_0000_0000,
    );
    assert(state_rules(before, row));
    assert(base_rules(before, row, relations));
    assert(path_rules(before, row, next, relations));
    assert forall|k: int| 0 <= k < kinds.len() implies claim_rules(
        #[trigger] kinds[k],
        before,
        row,
        relations,
    ) by {
        if index == 0 {
            assert(first_leaf_rules(before, row, relations));
        }
    }
}

/// The row before row `index` of the rows of a claim: the row of the claim
/// before it, or what stands before the claim.
pub open spec fn row_before(rows: Seq<RowView>, index: int, before: RowView) -> RowView {
    if index > 0 {
        rows[index - 1]
    } else {
        before
    }
}

/// The rules hold of every row of a claim with a sound witness, whatever
/// stands before the claim, if a start row or padding stands after it.
proof fn lemma_claim_row(
    p: Proof,
    relations: Relations,
    kinds: Seq<ProofKind>,
    before: RowView,
    after: RowView,
    index: int,
)
    requires
        claim_error(p, relations.hash) is None,
        witness_is_sound(p, relations),
        after.segment_kind == SegmentKind::Start,
        0 <= index < claim_len(p),
    ensures
        claim_rows(p, relations.hash).len() == claim_len(p),
        row_rules(
            kinds,
            row_before(claim_rows(p, relations.hash), index, before),
            claim_rows(p, relations.hash)[index],
            row_after(claim_rows(p, relations.hash), index, after),
            relations,
        ),
{
    let n = p.steps@.len() as int;
    if index == 0 {
        lemma_start_row(
            p,
            relations,
            kinds,
            before,
            row_after(claim_rows(p, relations.hash), 0, after),
        );
    } else if index <= n {
        lemma_trie_row(p, relations, kinds, index - 1, after);
    } else {
        lemma_leaf_row(p, relations, kinds, index - n - 1, after);
    }
}

/// The rows of a claim with a sound witness satisfy the constraints.
pub proof fn lemma_sound_claim_satisfies(config: MptUpdateConfig, p: Proof, relations: Relations)
    requires
        config.wf(),
        claim_error(p, relations.hash) is None,
        witness_is_sound(p, relations),
    ensures
        satisfied(config.constraints@, claim_rows(p, relations.hash), relations),
{
    let table = claim_rows(p, relations.hash);
    assert forall|row: int| 0 <= row < table.len() implies #[trigger] all_hold(
        config.constraints@,
        table,
        row,
        relations,
    ) by {
        lemma_claim_row(p, relations, config.kinds@, RowView::padding(), RowView::padding(), row);
        assert(row_at(table, row - 1) == row_before(table, row, RowView::padding()));
        assert(row_at(table, row + 1) == row_after(table, row, RowView::padding()));
    }
}

/// The rules hold of every row of a batch of claims with sound witnesses, if
/// a start row or padding stands after the batch.
proof fn lemma_batch_row(
    proofs: Seq<Proof>,
    relations: Relations,
    kinds: Seq<ProofKind>,
    after: RowView,
    index: int,
)
    requires
        forall|k: int|
            0 <= k < proofs.len() ==> claim_error(#[trigger] proofs[k], relations.hash) is None
                && witness_is_sound(proofs[k], relations),
        after.segment_kind == SegmentKind::Start,
        0 <= index < crate::assign::batch_rows(proofs, relations.hash).len(),
    ensures
        row_rules(
            kinds,
            row_at(crate::assign::batch_rows(proofs, relations.hash), index - 1),
            crate::assign::batch_rows(proofs, relations.hash)[index],
            row_after(crate::assign::batch_rows(proofs, relations.hash), index, after),
            relations,
        ),
    decreases proofs.len(),
{
    let relation = relations.hash;
    if proofs.len() > 0 {
        let first = crate::assign::batch_rows(proofs.drop_last(), relation);
        let last = claim_rows(proofs.last(), relation);
        let all = first + last;
        assert(all == crate::assign::batch_rows(proofs, relation));
        lemma_claim_row(proofs.last(), relations, kinds, RowView::padding(), after, 0);
        assert(last[0].segment_kind == SegmentKind::Start) by {
            let key = account_key(relation, proofs.last().claim.address).unwrap();
            assert(last[0] == start_row(proofs.last(), other_leaf(proofs.last(), key).unwrap()));
        }
        if index < first.len() {
            assert forall|k: int| 0 <= k < proofs.drop_last().len() implies claim_error(
                #[trigger] proofs.drop_last()[k],
                relation,
            ) is None && witness_is_sound(proofs.drop_last()[k], relations) by {
                assert(proofs.drop_last()[k] == proofs[k]);
            }
            lemma_batch_row(proofs.drop_last(), relations, kinds, last[0], index);
            assert(all[index] == first[index]);
            assert(row_at(all, index - 1) == row_at(first, index - 1));
            assert(row_after(all, index, after) == row_after(first, index, last[0]));
        } else {
            let place = index - first.len();
            lemma_claim_row(
                proofs.last(),
                relations,
                kinds,
                row_at(all, first.len() - 1),
                after,
                place,
            );
            assert(all[index] == last[place]);
            assert(row_at(all, index - 1) == row_before(last, place, row_at(all, first.len() - 1)));
            assert(row_after(all, index, after) == row_after(last, place, after));
        }
    }
}

/// The rows of a batch of claims with sound witnesses satisfy the
/// constraints.
pub proof fn lemma_sound_batch_satisfies(
    config: MptUpdateConfig,
    proofs: Seq<Proof>,
    relations: Relations,
)
    requires
        config.wf(),
        forall|k: int|
            0 <= k < proofs.len() ==> claim_error(#[trigger] proofs[k], relations.hash) is None
                && witness_is_sound(proofs[k], relations),
    ensures
        satisfied(
            config.constraints@,
            crate::assign::batch_rows(proofs, relations.hash),
            relations,
        ),
{
    let table = crate::assign::batch_rows(proofs, relations.hash);
    assert forall|row: int| 0 <= row < table.len() implies #[trigger] all_hold(
        config.constraints@,
        table,
        row,
        relations,
    ) by {
        lemma_batch_row(proofs, relations, config.kinds@, RowView::padding(), row);
        assert(row_at(table, row + 1) == row_after(table, row, RowView::padding()));
    }
}

} // verus!
