//! What the constraints demand of a row, stated over the row itself, the row
//! before it and the row after it.
//!
//! The rules fall into four groups: those of the state machine, those that
//! hold of every row, those of each path kind, and those of each kind of
//! claim. The constraint generator registers constraints that hold exactly
//! where these rules do.

use crate::constraint::Relations;
use crate::field::{field_add, field_mul, field_sub, modulus};
use crate::kinds::{PathKind, ProofKind, SegmentKind};
use crate::row::RowView;
use vstd::arithmetic::div_mod::{lemma_mod_multiples_vanish, lemma_small_mod};
use vstd::prelude::*;

verus! {

/// Two to the power of 32.
pub open spec fn two_32() -> nat {
    0x1_0000_0000
}

/// Two to the power of 64.
pub open spec fn two_64() -> nat {
    0x1_0000_0000_0000_0000
}

/// Two to the power of 96.
pub open spec fn two_96() -> nat {
    0x1_0000_0000_0000_0000_0000_0000
}

/// The field element that multiplied by two to the power of 64 gives one.
pub open spec fn inverse_of_two_64() -> nat {
    16662651760482593750343275155358532940078388361286693648211298903031153094221nat
}

/// Two to the power of 64 is the square of two to the power of 32, and the
/// number named as its inverse is its inverse.
pub proof fn lemma_inverse_of_two_64()
    ensures
        field_mul(two_32(), two_32()) == two_64(),
        field_mul(two_64(), inverse_of_two_64()) == 1,
{
    let m = modulus() as int;
    let a = two_32() as int;
    let b = two_64() as int;
    let c = inverse_of_two_64() as int;
    let q: int = 14042775128853446655;
    assert(a * a == b) by (nonlinear_arith)
        requires
            a == 0x1_0000_0000,
            b == 0x1_0000_0000_0000_0000,
    ;
    lemma_small_mod(b as nat, m as nat);
    assert(b * c == m * q + 1) by (nonlinear_arith)
        requires
            b == 0x1_0000_0000_0000_0000,
            c == 16662651760482593750343275155358532940078388361286693648211298903031153094221int,
            m == 21888242871839275222246405745257275088548364400416034343698204186575808495617int,
            q == 14042775128853446655,
    ;
    lemma_mod_multiples_vanish(q, 1, m);
    lemma_small_mod(1, m as nat);
}

/// The child to the left under the node above a row: the sibling where the
/// direction is one, the row's own hash where it is zero.
pub open spec fn select_left(direction: nat, hash: nat, sibling: nat) -> nat {
    field_add(field_mul(direction, sibling), field_mul(field_sub(1, direction), hash))
}

/// The child to the right under the node above a row.
pub open spec fn select_right(direction: nat, hash: nat, sibling: nat) -> nat {
    field_add(field_mul(direction, hash), field_mul(field_sub(1, direction), sibling))
}

/// Whether the relation leads from a hash and its sibling, put left and right
/// as the direction says, to the hash above.
pub open spec fn hashes_up(
    relations: Relations,
    direction: nat,
    hash: nat,
    sibling: nat,
    above: nat,
) -> bool {
    relations.hash.contains(
        (select_left(direction, hash, sibling), select_right(direction, hash, sibling), above),
    )
}

/// The lower 32 bits of an address, moved to the top of a 128-bit word, from
/// the address and its upper 128 bits.
pub open spec fn low_bits_shifted(address: nat, upper_bits: nat) -> nat {
    field_mul(field_sub(address, field_mul(upper_bits, two_32())), two_96())
}

/// The code size packed into a leaf hash above a nonce: what is left of the
/// hash without the nonce, divided by two to the power of 64.
pub open spec fn code_size(hash: nat, nonce: nat) -> nat {
    field_mul(field_sub(hash, nonce), inverse_of_two_64())
}

/// Whether a row of one segment kind may stand after a row of another. A
/// claim starts on a start row, goes down the account trie, through the
/// account leaf, and from there perhaps down the storage trie and through the
/// storage leaf. A start row may follow any row: a claim may end where its
/// walk ends.
pub open spec fn segment_may_follow(before: SegmentKind, after: SegmentKind) -> bool {
    match after {
        SegmentKind::Start => true,
        SegmentKind::AccountTrie => before == SegmentKind::Start || before
            == SegmentKind::AccountTrie,
        SegmentKind::AccountLeaf0 => before == SegmentKind::Start || before
            == SegmentKind::AccountTrie,
        SegmentKind::AccountLeaf1 => before == SegmentKind::AccountLeaf0,
        SegmentKind::AccountLeaf2 => before == SegmentKind::AccountLeaf1,
        SegmentKind::AccountLeaf3 => before == SegmentKind::AccountLeaf2,
        SegmentKind::AccountLeaf4 => before == SegmentKind::AccountLeaf3,
        SegmentKind::StorageTrie => before == SegmentKind::AccountLeaf4 || before
            == SegmentKind::StorageTrie,
        SegmentKind::StorageLeaf0 => before == SegmentKind::AccountLeaf4 || before
            == SegmentKind::StorageTrie,
        SegmentKind::StorageLeaf1 => before == SegmentKind::StorageLeaf0,
    }
}

/// Whether a row of one path kind may stand after a row of another. The paths
/// run together from the start until one of them ends, and the one that has
/// ended stays ended.
pub open spec fn path_may_follow(before: PathKind, after: PathKind) -> bool {
    match after {
        PathKind::Start => true,
        PathKind::Common => before == PathKind::Start || before == PathKind::Common,
        PathKind::ExtensionOld => before != PathKind::ExtensionNew,
        PathKind::ExtensionNew => before != PathKind::ExtensionOld,
    }
}

/// Whether the segment kind is one of the rows of a leaf block after its
/// first.
pub open spec fn is_inner_leaf(kind: SegmentKind) -> bool {
    kind == SegmentKind::AccountLeaf1 || kind == SegmentKind::AccountLeaf2 || kind
        == SegmentKind::AccountLeaf3 || kind == SegmentKind::AccountLeaf4 || kind
        == SegmentKind::StorageLeaf1
}

/// The rules of the state machine. The path kind is undefined on start rows
/// and nowhere else; segment and path kinds follow one another as above; the
/// path kind does not change within a leaf block.
pub open spec fn state_rules(previous: RowView, current: RowView) -> bool {
    &&& (current.segment_kind == SegmentKind::Start) == (current.path_kind == PathKind::Start)
    &&& segment_may_follow(previous.segment_kind, current.segment_kind)
    &&& path_may_follow(previous.path_kind, current.path_kind)
    &&& is_inner_leaf(current.segment_kind) ==> current.path_kind == previous.path_kind
}

/// The rules of every row. On a trie row the depth is one more than on the
/// row before and the direction is the bit of the key at the depth before;
/// where the paths run together it is also that bit of the other key. Off the
/// trie, key and depth are zero. The upper bits of the address fit in 16
/// bytes. The indicators say what they are named for.
pub open spec fn base_rules(previous: RowView, current: RowView, relations: Relations) -> bool {
    let on_trie = current.segment_kind.spec_is_trie();
    &&& on_trie ==> relations.key_bit.contains(
        (current.key, field_sub(current.depth, 1), current.direction),
    )
    &&& on_trie ==> current.depth == field_add(previous.depth, 1)
    &&& on_trie && current.path_kind == PathKind::Common ==> relations.key_bit.contains(
        (current.other_key, field_sub(current.depth, 1), current.direction),
    )
    &&& !on_trie ==> current.key == 0 && current.depth == 0
    &&& relations.byte_range.contains((current.upper_address_bits, 15))
    &&& current.old_hash_is_zero == (current.old_hash == 0)
    &&& current.new_hash_is_zero == (current.new_hash == 0)
    &&& current.key_equals_other_key == (field_sub(current.key, current.other_key) == 0)
}

/// The rules of a row on which both paths run. Both sides hash up to the row
/// before. Before a leaf block on which one side is frozen, that side is
/// empty.
pub open spec fn common_rules(
    previous: RowView,
    current: RowView,
    next: RowView,
    relations: Relations,
) -> bool {
    &&& hashes_up(
        relations,
        current.direction,
        current.old_hash,
        current.sibling,
        previous.old_hash,
    )
    &&& hashes_up(
        relations,
        current.direction,
        current.new_hash,
        current.sibling,
        previous.new_hash,
    )
    &&& next.path_kind == PathKind::ExtensionNew && next.segment_kind == SegmentKind::AccountLeaf0
        ==> current.old_hash == 0
    &&& next.path_kind == PathKind::ExtensionOld && next.segment_kind == SegmentKind::AccountLeaf0
        ==> current.new_hash == 0
}

/// The rules of a row on which only the old path goes on. The new hash stays
/// what it was and the old side hashes up to the row before. On a trie row
/// the sibling is zero, but on the last trie row it is the hash of the leaf
/// that was moved, which is the frozen hash.
pub open spec fn extension_old_rules(
    previous: RowView,
    current: RowView,
    next: RowView,
    relations: Relations,
) -> bool {
    let on_trie = current.segment_kind.spec_is_trie();
    let trie_goes_on = next.segment_kind.spec_is_trie();
    &&& on_trie && trie_goes_on ==> current.sibling == 0
    &&& on_trie && !trie_goes_on ==> current.sibling == current.new_hash
    &&& current.new_hash == previous.new_hash
    &&& hashes_up(
        relations,
        current.direction,
        current.old_hash,
        current.sibling,
        previous.old_hash,
    )
}

/// The rules of a row on which only the new path goes on: those of a row on
/// which only the old path goes on, with the sides changed. Besides, the old
/// value is zero, and on the first row of the leaf block the other leaf is
/// shown: the hash of its key is that of one and its key; if the old hash is
/// not zero, the old hash before is that of the other leaf's data and key
/// hash; if the key is not the other key, the old value is zero.
pub open spec fn extension_new_rules(
    previous: RowView,
    current: RowView,
    next: RowView,
    relations: Relations,
) -> bool {
    let on_trie = current.segment_kind.spec_is_trie();
    let trie_goes_on = next.segment_kind.spec_is_trie();
    let on_first_leaf = current.segment_kind == SegmentKind::AccountLeaf0;
    &&& current.old_value == 0
    &&& on_trie && trie_goes_on ==> current.sibling == 0
    &&& on_trie && !trie_goes_on ==> current.sibling == current.old_hash
    &&& current.old_hash == previous.old_hash
    &&& hashes_up(
        relations,
        current.direction,
        current.new_hash,
        current.sibling,
        previous.new_hash,
    )
    &&& on_first_leaf ==> relations.hash.contains(
        (1, current.other_key, current.other_key_hash),
    )
    &&& on_first_leaf && !current.old_hash_is_zero ==> relations.hash.contains(
        (current.other_leaf_data_hash, current.other_key_hash, previous.old_hash),
    )
    &&& on_first_leaf && !current.key_equals_other_key ==> current.old_value == 0
}

/// The rules of the path kind of a row.
pub open spec fn path_rules(
    previous: RowView,
    current: RowView,
    next: RowView,
    relations: Relations,
) -> bool {
    match current.path_kind {
        PathKind::Start => true,
        PathKind::Common => common_rules(previous, current, next, relations),
        PathKind::ExtensionOld => extension_old_rules(previous, current, next, relations),
        PathKind::ExtensionNew => extension_new_rules(previous, current, next, relations),
    }
}

/// The rules of the first row of an account's leaf block. The path turns
/// right. The key on the row before is the hash of the two halves of the
/// address, and the sibling is the hash of one and that key.
pub open spec fn first_leaf_rules(previous: RowView, current: RowView, relations: Relations) -> bool {
    &&& current.direction == 1
    &&& relations.hash.contains(
        (
            current.upper_address_bits,
            low_bits_shifted(current.address, current.upper_address_bits),
            previous.key,
        ),
    )
    &&& relations.hash.contains((1, previous.key, current.sibling))
}

/// The rules of the row that holds the nonce. The path turns left. The hash
/// of a side that is there packs its code size above its nonce, and both fit
/// in 8 bytes. Where both sides are there, their code sizes are equal. The
/// code size of a side that is frozen is zero.
pub open spec fn nonce_leaf_rules(current: RowView, relations: Relations) -> bool {
    let old_code_size = code_size(current.old_hash, current.old_value);
    let new_code_size = code_size(current.new_hash, current.new_value);
    &&& current.direction == 0
    &&& current.path_kind == PathKind::Common ==> {
        &&& relations.byte_range.contains((current.old_value, 7))
        &&& relations.byte_range.contains((current.new_value, 7))
        &&& old_code_size == new_code_size
        &&& relations.byte_range.contains((old_code_size, 7))
    }
    &&& current.path_kind == PathKind::ExtensionNew ==> {
        &&& relations.byte_range.contains((current.new_value, 7))
        &&& relations.byte_range.contains((new_code_size, 7))
        &&& old_code_size == 0
    }
    &&& current.path_kind == PathKind::ExtensionOld ==> {
        &&& relations.byte_range.contains((current.old_value, 7))
        &&& relations.byte_range.contains((old_code_size, 7))
        &&& new_code_size == 0
    }
}

/// The rules of the rows of a claim that a nonce changed. The row after the
/// one that holds the nonce closes the leaf block and turns left. Such a claim
/// ends with the account's leaf: no row of it lies in the storage trie.
pub open spec fn nonce_rules(previous: RowView, current: RowView, relations: Relations) -> bool {
    match current.segment_kind {
        SegmentKind::Start => true,
        SegmentKind::AccountTrie => true,
        SegmentKind::AccountLeaf0 => first_leaf_rules(previous, current, relations),
        SegmentKind::AccountLeaf1 => current.direction == 0,
        SegmentKind::AccountLeaf2 => current.direction == 0,
        SegmentKind::AccountLeaf3 => nonce_leaf_rules(current, relations),
        SegmentKind::AccountLeaf4 => current.direction == 0,
        _ => false,
    }
}

/// The rules of the row that holds the balance. The path turns right. The
/// hash of a side that is there is its value as it stands.
pub open spec fn balance_leaf_rules(current: RowView) -> bool {
    &&& current.direction == 1
    &&& current.path_kind.spec_old_is_active() ==> current.old_value == current.old_hash
    &&& current.path_kind.spec_new_is_active() ==> current.new_value == current.new_hash
}

/// The rules of the rows of a claim that a balance changed. The row after the
/// one that holds the balance closes the leaf block and turns left. Such a
/// claim ends with the account's leaf: no row of it lies in the storage trie.
pub open spec fn balance_rules(previous: RowView, current: RowView, relations: Relations) -> bool {
    match current.segment_kind {
        SegmentKind::Start => true,
        SegmentKind::AccountTrie => true,
        SegmentKind::AccountLeaf0 => first_leaf_rules(previous, current, relations),
        SegmentKind::AccountLeaf1 => current.direction == 0,
        SegmentKind::AccountLeaf2 => current.direction == 0,
        SegmentKind::AccountLeaf3 => balance_leaf_rules(current),
        SegmentKind::AccountLeaf4 => current.direction == 0,
        _ => false,
    }
}

/// The rules that a kind of claim puts on the rows of claims of that kind.
pub open spec fn claim_rules(
    kind: ProofKind,
    previous: RowView,
    current: RowView,
    relations: Relations,
) -> bool {
    current.proof_kind == kind ==> match kind {
        ProofKind::NonceChanged => nonce_rules(previous, current, relations),
        ProofKind::BalanceChanged => balance_rules(previous, current, relations),
        _ => true,
    }
}

/// All the rules for claims of the given kinds.
pub open spec fn row_rules(
    kinds: Seq<ProofKind>,
    previous: RowView,
    current: RowView,
    next: RowView,
    relations: Relations,
) -> bool {
    &&& state_rules(previous, current)
    &&& base_rules(previous, current, relations)
    &&& path_rules(previous, current, next, relations)
    &&& forall|k: int|
        0 <= k < kinds.len() ==> claim_rules(#[trigger] kinds[k], previous, current, relations)
}

} // verus!
