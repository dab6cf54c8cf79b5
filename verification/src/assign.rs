//! The row assigner: from a claim and its authentication path to the rows of
//! the table.
//!
//! A claim becomes one start row, one trie row for each step of its path,
//! walked from the root down, and, unless the path ends in an empty slot on
//! both sides, a block of five leaf rows. The walk checks every step against
//! the hash relation, so rows are only given for a path that leads from the
//! claimed roots to its end.

use crate::claim::{
    account_key, address_high, address_to_fr, hash_address, hashes_to, AuthenticationStep,
    HashTable, Proof,
};
use crate::field::Fe;
use crate::kinds::{PathKind, ProofKind, SegmentKind};
use crate::laws::{lemma_roots_from_path, new_hash_from_end, old_hash_from_end};
use crate::row::{table_view, Row, RowView};
use vstd::prelude::*;

verus! {

/// Why a claim was given no rows.
#[derive(Clone, Copy, Debug, PartialEq, Eq, Structural)]
pub enum AssignError {
    /// The hash relation has no line for the two halves of the address, so
    /// the account's key is not known.
    MissingAccountKey,
    /// Neither the old nor the new leaf has the account's key.
    InconsistentKeys,
    /// The leaf that stands in the account's place has no data hash.
    MissingLeafDataHash,
    /// A step says that both sides have ended above it.
    BothSidesEnded { depth: usize },
    /// A step changes the hash of the side that has ended.
    FrozenHashChanged { depth: usize },
    /// The hash relation does not lead from a step's hash and sibling to the
    /// hash above it.
    HashMismatch { depth: usize },
    /// The claim asks for a leaf block of a kind that is not implemented.
    UnsupportedClaimKind,
}

/// A claim that was given no rows, and why.
#[derive(Clone, Copy, Debug, PartialEq, Eq, Structural)]
pub struct ClaimError {
    /// The place of the claim in the batch.
    pub claim: usize,
    pub error: AssignError,
}

/// The leaf against which a claim is told apart from its neighbours: its key,
/// the hash of its key and the hash of its data.
#[derive(Clone, Copy, Debug)]
pub struct OtherLeaf {
    pub key: Fe,
    pub key_hash: Fe,
    pub data_hash: Fe,
}

impl View for OtherLeaf {
    type V = (nat, nat, nat);

    open spec fn view(&self) -> (nat, nat, nat) {
        (self.key@, self.key_hash@, self.data_hash@)
    }
}

/// The hash, if any, or zero.
pub open spec fn or_zero(hash: Option<Fe>) -> nat {
    match hash {
        Some(h) => h@,
        None => 0,
    }
}

/// The other leaf of a claim on the account with the given key. Where the old
/// leaf has another key, it is the old leaf; else where the new leaf has
/// another key, it is the new leaf; else it has the old leaf's key and the new
/// leaf's data.
pub open spec fn other_leaf(p: Proof, key: nat) -> Result<(nat, nat, nat), AssignError> {
    if p.old.key@ != key {
        if p.new.key@ != key {
            Err(AssignError::InconsistentKeys)
        } else {
            match p.old.leaf_data_hash {
                Some(h) => Ok((p.old.key@, p.old.key_hash@, h@)),
                None => Err(AssignError::MissingLeafDataHash),
            }
        }
    } else if p.new.key@ != key {
        match p.new.leaf_data_hash {
            Some(h) => Ok((p.new.key@, p.new.key_hash@, h@)),
            None => Err(AssignError::MissingLeafDataHash),
        }
    } else {
        Ok((p.old.key@, p.old.key_hash@, or_zero(p.new.leaf_data_hash)))
    }
}

/// The child to the left under a node: the sibling where the path turns
/// right, the path's own hash where it turns left.
pub open spec fn left_child(direction: bool, hash: nat, sibling: nat) -> nat {
    if direction {
        sibling
    } else {
        hash
    }
}

/// The child to the right under a node.
pub open spec fn right_child(direction: bool, hash: nat, sibling: nat) -> nat {
    if direction {
        hash
    } else {
        sibling
    }
}

/// The step that the walk takes at `index`, counted from the root.
pub open spec fn step_at(p: Proof, index: int) -> AuthenticationStep {
    p.steps@[p.steps@.len() - 1 - index]
}

/// The old hash above the step at `index`: the old root above the first step,
/// the old hash of the step before above any other.
pub open spec fn old_hash_above(p: Proof, index: int) -> nat {
    if index <= 0 {
        p.claim.old_root@
    } else {
        step_at(p, index - 1).old_hash@
    }
}

/// The new hash above the step at `index`.
pub open spec fn new_hash_above(p: Proof, index: int) -> nat {
    if index <= 0 {
        p.claim.new_root@
    } else {
        step_at(p, index - 1).new_hash@
    }
}

/// Whether the relation leads from the old hash and the sibling of the step at
/// `index` to the old hash above it.
pub open spec fn old_side_hashes(p: Proof, relation: Seq<(nat, nat, nat)>, index: int) -> bool {
    let s = step_at(p, index);
    hashes_to(
        relation,
        left_child(s.direction, s.old_hash@, s.sibling@),
        right_child(s.direction, s.old_hash@, s.sibling@),
        old_hash_above(p, index),
    )
}

/// Whether the relation leads from the new hash and the sibling of the step at
/// `index` to the new hash above it.
pub open spec fn new_side_hashes(p: Proof, relation: Seq<(nat, nat, nat)>, index: int) -> bool {
    let s = step_at(p, index);
    hashes_to(
        relation,
        left_child(s.direction, s.new_hash@, s.sibling@),
        right_child(s.direction, s.new_hash@, s.sibling@),
        new_hash_above(p, index),
    )
}

/// What is wrong with the step at `index`, if anything. A side that goes on is
/// hashed; a side that has ended keeps the hash above it.
pub open spec fn step_error(p: Proof, relation: Seq<(nat, nat, nat)>, index: int) -> Option<
    AssignError,
> {
    let s = step_at(p, index);
    let depth = (index + 1) as usize;
    match s.spec_path_kind() {
        None => Some(AssignError::BothSidesEnded { depth }),
        Some(PathKind::ExtensionOld) => {
            if s.new_hash@ != new_hash_above(p, index) {
                Some(AssignError::FrozenHashChanged { depth })
            } else if !old_side_hashes(p, relation, index) {
                Some(AssignError::HashMismatch { depth })
            } else {
                None
            }
        },
        Some(PathKind::ExtensionNew) => {
            if s.old_hash@ != old_hash_above(p, index) {
                Some(AssignError::FrozenHashChanged { depth })
            } else if !new_side_hashes(p, relation, index) {
                Some(AssignError::HashMismatch { depth })
            } else {
                None
            }
        },
        Some(_) => {
            if !old_side_hashes(p, relation, index) || !new_side_hashes(p, relation, index) {
                Some(AssignError::HashMismatch { depth })
            } else {
                None
            }
        },
    }
}

/// What is wrong with the first step at or after `from` that has something
/// wrong with it.
pub open spec fn walk_error(p: Proof, relation: Seq<(nat, nat, nat)>, from: int) -> Option<
    AssignError,
>
    decreases p.steps@.len() - from,
{
    if from >= p.steps@.len() || from < 0 {
        None
    } else {
        match step_error(p, relation, from) {
            Some(e) => Some(e),
            None => walk_error(p, relation, from + 1),
        }
    }
}

/// The path kind of the leaf block, or `None` where the claim has none: an
/// empty trie has no leaf, and a path that ends in an empty slot on both sides
/// has none. A walk that ends with one side frozen keeps its kind. A walk that
/// ends on a common row has the kind of the side that is not empty.
pub open spec fn leaf_path(p: Proof) -> Option<PathKind> {
    if p.steps@.len() == 0 {
        None
    } else {
        let last = p.steps@[0];
        match last.spec_path_kind() {
            Some(PathKind::Common) => {
                if last.old_hash@ == 0 && last.new_hash@ == 0 {
                    None
                } else if last.old_hash@ == 0 {
                    Some(PathKind::ExtensionNew)
                } else if last.new_hash@ == 0 {
                    Some(PathKind::ExtensionOld)
                } else {
                    Some(PathKind::Common)
                }
            },
            other => other,
        }
    }
}

/// The direction on row `index` of the leaf block of a claim of the given
/// kind. The first row turns right. The row that holds the value, the fourth,
/// turns left for a nonce and right for a balance. The other rows, the last
/// among them, turn left.
pub open spec fn leaf_direction(kind: ProofKind, index: int) -> bool {
    index == 0 || (index == 3 && kind == ProofKind::BalanceChanged)
}

/// The segment kind of row `index` of the leaf block.
pub open spec fn leaf_segment(index: int) -> SegmentKind {
    if index == 0 {
        SegmentKind::AccountLeaf0
    } else if index == 1 {
        SegmentKind::AccountLeaf1
    } else if index == 2 {
        SegmentKind::AccountLeaf2
    } else if index == 3 {
        SegmentKind::AccountLeaf3
    } else {
        SegmentKind::AccountLeaf4
    }
}

/// Why the claim gets no rows, if it gets none: the first thing found wrong,
/// in the order in which the rows are made.
pub open spec fn claim_error(p: Proof, relation: Seq<(nat, nat, nat)>) -> Option<AssignError> {
    match account_key(relation, p.claim.address) {
        None => Some(AssignError::MissingAccountKey),
        Some(key) => match other_leaf(p, key) {
            Err(e) => Some(e),
            Ok(_) => match walk_error(p, relation, 0) {
                Some(e) => Some(e),
                None => if leaf_path(p) is Some && !p.claim.proof_kind.spec_is_implemented() {
                    Some(AssignError::UnsupportedClaimKind)
                } else {
                    None
                },
            },
        },
    }
}

/// A row of a claim: what the claim says stands on every row of it, the rest
/// is the row's own. The indicators follow from the cells.
pub open spec fn claim_row(
    p: Proof,
    other: (nat, nat, nat),
    segment_kind: SegmentKind,
    path_kind: PathKind,
    depth: nat,
    key: nat,
    direction: bool,
    sibling: nat,
    old_hash: nat,
    new_hash: nat,
    upper_address_bits: nat,
) -> RowView {
    RowView {
        proof_kind: p.claim.proof_kind,
        segment_kind,
        path_kind,
        old_hash,
        new_hash,
        old_value: p.claim.old_value@,
        new_value: p.claim.new_value@,
        address: p.claim.address@,
        storage_key: or_zero(p.claim.storage_key),
        depth,
        key,
        other_key: other.0,
        other_key_hash: other.1,
        other_leaf_data_hash: other.2,
        direction: if direction {
            1
        } else {
            0
        },
        sibling,
        upper_address_bits,
        old_hash_is_zero: old_hash == 0,
        new_hash_is_zero: new_hash == 0,
        key_equals_other_key: key == other.0,
    }
}

/// The row that opens a claim: it holds the two roots.
pub open spec fn start_row(p: Proof, other: (nat, nat, nat)) -> RowView {
    claim_row(
        p,
        other,
        SegmentKind::Start,
        PathKind::Start,
        0,
        0,
        false,
        0,
        p.claim.old_root@,
        p.claim.new_root@,
        0,
    )
}

/// The row of the step at `index`, counted from the root: its depth is one
/// more than its index.
pub open spec fn trie_row(p: Proof, key: nat, other: (nat, nat, nat), index: int) -> RowView {
    let s = step_at(p, index);
    claim_row(
        p,
        other,
        SegmentKind::AccountTrie,
        s.spec_path_kind().unwrap(),
        (index + 1) as nat,
        key,
        s.direction,
        s.sibling@,
        s.old_hash@,
        s.new_hash@,
        0,
    )
}

/// The hash on row `index` of the leaf block for a side: that of the
/// account's record where the side has one, else the hash in which the side's
/// path ends.
pub open spec fn leaf_hash(hashes: Option<[Fe; 5]>, end: Fe, index: int) -> nat {
    match hashes {
        Some(h) => h@[index]@,
        None => end@,
    }
}

/// Row `index` of the leaf block. Its sibling and its hashes are those that
/// the witness gives for the row, the last row as any other; a side without
/// hashes of its own keeps the hash in which its path ends. Its direction goes
/// by the kind of claim. Key and depth are zero. Only the first row holds the
/// upper bits of the address.
pub open spec fn leaf_row(p: Proof, other: (nat, nat, nat), path_kind: PathKind, index: int) -> RowView {
    claim_row(
        p,
        other,
        leaf_segment(index),
        path_kind,
        0,
        0,
        leaf_direction(p.claim.proof_kind, index),
        p.leaf_siblings@[index]@,
        leaf_hash(p.old_leaf_hashes, p.steps@[0].old_hash, index),
        leaf_hash(p.new_leaf_hashes, p.steps@[0].new_hash, index),
        if index == 0 {
            p.claim.address.high()
        } else {
            0
        },
    )
}

/// The leaf block of a claim: five rows, from the first to the last of the
/// account's leaf segments, or none.
pub open spec fn leaf_rows(p: Proof, other: (nat, nat, nat)) -> Seq<RowView> {
    match leaf_path(p) {
        Some(path_kind) => Seq::new(5, |i: int| leaf_row(p, other, path_kind, i)),
        None => Seq::empty(),
    }
}

/// The rows of a claim on the account with the given key: the start row, the
/// trie rows from the root down, the leaf block.
pub open spec fn rows_of(p: Proof, key: nat, other: (nat, nat, nat)) -> Seq<RowView> {
    seq![start_row(p, other)] + Seq::new(p.steps@.len(), |i: int| trie_row(p, key, other, i))
        + leaf_rows(p, other)
}

/// The rows of a claim that has nothing wrong with it.
pub open spec fn claim_rows(p: Proof, relation: Seq<(nat, nat, nat)>) -> Seq<RowView> {
    let key = account_key(relation, p.claim.address).unwrap();
    rows_of(p, key, other_leaf(p, key).unwrap())
}

/// The number of rows of a claim that has nothing wrong with it.
pub open spec fn claim_len(p: Proof) -> nat {
    1 + p.steps@.len() + if leaf_path(p) is Some {
        5nat
    } else {
        0nat
    }
}

/// The rows of a batch: those of its claims, one claim after the other.
pub open spec fn batch_rows(proofs: Seq<Proof>, relation: Seq<(nat, nat, nat)>) -> Seq<RowView>
    decreases proofs.len(),
{
    if proofs.len() == 0 {
        Seq::empty()
    } else {
        batch_rows(proofs.drop_last(), relation) + claim_rows(proofs.last(), relation)
    }
}

/// Finds the other leaf of a claim on the account with the given key.
pub fn find_other_leaf(proof: &Proof, key: &Fe) -> (r: Result<OtherLeaf, AssignError>)
    ensures
        match r {
            Ok(other) => other_leaf(*proof, key@) == Ok::<(nat, nat, nat), AssignError>(other@),
            Err(e) => other_leaf(*proof, key@) == Err::<(nat, nat, nat), AssignError>(e),
        },
{
    if !proof.old.key.equals(key) {
        if !proof.new.key.equals(key) {
            return Err(AssignError::InconsistentKeys);
        }
        match proof.old.leaf_data_hash {
            Some(h) => Ok(OtherLeaf { key: proof.old.key, key_hash: proof.old.key_hash, data_hash: h }),
            None => Err(AssignError::MissingLeafDataHash),
        }
    } else if !proof.new.key.equals(key) {
        match proof.new.leaf_data_hash {
            Some(h) => Ok(OtherLeaf { key: proof.new.key, key_hash: proof.new.key_hash, data_hash: h }),
            None => Err(AssignError::MissingLeafDataHash),
        }
    } else {
        let data_hash = match proof.new.leaf_data_hash {
            Some(h) => h,
            None => Fe::zero(),
        };
        Ok(OtherLeaf { key: proof.old.key, key_hash: proof.old.key_hash, data_hash })
    }
}

/// Whether the relation leads from a hash and its sibling, put left and right
/// as the direction says, to the hash above.
pub fn hashes_up(hashes: &HashTable, direction: bool, hash: &Fe, sibling: &Fe, above: &Fe) -> (r:
    bool)
    ensures
        r == hashes_to(
            hashes@,
            left_child(direction, hash@, sibling@),
            right_child(direction, hash@, sibling@),
            above@,
        ),
{
    if direction {
        hashes.contains(sibling, hash, above)
    } else {
        hashes.contains(hash, sibling, above)
    }
}

/// Checks the step at `index` of the walk against the hashes above it and
/// gives the path kind of its row.
pub fn check_step(proof: &Proof, hashes: &HashTable, index: usize) -> (r: Result<
    PathKind,
    AssignError,
>)
    requires
        index < proof.steps@.len(),
    ensures
        match r {
            Ok(path_kind) => step_error(*proof, hashes@, index as int) is None && step_at(
                *proof,
                index as int,
            ).spec_path_kind() == Some(path_kind),
            Err(e) => step_error(*proof, hashes@, index as int) == Some(e),
        },
{
    let n = proof.steps.len();
    let step = &proof.steps[n - 1 - index];
    let old_above = if index == 0 {
        proof.claim.old_root
    } else {
        proof.steps[n - index].old_hash
    };
    let new_above = if index == 0 {
        proof.claim.new_root
    } else {
        proof.steps[n - index].new_hash
    };
    let depth = index + 1;
    match step.path_kind() {
        None => Err(AssignError::BothSidesEnded { depth }),
        Some(PathKind::ExtensionOld) => {
            if !step.new_hash.equals(&new_above) {
                Err(AssignError::FrozenHashChanged { depth })
            } else if !hashes_up(hashes, step.direction, &step.old_hash, &step.sibling, &old_above) {
                Err(AssignError::HashMismatch { depth })
            } else {
                Ok(PathKind::ExtensionOld)
            }
        },
        Some(PathKind::ExtensionNew) => {
            if !step.old_hash.equals(&old_above) {
                Err(AssignError::FrozenHashChanged { depth })
            } else if !hashes_up(hashes, step.direction, &step.new_hash, &step.sibling, &new_above) {
                Err(AssignError::HashMismatch { depth })
            } else {
                Ok(PathKind::ExtensionNew)
            }
        },
        Some(path_kind) => {
            if !hashes_up(hashes, step.direction, &step.old_hash, &step.sibling, &old_above)
                || !hashes_up(hashes, step.direction, &step.new_hash, &step.sibling, &new_above) {
                Err(AssignError::HashMismatch { depth })
            } else {
                Ok(path_kind)
            }
        },
    }
}

/// The path kind of the leaf block of a claim, if it has one.
pub fn find_leaf_path(proof: &Proof) -> (r: Option<PathKind>)
    ensures
        r == leaf_path(*proof),
{
    if proof.steps.len() == 0 {
        return None;
    }
    let last = &proof.steps[0];
    match last.path_kind() {
        Some(PathKind::Common) => {
            let old_is_empty = last.old_hash.is_zero();
            let new_is_empty = last.new_hash.is_zero();
            if old_is_empty && new_is_empty {
                None
            } else if old_is_empty {
                Some(PathKind::ExtensionNew)
            } else if new_is_empty {
                Some(PathKind::ExtensionOld)
            } else {
                Some(PathKind::Common)
            }
        },
        other => other,
    }
}

impl Proof {
    /// The number of rows that the claim is given if nothing is wrong with
    /// it: it depends on the path alone, so the place of each claim of a batch
    /// in the table is known before any row is made.
    pub fn n_rows(&self) -> (r: usize)
        requires
            self.steps@.len() + 6 <= usize::MAX,
        ensures
            r == claim_len(*self),
    {
        let leaf_block: usize = match find_leaf_path(self) {
            Some(_) => 5,
            None => 0,
        };
        1 + self.steps.len() + leaf_block
    }
}

/// Makes a row of a claim.
fn make_row(
    proof: &Proof,
    other: &OtherLeaf,
    segment_kind: SegmentKind,
    path_kind: PathKind,
    depth: Fe,
    key: Fe,
    direction: bool,
    sibling: Fe,
    old_hash: Fe,
    new_hash: Fe,
    upper_address_bits: Fe,
) -> (r: Row)
    ensures
        r@ == claim_row(
            *proof,
            other@,
            segment_kind,
            path_kind,
            depth@,
            key@,
            direction,
            sibling@,
            old_hash@,
            new_hash@,
            upper_address_bits@,
        ),
{
    Row {
        proof_kind: proof.claim.proof_kind,
        segment_kind,
        path_kind,
        old_hash,
        new_hash,
        old_value: proof.claim.old_value,
        new_value: proof.claim.new_value,
        address: address_to_fr(&proof.claim.address),
        storage_key: match proof.claim.storage_key {
            Some(k) => k,
            None => Fe::zero(),
        },
        depth,
        key,
        other_key: other.key,
        other_key_hash: other.key_hash,
        other_leaf_data_hash: other.data_hash,
        direction: Fe::from_bool(direction),
        sibling,
        upper_address_bits,
        old_hash_is_zero: old_hash.is_zero(),
        new_hash_is_zero: new_hash.is_zero(),
        key_equals_other_key: key.equals(&other.key),
    }
}

/// Appends the leaf block of a claim to its rows.
fn push_leaf_rows(rows: &mut Vec<Row>, proof: &Proof, other: &OtherLeaf, path_kind: PathKind)
    requires
        leaf_path(*proof) == Some(path_kind),
    ensures
        table_view(final(rows)@) == table_view(old(rows)@) + leaf_rows(*proof, other@),
{
    let end = &proof.steps[0];
    let balance = match proof.claim.proof_kind {
        ProofKind::BalanceChanged => true,
        _ => false,
    };
    let mut i: usize = 0;
    while i < 5
        invariant
            i <= 5,
            proof.steps@.len() > 0,
            *end == proof.steps@[0],
            balance == (proof.claim.proof_kind == ProofKind::BalanceChanged),
            table_view(rows@) == table_view(old(rows)@) + Seq::new(
                i as nat,
                |k: int| leaf_row(*proof, other@, path_kind, k),
            ),
        decreases 5 - i,
    {
        let segment_kind = if i == 0 {
            SegmentKind::AccountLeaf0
        } else if i == 1 {
            SegmentKind::AccountLeaf1
        } else if i == 2 {
            SegmentKind::AccountLeaf2
        } else if i == 3 {
            SegmentKind::AccountLeaf3
        } else {
            SegmentKind::AccountLeaf4
        };
        let old_hash = match &proof.old_leaf_hashes {
            Some(h) => h[i],
            None => end.old_hash,
        };
        let new_hash = match &proof.new_leaf_hashes {
            Some(h) => h[i],
            None => end.new_hash,
        };
        let upper = if i == 0 {
            Fe::from_u128(address_high(&proof.claim.address))
        } else {
            Fe::zero()
        };
        let row = make_row(
            proof,
            other,
            segment_kind,
            path_kind,
            Fe::zero(),
            Fe::zero(),
            i == 0 || (i == 3 && balance),
            proof.leaf_siblings[i],
            old_hash,
            new_hash,
            upper,
        );
        let ghost before = rows@;
        rows.push(row);
        proof {
            assert(row@ == leaf_row(*proof, other@, path_kind, i as int));
            assert(table_view(rows@) =~= table_view(before).push(row@));
            assert(table_view(rows@) =~= table_view(old(rows)@) + Seq::new(
                (i + 1) as nat,
                |k: int| leaf_row(*proof, other@, path_kind, k),
            ));
        }
        i += 1;
    }
}

/// The rows of one claim, or the first thing wrong with it. A claim is given
/// rows only if hashing upward along its path, from the end of each side,
/// gives the roots that it claims.
pub fn assign_claim(proof: &Proof, hashes: &HashTable) -> (r: Result<Vec<Row>, AssignError>)
    ensures
        match r {
            Ok(rows) => {
                &&& claim_error(*proof, hashes@) is None
                &&& table_view(rows@) == claim_rows(*proof, hashes@)
                &&& rows@.len() == claim_len(*proof)
                &&& old_hash_from_end(*proof, hashes@, proof.steps@.len()) == Some(
                    proof.claim.old_root@,
                )
                &&& new_hash_from_end(*proof, hashes@, proof.steps@.len()) == Some(
                    proof.claim.new_root@,
                )
            },
            Err(e) => claim_error(*proof, hashes@) == Some(e),
        },
{
    let key = match hash_address(&proof.claim.address, hashes) {
        Some(key) => key,
        None => { return Err(AssignError::MissingAccountKey); },
    };
    let other = match find_other_leaf(proof, &key) {
        Ok(other) => other,
        Err(e) => { return Err(e); },
    };
    let mut rows: Vec<Row> = Vec::new();
    rows.push(
        make_row(
            proof,
            &other,
            SegmentKind::Start,
            PathKind::Start,
            Fe::zero(),
            Fe::zero(),
            false,
            Fe::zero(),
            proof.claim.old_root,
            proof.claim.new_root,
            Fe::zero(),
        ),
    );
    let n = proof.steps.len();
    let mut index: usize = 0;
    assert(table_view(rows@) =~= seq![start_row(*proof, other@)] + Seq::new(
        0,
        |i: int| trie_row(*proof, key@, other@, i),
    ));
    while index < n
        invariant
            index <= n,
            n == proof.steps@.len(),
            account_key(hashes@, proof.claim.address) == Some(key@),
            other_leaf(*proof, key@) == Ok::<(nat, nat, nat), AssignError>(other@),
            walk_error(*proof, hashes@, 0) == walk_error(*proof, hashes@, index as int),
            table_view(rows@) == seq![start_row(*proof, other@)] + Seq::new(
                index as nat,
                |i: int| trie_row(*proof, key@, other@, i),
            ),
        decreases n - index,
    {
        let path_kind = match check_step(proof, hashes, index) {
            Ok(path_kind) => path_kind,
            Err(e) => {
                assert(walk_error(*proof, hashes@, index as int) == Some(e));
                return Err(e);
            },
        };
        let step = &proof.steps[n - 1 - index];
        let row = make_row(
            proof,
            &other,
            SegmentKind::AccountTrie,
            path_kind,
            Fe::from_u64((index + 1) as u64),
            key,
            step.direction,
            step.sibling,
            step.old_hash,
            step.new_hash,
            Fe::zero(),
        );
        let ghost before = rows@;
        rows.push(row);
        proof {
            assert(row@ == trie_row(*proof, key@, other@, index as int));
            assert(table_view(rows@) =~= table_view(before).push(row@));
            assert(table_view(rows@) =~= seq![start_row(*proof, other@)] + Seq::new(
                (index + 1) as nat,
                |i: int| trie_row(*proof, key@, other@, i),
            ));
        }
        index += 1;
    }
    match find_leaf_path(proof) {
        None => {},
        Some(path_kind) => {
            if !proof.claim.proof_kind.is_implemented() {
                return Err(AssignError::UnsupportedClaimKind);
            }
            push_leaf_rows(&mut rows, proof, &other, path_kind);
        },
    }
    proof {
        use_type_invariant(hashes);
        lemma_roots_from_path(*proof, hashes@);
        assert(table_view(rows@).len() == rows@.len());
        assert(claim_rows(*proof, hashes@).len() == claim_len(*proof));
    }
    Ok(rows)
}

/// The view of rows put one after the other is their views put one after the
/// other.
pub proof fn lemma_table_view_concat(a: Seq<Row>, b: Seq<Row>)
    ensures
        table_view(a + b) == table_view(a) + table_view(b),
{
    assert(table_view(a + b) =~= table_view(a) + table_view(b));
}

/// The rows of a batch of claims: the rows of each claim, one claim after the
/// other, or the first claim that has something wrong with it, and the first
/// thing wrong with it.
pub fn assign(proofs: &[Proof], hashes: &HashTable) -> (r: Result<Vec<Row>, ClaimError>)
    ensures
        match r {
            Ok(rows) => {
                &&& forall|k: int|
                    0 <= k < proofs@.len() ==> claim_error(#[trigger] proofs@[k], hashes@) is None
                &&& table_view(rows@) == batch_rows(proofs@, hashes@)
            },
            Err(e) => {
                &&& e.claim < proofs@.len()
                &&& claim_error(proofs@[e.claim as int], hashes@) == Some(e.error)
                &&& forall|k: int|
                    0 <= k < e.claim ==> claim_error(#[trigger] proofs@[k], hashes@) is None
            },
        },
{
    let mut rows: Vec<Row> = Vec::new();
    let mut claim: usize = 0;
    assert(table_view(rows@) =~= batch_rows(proofs@.take(0), hashes@));
    while claim < proofs.len()
        invariant
            claim <= proofs@.len(),
            forall|k: int| 0 <= k < claim ==> claim_error(#[trigger] proofs@[k], hashes@) is None,
            table_view(rows@) == batch_rows(proofs@.take(claim as int), hashes@),
        decreases proofs@.len() - claim,
    {
        let mut more = match assign_claim(&proofs[claim], hashes) {
            Ok(more) => more,
            Err(error) => { return Err(ClaimError { claim, error }); },
        };
        proof {
            let next = proofs@.take(claim + 1);
            assert(next.drop_last() =~= proofs@.take(claim as int));
            assert(next.last() == proofs@[claim as int]);
            lemma_table_view_concat(rows@, more@);
        }
        rows.append(&mut more);
        claim += 1;
    }
    assert(proofs@.take(claim as int) =~= proofs@);
    Ok(rows)
}

} // verus!
