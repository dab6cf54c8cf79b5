use mpt_update::assign::{assign, assign_claim, AssignError, ClaimError};
use mpt_update::check::Violation;
use mpt_update::claim::{
    address_high, address_low, Address, AuthenticationStep, HashTable, LeafWitness, Proof,
    UpdateClaim,
};
use mpt_update::config::MptUpdateConfig;
use mpt_update::constraint::{ByteRange, KeyBit, LookupTables};
use mpt_update::field::Fe;
use mpt_update::kinds::{PathKind, ProofKind, SegmentKind};
use mpt_update::row::Row;

fn fe(x: u64) -> Fe {
    Fe::from_u64(x)
}

/// A stand-in for the hash: any function of two elements will do, since the
/// library only ever asks the relation.
fn mix(left: &Fe, right: &Fe) -> Fe {
    left.mul(&fe(31)).add(&right.mul(&fe(17))).add(&fe(5))
}

/// Adds the line for a pair to the relation and gives its hash.
fn hash(tables: &mut LookupTables, left: Fe, right: Fe) -> Fe {
    let h = mix(&left, &right);
    assert!(tables.hashes.insert(left, right, h));
    h
}

/// Hashes a node from the hash below and its sibling.
fn up(tables: &mut LookupTables, direction: bool, below: Fe, sibling: Fe) -> Fe {
    if direction {
        hash(tables, sibling, below)
    } else {
        hash(tables, below, sibling)
    }
}

fn address() -> Address {
    Address { bytes: [0x56; 20] }
}

fn empty_tables() -> LookupTables {
    LookupTables {
        hashes: HashTable::new(),
        key_bits: Vec::new(),
        byte_ranges: vec![ByteRange { value: Fe::zero(), last_byte: 15 }],
    }
}

/// What a scenario is made of.
struct Scenario {
    proof: Proof,
    tables: LookupTables,
    key: Fe,
}

/// The hashes of one side of an account's leaf block, row by row, and the
/// hash of the leaf itself. The fourth row holds the value; the row below it
/// closes the block.
fn account_side(
    tables: &mut LookupTables,
    key_hash: Fe,
    siblings: [Fe; 5],
    value: Fe,
    value_direction: bool,
) -> ([Fe; 5], Fe) {
    let closing = value.add(&fe(123456789));
    assert!(tables.hashes.insert(closing, siblings[4], value));
    let above_value = up(tables, value_direction, value, siblings[3]);
    let above_that = up(tables, false, above_value, siblings[2]);
    let account = up(tables, false, above_that, siblings[1]);
    let leaf = up(tables, true, account, key_hash);
    ([account, above_that, above_value, value, closing], leaf)
}

fn step(direction: bool, old_hash: Fe, new_hash: Fe, sibling: Fe) -> AuthenticationStep {
    AuthenticationStep {
        direction,
        old_hash,
        new_hash,
        sibling,
        is_padding_open: false,
        is_padding_close: false,
    }
}

/// The key of the account and the hash of the key, with their lines.
fn key_of_account(tables: &mut LookupTables) -> (Fe, Fe) {
    let high = Fe::from_u128(address_high(&address()));
    let low = Fe::from_u128(address_low(&address()));
    tables.byte_ranges.push(ByteRange { value: high, last_byte: 15 });
    let key = hash(tables, high, low);
    let key_hash = hash(tables, fe(1), key);
    (key, key_hash)
}

fn packed(code_size: u64, nonce: u64) -> Fe {
    Fe::from_u128(((code_size as u128) << 64) + nonce as u128)
}

/// What the row of the value holds for a claimed value: the code size above
/// the nonce, or the balance as it stands.
fn leaf_value(kind: ProofKind, code_size: u64, value: u64) -> Fe {
    if kind == ProofKind::NonceChanged {
        packed(code_size, value)
    } else {
        fe(value)
    }
}

/// The lines that say that the nonces and the code size of a claim fit in 8
/// bytes.
fn nonce_ranges(tables: &mut LookupTables, kind: ProofKind, values: &[u64]) {
    if kind == ProofKind::NonceChanged {
        for value in values {
            tables.byte_ranges.push(ByteRange { value: fe(*value), last_byte: 7 });
        }
    }
}

/// An account that exists before and after, two levels below the root: its
/// nonce or its balance goes from `old` to `new`.
fn existing_account(kind: ProofKind, code_size: u64, old: u64, new: u64) -> Scenario {
    let mut tables = empty_tables();
    let (key, key_hash) = key_of_account(&mut tables);
    let siblings = [key_hash, fe(3003), fe(2002), fe(1000), fe(4004)];
    let value_direction = kind == ProofKind::BalanceChanged;
    let (old_hashes, old_leaf) = account_side(
        &mut tables,
        key_hash,
        siblings,
        leaf_value(kind, code_size, old),
        value_direction,
    );
    let (new_hashes, new_leaf) = account_side(
        &mut tables,
        key_hash,
        siblings,
        leaf_value(kind, code_size, new),
        value_direction,
    );
    let old_1 = up(&mut tables, true, old_leaf, fe(77));
    let new_1 = up(&mut tables, true, new_leaf, fe(77));
    let old_root = up(&mut tables, false, old_1, fe(88));
    let new_root = up(&mut tables, false, new_1, fe(88));
    tables.key_bits.push(KeyBit { key, index: 0, bit: false });
    tables.key_bits.push(KeyBit { key, index: 1, bit: true });
    nonce_ranges(&mut tables, kind, &[old, new, code_size]);
    let proof = Proof {
        claim: UpdateClaim {
            proof_kind: kind,
            address: address(),
            storage_key: None,
            old_root,
            new_root,
            old_value: fe(old),
            new_value: fe(new),
        },
        steps: vec![step(true, old_leaf, new_leaf, fe(77)), step(false, old_1, new_1, fe(88))],
        old: LeafWitness { key, key_hash, leaf_data_hash: Some(old_hashes[0]) },
        new: LeafWitness { key, key_hash, leaf_data_hash: Some(new_hashes[0]) },
        old_leaf_hashes: Some(old_hashes),
        new_leaf_hashes: Some(new_hashes),
        leaf_siblings: siblings,
    };
    Scenario { proof, tables, key }
}

/// The nonce of an account with code size 3 goes from 5 to 6.
fn nonce_of_existing_account() -> Scenario {
    existing_account(ProofKind::NonceChanged, 3, 5, 6)
}

/// The balance of an account goes from 500 to 800.
fn balance_of_existing_account() -> Scenario {
    existing_account(ProofKind::BalanceChanged, 0, 500, 800)
}

/// A value is written to an account whose place in the trie was empty: the
/// paths run together to the end, where the old hash is zero.
fn empty_place(kind: ProofKind, new: u64) -> Scenario {
    let mut tables = empty_tables();
    let (key, key_hash) = key_of_account(&mut tables);
    let siblings = [key_hash, fe(3003), fe(2002), fe(0), fe(4004)];
    let (new_hashes, new_leaf) = account_side(
        &mut tables,
        key_hash,
        siblings,
        leaf_value(kind, 0, new),
        kind == ProofKind::BalanceChanged,
    );
    let old_1 = up(&mut tables, true, Fe::zero(), fe(77));
    let new_1 = up(&mut tables, true, new_leaf, fe(77));
    let old_root = up(&mut tables, false, old_1, fe(88));
    let new_root = up(&mut tables, false, new_1, fe(88));
    tables.key_bits.push(KeyBit { key, index: 0, bit: false });
    tables.key_bits.push(KeyBit { key, index: 1, bit: true });
    nonce_ranges(&mut tables, kind, &[new, 0]);
    let proof = Proof {
        claim: UpdateClaim {
            proof_kind: kind,
            address: address(),
            storage_key: None,
            old_root,
            new_root,
            old_value: fe(0),
            new_value: fe(new),
        },
        steps: vec![step(true, Fe::zero(), new_leaf, fe(77)), step(false, old_1, new_1, fe(88))],
        old: LeafWitness { key, key_hash, leaf_data_hash: None },
        new: LeafWitness { key, key_hash, leaf_data_hash: Some(new_hashes[0]) },
        old_leaf_hashes: None,
        new_leaf_hashes: Some(new_hashes),
        leaf_siblings: siblings,
    };
    Scenario { proof, tables, key }
}

/// The nonce 1 is written to an account whose place was empty.
fn nonce_in_empty_place() -> Scenario {
    empty_place(ProofKind::NonceChanged, 1)
}

/// A value is written to an account in whose place another leaf stood: the
/// paths part below depth 1, the new one goes on for two more levels.
fn place_of_other_leaf(kind: ProofKind, new: u64) -> (Scenario, Fe) {
    let mut tables = empty_tables();
    let (key, key_hash) = key_of_account(&mut tables);
    let other_key = fe(424242);
    let other_key_hash = hash(&mut tables, fe(1), other_key);
    let other_data = fe(515151);
    let other_leaf = hash(&mut tables, other_data, other_key_hash);
    let siblings = [key_hash, fe(3003), fe(2002), fe(0), fe(4004)];
    let (new_hashes, new_leaf) = account_side(
        &mut tables,
        key_hash,
        siblings,
        leaf_value(kind, 0, new),
        kind == ProofKind::BalanceChanged,
    );
    // Depth 3: the new leaf beside the leaf that was moved.
    let new_2 = up(&mut tables, false, new_leaf, other_leaf);
    // Depth 2: nothing beside the new path.
    let new_1 = up(&mut tables, true, new_2, Fe::zero());
    // Depth 1: both paths.
    let old_root = up(&mut tables, false, other_leaf, fe(88));
    let new_root = up(&mut tables, false, new_1, fe(88));
    for (index, bit) in [false, true, false].into_iter().enumerate() {
        tables.key_bits.push(KeyBit { key, index, bit });
    }
    tables.key_bits.push(KeyBit { key: other_key, index: 0, bit: false });
    nonce_ranges(&mut tables, kind, &[new, 0]);
    let mut lowest = step(false, other_leaf, new_leaf, other_leaf);
    lowest.is_padding_open = true;
    let mut middle = step(true, other_leaf, new_2, Fe::zero());
    middle.is_padding_open = true;
    let proof = Proof {
        claim: UpdateClaim {
            proof_kind: kind,
            address: address(),
            storage_key: None,
            old_root,
            new_root,
            old_value: fe(0),
            new_value: fe(new),
        },
        steps: vec![lowest, middle, step(false, other_leaf, new_1, fe(88))],
        old: LeafWitness { key: other_key, key_hash: other_key_hash, leaf_data_hash: Some(other_data) },
        new: LeafWitness { key, key_hash, leaf_data_hash: Some(new_hashes[0]) },
        old_leaf_hashes: None,
        new_leaf_hashes: Some(new_hashes),
        leaf_siblings: siblings,
    };
    (Scenario { proof, tables, key }, other_key)
}

/// The nonce 1 is written to an account in whose place another leaf stood.
fn nonce_in_place_of_other_leaf() -> (Scenario, Fe) {
    place_of_other_leaf(ProofKind::NonceChanged, 1)
}

/// The places at which a table does not satisfy the constraints: each with
/// its row and the name of the constraint.
fn failures(rows: &[Row], tables: &LookupTables) -> Vec<(usize, &'static str)> {
    let config = config();
    let mut failed = Vec::new();
    for row in 0..rows.len() {
        for constraint in &config.constraints {
            if !constraint.check(rows, row, tables) {
                failed.push((row, constraint.name()));
            }
        }
    }
    failed
}

/// Assigns the rows of a scenario and checks them: every row states the
/// claim, the rows are as many as the path says, and they satisfy the
/// constraints.
fn assign_and_check(s: &Scenario) -> Vec<Row> {
    let rows = assign(std::slice::from_ref(&s.proof), &s.tables.hashes).unwrap();
    assert_eq!(rows.len(), s.proof.n_rows());
    assert_eq!(rows.len(), 1 + s.proof.steps.len() + 5);
    assert_eq!(segments(&rows[rows.len() - 5..]), LEAF_BLOCK);
    for row in &rows {
        assert_eq!(row.proof_kind, s.proof.claim.proof_kind);
        assert_eq!(row.old_value, s.proof.claim.old_value);
        assert_eq!(row.new_value, s.proof.claim.new_value);
    }
    assert_eq!(rows[0].old_hash, s.proof.claim.old_root);
    assert_eq!(rows[0].new_hash, s.proof.claim.new_root);
    assert_eq!(config().check(&rows, &s.tables), Ok(()));
    rows
}

fn config() -> MptUpdateConfig {
    MptUpdateConfig::configure(&[ProofKind::NonceChanged, ProofKind::BalanceChanged]).unwrap()
}

fn segments(rows: &[Row]) -> Vec<SegmentKind> {
    rows.iter().map(|r| r.segment_kind).collect()
}

fn paths(rows: &[Row]) -> Vec<PathKind> {
    rows.iter().map(|r| r.path_kind).collect()
}

const LEAF_BLOCK: [SegmentKind; 5] = [
    SegmentKind::AccountLeaf0,
    SegmentKind::AccountLeaf1,
    SegmentKind::AccountLeaf2,
    SegmentKind::AccountLeaf3,
    SegmentKind::AccountLeaf4,
];

const ACCOUNT_ROWS: [SegmentKind; 8] = [
    SegmentKind::Start,
    SegmentKind::AccountTrie,
    SegmentKind::AccountTrie,
    SegmentKind::AccountLeaf0,
    SegmentKind::AccountLeaf1,
    SegmentKind::AccountLeaf2,
    SegmentKind::AccountLeaf3,
    SegmentKind::AccountLeaf4,
];

#[test]
fn test_mpt_updates() {
    let tables = empty_tables();
    let rows = assign(&[], &tables.hashes).unwrap();
    assert!(rows.is_empty());
    assert_eq!(config().check(&rows, &tables), Ok(()));
    // Rows outside any claim are padding.
    let padding = vec![Row::padding(); 1 << 14];
    assert_eq!(config().check(&padding, &tables), Ok(()));
}

#[test]
fn nonce_plus_one_on_existing_account_keeps_common_path() {
    let s = nonce_of_existing_account();
    let rows = assign_claim(&s.proof, &s.tables.hashes).unwrap();
    assert_eq!(segments(&rows), ACCOUNT_ROWS);
    assert_eq!(rows[0].path_kind, PathKind::Start);
    for row in &rows[1..] {
        assert_eq!(row.path_kind, PathKind::Common);
    }
    for row in &rows {
        assert_eq!(row.proof_kind, ProofKind::NonceChanged);
        assert_eq!(row.new_value.sub(&row.old_value), Fe::one());
        assert_eq!(row.other_key, s.key);
    }
    // The nonce row: the two sides differ by the nonce alone.
    let last = &rows[6];
    assert_eq!(last.segment_kind, SegmentKind::AccountLeaf3);
    assert_eq!(last.old_hash, packed(3, 5));
    assert_eq!(last.new_hash, packed(3, 6));
    assert_eq!(last.new_hash.sub(&last.old_hash), Fe::one());
    assert_eq!(last.direction, Fe::zero());
    // Without the nonce the two sides of the nonce row are the same.
    assert_eq!(last.old_hash.sub(&last.old_value), last.new_hash.sub(&last.new_value));
    assert_eq!(s.proof.n_rows(), rows.len());
    assert_eq!(config().check(&rows, &s.tables), Ok(()));
}

#[test]
fn number_of_rows_follows_from_the_path() {
    let mut s = nonce_of_existing_account();
    assert_eq!(s.proof.n_rows(), 8);
    s.proof.steps.clear();
    assert_eq!(s.proof.n_rows(), 1);
    let (t, _) = nonce_in_place_of_other_leaf();
    assert_eq!(t.proof.n_rows(), 9);
    let mut u = nonce_in_empty_place();
    assert_eq!(u.proof.n_rows(), 8);
    // Empty on both sides: no leaf block.
    u.proof.steps[0].new_hash = Fe::zero();
    assert_eq!(u.proof.n_rows(), 3);
    // Unless a side is frozen where the walk ends.
    u.proof.steps[0].is_padding_open = true;
    assert_eq!(u.proof.n_rows(), 8);
}

#[test]
fn leaf_block_keeps_the_path_kind_on_which_the_walk_ends() {
    let mut s = nonce_of_existing_account();
    // The new side has ended above the last step: the old one goes on alone.
    s.proof.steps[0].is_padding_close = true;
    s.proof.steps[0].new_hash = s.proof.steps[1].new_hash;
    let rows = assign_claim(&s.proof, &s.tables.hashes).unwrap();
    assert_eq!(
        paths(&rows),
        [
            PathKind::Start,
            PathKind::Common,
            PathKind::ExtensionOld,
            PathKind::ExtensionOld,
            PathKind::ExtensionOld,
            PathKind::ExtensionOld,
            PathKind::ExtensionOld,
            PathKind::ExtensionOld,
        ]
    );
    // A walk that ends on a common row with an empty new side freezes the
    // new side of the leaf block.
    let mut t = nonce_of_existing_account();
    t.proof.steps[0].new_hash = Fe::zero();
    t.proof.new_leaf_hashes = None;
    let zero = Fe::zero();
    let above = if t.proof.steps[0].direction {
        mix(&t.proof.steps[0].sibling, &zero)
    } else {
        mix(&zero, &t.proof.steps[0].sibling)
    };
    t.proof.steps[1].new_hash = above;
    t.proof.claim.new_root = mix(&above, &t.proof.steps[1].sibling);
    t.tables.hashes.insert(t.proof.steps[0].sibling, zero, above);
    t.tables.hashes.insert(above, t.proof.steps[1].sibling, t.proof.claim.new_root);
    let rows = assign_claim(&t.proof, &t.tables.hashes).unwrap();
    assert_eq!(rows[2].path_kind, PathKind::Common);
    for row in &rows[3..] {
        assert_eq!(row.path_kind, PathKind::ExtensionOld);
        assert_eq!(row.new_hash, Fe::zero());
        assert!(row.new_hash_is_zero);
    }
}

#[test]
fn rows_of_a_claim_hold_their_cells() {
    let s = nonce_of_existing_account();
    let rows = assign_claim(&s.proof, &s.tables.hashes).unwrap();
    let start = &rows[0];
    assert_eq!(start.old_hash, s.proof.claim.old_root);
    assert_eq!(start.new_hash, s.proof.claim.new_root);
    assert_eq!(start.old_value, fe(5));
    assert_eq!(start.new_value, fe(6));
    assert_eq!(start.address.to_limbs(), [0x5656565656565656, 0x5656565656565656, 0x56565656, 0]);
    assert_eq!(start.storage_key, Fe::zero());
    assert_eq!(start.depth, Fe::zero());
    assert_eq!(start.key, Fe::zero());
    assert!(!start.old_hash_is_zero);
    assert!(!start.key_equals_other_key);
    // Trie rows come root first.
    assert_eq!(rows[1].depth, fe(1));
    assert_eq!(rows[1].sibling, fe(88));
    assert_eq!(rows[1].direction, Fe::zero());
    assert_eq!(rows[1].old_hash, s.proof.steps[1].old_hash);
    assert_eq!(rows[1].key, s.key);
    assert!(rows[1].key_equals_other_key);
    assert_eq!(rows[2].depth, fe(2));
    assert_eq!(rows[2].sibling, fe(77));
    assert_eq!(rows[2].direction, Fe::one());
    assert_eq!(rows[2].new_hash, s.proof.steps[0].new_hash);
    // Leaf rows.
    assert_eq!(rows[3].direction, Fe::one());
    assert_eq!(rows[3].sibling, s.proof.leaf_siblings[0]);
    assert_eq!(rows[3].old_hash, s.proof.old_leaf_hashes.unwrap()[0]);
    assert_eq!(rows[3].upper_address_bits, Fe::from_u128(0x56565656565656565656565656565656));
    assert_eq!(rows[3].key, Fe::zero());
    assert_eq!(rows[3].depth, Fe::zero());
    assert_eq!(rows[4].direction, Fe::zero());
    assert_eq!(rows[4].upper_address_bits, Fe::zero());
    assert_eq!(rows[5].direction, Fe::zero());
    assert_eq!(rows[5].new_hash, s.proof.new_leaf_hashes.unwrap()[2]);
    assert_eq!(rows[6].sibling, fe(1000));
    // The last row of the block holds what the witness gives for it, and
    // turns left.
    assert_eq!(rows[7].segment_kind, SegmentKind::AccountLeaf4);
    assert_eq!(rows[7].direction, Fe::zero());
    assert_eq!(rows[7].sibling, fe(4004));
    assert_eq!(rows[7].sibling, s.proof.leaf_siblings[4]);
    assert_eq!(rows[7].old_hash, s.proof.old_leaf_hashes.unwrap()[4]);
    assert_eq!(rows[7].new_hash, s.proof.new_leaf_hashes.unwrap()[4]);
    assert_eq!(rows[7].upper_address_bits, Fe::zero());
    assert_eq!(rows[7].key, Fe::zero());
    assert_eq!(rows[7].depth, Fe::zero());
    assert_eq!(rows[7].path_kind, PathKind::Common);
}

#[test]
fn storage_key_stands_on_every_row() {
    let mut s = nonce_of_existing_account();
    s.proof.claim.storage_key = Some(fe(99));
    let rows = assign_claim(&s.proof, &s.tables.hashes).unwrap();
    for row in &rows {
        assert_eq!(row.storage_key, fe(99));
    }
}

#[test]
fn balance_of_existing_account_is_the_leaf_hash() {
    let s = balance_of_existing_account();
    let rows = assign_claim(&s.proof, &s.tables.hashes).unwrap();
    assert_eq!(segments(&rows), ACCOUNT_ROWS);
    let last = &rows[6];
    assert_eq!(last.direction, Fe::one());
    assert_eq!(last.old_hash, fe(500));
    assert_eq!(last.old_hash, last.old_value);
    assert_eq!(last.new_hash, fe(800));
    assert_eq!(last.new_hash, last.new_value);
    assert_eq!(config().check(&rows, &s.tables), Ok(()));
}

#[test]
fn balance_that_is_not_the_leaf_hash_is_caught() {
    let s = balance_of_existing_account();
    let mut rows = assign_claim(&s.proof, &s.tables.hashes).unwrap();
    for row in rows.iter_mut() {
        row.new_value = fe(801);
    }
    let config = config();
    let violation = config.check(&rows, &s.tables).unwrap_err();
    assert_eq!(violation.row, 6);
    assert_eq!(config.constraints[violation.constraint].name(), "new_hash is new balance");
}

#[test]
fn nonce_written_to_empty_place_freezes_old_side_in_leaf_block() {
    let s = nonce_in_empty_place();
    let rows = assign_claim(&s.proof, &s.tables.hashes).unwrap();
    assert_eq!(segments(&rows), ACCOUNT_ROWS);
    assert_eq!(
        paths(&rows),
        [
            PathKind::Start,
            PathKind::Common,
            PathKind::Common,
            PathKind::ExtensionNew,
            PathKind::ExtensionNew,
            PathKind::ExtensionNew,
            PathKind::ExtensionNew,
            PathKind::ExtensionNew,
        ]
    );
    // The place is empty: zero where the old path ends, and all through the
    // leaf block.
    for row in &rows[2..] {
        assert_eq!(row.old_hash, Fe::zero());
        assert!(row.old_hash_is_zero);
    }
    for row in &rows {
        assert_eq!(row.other_key, s.key);
        assert_eq!(row.other_leaf_data_hash, s.proof.new_leaf_hashes.unwrap()[0]);
    }
    assert_eq!(config().check(&rows, &s.tables), Ok(()));
}

#[test]
fn nonce_written_in_place_of_other_leaf_switches_to_extension_new() {
    let (s, other_key) = nonce_in_place_of_other_leaf();
    let rows = assign_claim(&s.proof, &s.tables.hashes).unwrap();
    assert_eq!(
        segments(&rows),
        [
            SegmentKind::Start,
            SegmentKind::AccountTrie,
            SegmentKind::AccountTrie,
            SegmentKind::AccountTrie,
            SegmentKind::AccountLeaf0,
            SegmentKind::AccountLeaf1,
            SegmentKind::AccountLeaf2,
            SegmentKind::AccountLeaf3,
            SegmentKind::AccountLeaf4,
        ]
    );
    // The paths part below depth 1.
    assert_eq!(
        paths(&rows),
        [
            PathKind::Start,
            PathKind::Common,
            PathKind::ExtensionNew,
            PathKind::ExtensionNew,
            PathKind::ExtensionNew,
            PathKind::ExtensionNew,
            PathKind::ExtensionNew,
            PathKind::ExtensionNew,
            PathKind::ExtensionNew,
        ]
    );
    let other_leaf = s.proof.steps[0].old_hash;
    for row in &rows {
        assert_eq!(row.other_key, other_key);
        assert!(!row.other_key.equals(&s.key));
        assert_eq!(row.other_key_hash, s.proof.old.key_hash);
        assert_eq!(row.other_leaf_data_hash, fe(515151));
        assert_eq!(row.old_value, Fe::zero());
    }
    for row in &rows[1..4] {
        assert_eq!(row.key, s.key);
        assert!(!row.key_equals_other_key);
    }
    // The old side is frozen at the other leaf from the row where the paths
    // part.
    for row in &rows[1..] {
        assert_eq!(row.old_hash, other_leaf);
    }
    assert_eq!(rows[2].sibling, Fe::zero());
    assert_eq!(rows[3].sibling, other_leaf);
}

#[test]
fn frozen_side_must_pack_no_code_size() {
    // Where another leaf stands in the account's place, the frozen old hash
    // is that leaf's and not zero, so the code size read from it is not zero
    // either: of all constraints, that on the frozen side's code size alone
    // does not hold, and only on the row of the nonce.
    let (s, _) = nonce_in_place_of_other_leaf();
    let rows = assign_claim(&s.proof, &s.tables.hashes).unwrap();
    assert_eq!(
        failures(&rows, &s.tables),
        [(7, "code size is 0 for ExtensionNew nonce update")]
    );
    assert_eq!(config().check(&rows, &s.tables).unwrap_err().row, 7);
}

#[test]
fn balance_written_in_place_of_other_leaf_satisfies_the_constraints() {
    // The row of the value turns right and holds the new balance as it
    // stands.
    let (s, other_key) = place_of_other_leaf(ProofKind::BalanceChanged, 900);
    let rows = assign_and_check(&s);
    assert_eq!(rows.len(), 9);
    for row in &rows[2..] {
        assert_eq!(row.path_kind, PathKind::ExtensionNew);
        assert_eq!(row.other_key, other_key);
    }
    assert_eq!(rows[7].direction, Fe::one());
    assert_eq!(rows[7].new_hash, fe(900));
}

#[test]
fn roots_are_recomputed_from_the_ends_of_the_path() {
    for s in [nonce_of_existing_account(), balance_of_existing_account(), nonce_in_empty_place()] {
        let mut old = s.proof.steps[0].old_hash;
        let mut new = s.proof.steps[0].new_hash;
        for step in &s.proof.steps {
            assert_eq!(old, step.old_hash);
            assert_eq!(new, step.new_hash);
            let (old_pair, new_pair) = if step.direction {
                ((step.sibling, old), (step.sibling, new))
            } else {
                ((old, step.sibling), (new, step.sibling))
            };
            old = s.tables.hashes.lookup(&old_pair.0, &old_pair.1).unwrap();
            new = s.tables.hashes.lookup(&new_pair.0, &new_pair.1).unwrap();
        }
        assert_eq!(old, s.proof.claim.old_root);
        assert_eq!(new, s.proof.claim.new_root);
        assert!(assign_claim(&s.proof, &s.tables.hashes).is_ok());
    }
    // Where the old side has ended, only the new side is hashed.
    let (s, _) = nonce_in_place_of_other_leaf();
    let mut new = s.proof.steps[0].new_hash;
    let mut old = s.proof.steps[0].old_hash;
    for step in &s.proof.steps {
        let pair = |hash: Fe| if step.direction { (step.sibling, hash) } else { (hash, step.sibling) };
        new = s.tables.hashes.lookup(&pair(new).0, &pair(new).1).unwrap();
        if !step.is_padding_open {
            old = s.tables.hashes.lookup(&pair(old).0, &pair(old).1).unwrap();
        }
    }
    assert_eq!(old, s.proof.claim.old_root);
    assert_eq!(new, s.proof.claim.new_root);
}

#[test]
fn old_value_of_an_account_that_was_not_there_must_be_zero() {
    let s = nonce_in_empty_place();
    let mut rows = assign_claim(&s.proof, &s.tables.hashes).unwrap();
    for row in rows.iter_mut() {
        row.old_value = fe(1);
    }
    let config = config();
    let mut tables = s.tables;
    tables.byte_ranges.push(ByteRange { value: fe(1), last_byte: 7 });
    let violation = config.check(&rows, &tables).unwrap_err();
    assert_eq!(violation.row, 3);
    assert_eq!(
        config.constraints[violation.constraint].name(),
        "old value is 0 if old account is empty"
    );
    let failed: Vec<&str> = config
        .constraints
        .iter()
        .filter(|c| !c.check(&rows, 3, &tables))
        .map(|c| c.name())
        .collect();
    assert_eq!(
        failed,
        [
            "old value is 0 if old account is empty",
            "if old account is type 1, then old value is 0"
        ]
    );
}

#[test]
fn direction_must_be_the_bit_of_the_other_key_where_paths_run_together() {
    let (s, other_key) = nonce_in_place_of_other_leaf();
    let rows = assign_claim(&s.proof, &s.tables.hashes).unwrap();
    let mut tables = s.tables;
    tables.key_bits.retain(|line| line.key != other_key);
    let config = config();
    let violation = config.check(&rows, &tables).unwrap_err();
    assert_eq!(violation.row, 1);
    assert_eq!(
        config.constraints[violation.constraint].name(),
        "direction is correct for other_key and depth"
    );
    // Below the row where the paths part, the other key is not asked for.
    let failed = (2..4)
        .flat_map(|row| config.constraints.iter().map(move |c| (row, c)))
        .filter(|(row, c)| !c.check(&rows, *row, &tables))
        .count();
    assert_eq!(failed, 0);
}

#[test]
fn an_empty_trie_has_a_start_row_only() {
    let mut s = nonce_of_existing_account();
    s.proof.steps.clear();
    let rows = assign_claim(&s.proof, &s.tables.hashes).unwrap();
    assert_eq!(segments(&rows), [SegmentKind::Start]);
    assert_eq!(rows[0].old_hash, s.proof.claim.old_root);
    assert_eq!(config().check(&rows, &s.tables), Ok(()));
}

#[test]
fn a_path_that_ends_empty_on_both_sides_has_no_leaf_block() {
    let mut tables = empty_tables();
    let (key, key_hash) = key_of_account(&mut tables);
    let root = up(&mut tables, true, Fe::zero(), fe(77));
    tables.key_bits.push(KeyBit { key, index: 0, bit: true });
    let proof = Proof {
        claim: UpdateClaim {
            proof_kind: ProofKind::AccountDoesNotExist,
            address: address(),
            storage_key: None,
            old_root: root,
            new_root: root,
            old_value: Fe::zero(),
            new_value: Fe::zero(),
        },
        steps: vec![step(true, Fe::zero(), Fe::zero(), fe(77))],
        old: LeafWitness { key, key_hash, leaf_data_hash: None },
        new: LeafWitness { key, key_hash, leaf_data_hash: None },
        old_leaf_hashes: None,
        new_leaf_hashes: None,
        leaf_siblings: [Fe::zero(); 5],
    };
    let rows = assign_claim(&proof, &tables.hashes).unwrap();
    assert_eq!(segments(&rows), [SegmentKind::Start, SegmentKind::AccountTrie]);
    assert_eq!(rows[1].path_kind, PathKind::Common);
    assert!(rows[1].old_hash_is_zero && rows[1].new_hash_is_zero);
    assert_eq!(rows[0].other_leaf_data_hash, Fe::zero());
    assert_eq!(config().check(&rows, &tables), Ok(()));
}

#[test]
fn claims_of_a_batch_follow_one_another() {
    let a = nonce_of_existing_account();
    let b = balance_of_existing_account();
    let mut tables = a.tables;
    for i in 0..b.tables.hashes.len() {
        let line = b.tables.hashes.line(i);
        assert!(tables.hashes.insert(line.left, line.right, line.hash));
    }
    let first = assign_claim(&a.proof, &tables.hashes).unwrap();
    let second = assign_claim(&b.proof, &tables.hashes).unwrap();
    let rows = assign(&[a.proof, b.proof], &tables.hashes).unwrap();
    assert_eq!(rows.len(), 16);
    let mut kinds = ACCOUNT_ROWS.to_vec();
    kinds.extend(ACCOUNT_ROWS);
    assert_eq!(segments(&rows), kinds);
    for (i, row) in rows.iter().enumerate() {
        let single = if i < 8 { &first[i] } else { &second[i - 8] };
        assert_eq!(row.old_hash, single.old_hash);
        assert_eq!(row.new_hash, single.new_hash);
        assert_eq!(row.proof_kind, single.proof_kind);
        assert_eq!(row.sibling, single.sibling);
    }
    assert_eq!(config().check(&rows, &tables), Ok(()));
}

#[test]
fn the_first_bad_claim_of_a_batch_is_named() {
    let good = nonce_of_existing_account();
    let mut bad = nonce_of_existing_account();
    bad.proof.claim.new_root = fe(1);
    let mut worse = nonce_of_existing_account();
    worse.proof.steps[0].is_padding_open = true;
    worse.proof.steps[0].is_padding_close = true;
    assert_eq!(
        assign(&[good.proof, bad.proof, worse.proof], &good.tables.hashes).unwrap_err(),
        ClaimError { claim: 1, error: AssignError::HashMismatch { depth: 1 } }
    );
}

#[test]
fn account_key_missing_from_the_relation_is_an_error() {
    let s = nonce_of_existing_account();
    assert_eq!(
        assign_claim(&s.proof, &HashTable::new()).unwrap_err(),
        AssignError::MissingAccountKey
    );
}

#[test]
fn keys_that_both_differ_from_the_account_key_are_an_error() {
    let mut s = nonce_of_existing_account();
    s.proof.old.key = fe(1);
    s.proof.new.key = fe(2);
    assert_eq!(
        assign_claim(&s.proof, &s.tables.hashes).unwrap_err(),
        AssignError::InconsistentKeys
    );
    s.proof.new.key = fe(1);
    assert_eq!(
        assign_claim(&s.proof, &s.tables.hashes).unwrap_err(),
        AssignError::InconsistentKeys
    );
}

#[test]
fn other_leaf_without_data_hash_is_an_error() {
    let (mut s, _) = nonce_in_place_of_other_leaf();
    s.proof.old.leaf_data_hash = None;
    assert_eq!(
        assign_claim(&s.proof, &s.tables.hashes).unwrap_err(),
        AssignError::MissingLeafDataHash
    );
    let mut t = nonce_of_existing_account();
    t.proof.new.key = fe(2);
    t.proof.new.leaf_data_hash = None;
    assert_eq!(
        assign_claim(&t.proof, &t.tables.hashes).unwrap_err(),
        AssignError::MissingLeafDataHash
    );
}

#[test]
fn new_leaf_with_another_key_is_the_other_leaf() {
    let mut s = nonce_of_existing_account();
    s.proof.new.key = fe(2);
    s.proof.new.key_hash = fe(3);
    s.proof.new.leaf_data_hash = Some(fe(4));
    let rows = assign_claim(&s.proof, &s.tables.hashes).unwrap();
    assert_eq!(rows[0].other_key, fe(2));
    assert_eq!(rows[0].other_key_hash, fe(3));
    assert_eq!(rows[0].other_leaf_data_hash, fe(4));
}

#[test]
fn step_with_both_sides_ended_is_an_error() {
    let mut s = nonce_of_existing_account();
    s.proof.steps[0].is_padding_open = true;
    s.proof.steps[0].is_padding_close = true;
    assert_eq!(
        assign_claim(&s.proof, &s.tables.hashes).unwrap_err(),
        AssignError::BothSidesEnded { depth: 2 }
    );
}

#[test]
fn frozen_hash_that_changes_is_an_error() {
    let (mut s, _) = nonce_in_place_of_other_leaf();
    s.proof.steps[1].old_hash = fe(1);
    assert_eq!(
        assign_claim(&s.proof, &s.tables.hashes).unwrap_err(),
        AssignError::FrozenHashChanged { depth: 2 }
    );
    let mut t = nonce_of_existing_account();
    t.proof.steps[1].is_padding_close = true;
    assert_eq!(
        assign_claim(&t.proof, &t.tables.hashes).unwrap_err(),
        AssignError::FrozenHashChanged { depth: 1 }
    );
}

#[test]
fn path_that_does_not_hash_to_the_root_is_an_error() {
    let mut s = nonce_of_existing_account();
    s.proof.claim.old_root = fe(1);
    assert_eq!(
        assign_claim(&s.proof, &s.tables.hashes).unwrap_err(),
        AssignError::HashMismatch { depth: 1 }
    );
    let mut t = nonce_of_existing_account();
    t.proof.steps[0].sibling = fe(78);
    assert_eq!(
        assign_claim(&t.proof, &t.tables.hashes).unwrap_err(),
        AssignError::HashMismatch { depth: 2 }
    );
    // Left and right are not interchangeable.
    let mut u = nonce_of_existing_account();
    u.proof.steps[1].direction = true;
    assert_eq!(
        assign_claim(&u.proof, &u.tables.hashes).unwrap_err(),
        AssignError::HashMismatch { depth: 1 }
    );
    // On an extension only the side that goes on is hashed.
    let (mut v, _) = nonce_in_place_of_other_leaf();
    v.proof.steps[1].new_hash = fe(1);
    assert_eq!(
        assign_claim(&v.proof, &v.tables.hashes).unwrap_err(),
        AssignError::HashMismatch { depth: 2 }
    );
}

#[test]
fn leaf_block_of_an_unimplemented_kind_is_an_error() {
    let mut s = nonce_of_existing_account();
    s.proof.claim.proof_kind = ProofKind::CodeHashExists;
    assert_eq!(
        assign_claim(&s.proof, &s.tables.hashes).unwrap_err(),
        AssignError::UnsupportedClaimKind
    );
}

#[test]
fn changed_code_size_is_caught() {
    let s = nonce_of_existing_account();
    let mut rows = assign_claim(&s.proof, &s.tables.hashes).unwrap();
    rows[6].new_hash = packed(4, 6);
    let config = config();
    let violation = config.check(&rows, &s.tables).unwrap_err();
    assert_eq!(violation.row, 6);
    // The row no longer hashes up to the row before, which is found first.
    assert_eq!(
        config.constraints[violation.constraint].name(),
        "poseidon hash correct for new common path"
    );
    let mut tables = s.tables;
    tables.hashes.insert(packed(4, 6), fe(1000), rows[5].new_hash);
    let violation = config.check(&rows, &tables).unwrap_err();
    assert_eq!(violation.row, 6);
    assert_eq!(
        config.constraints[violation.constraint].name(),
        "old_code_size = new_code_size for nonce update"
    );
}

#[test]
fn nonce_out_of_range_is_caught() {
    let s = nonce_of_existing_account();
    let rows = assign_claim(&s.proof, &s.tables.hashes).unwrap();
    let mut tables = s.tables;
    tables.byte_ranges.retain(|line| line.value != fe(6));
    let config = config();
    let violation = config.check(&rows, &tables).unwrap_err();
    assert_eq!(violation, Violation { row: 6, constraint: violation.constraint });
    assert_eq!(config.constraints[violation.constraint].name(), "new nonce is 8 bytes");
}

#[test]
fn direction_that_is_not_the_key_bit_is_caught() {
    let s = nonce_of_existing_account();
    let rows = assign_claim(&s.proof, &s.tables.hashes).unwrap();
    let mut tables = s.tables;
    tables.key_bits[1].bit = false;
    let config = config();
    let violation = config.check(&rows, &tables).unwrap_err();
    assert_eq!(violation.row, 2);
    assert_eq!(
        config.constraints[violation.constraint].name(),
        "direction is correct for key and depth"
    );
}

#[test]
fn row_out_of_order_is_caught() {
    let s = nonce_of_existing_account();
    let mut rows = assign_claim(&s.proof, &s.tables.hashes).unwrap();
    rows.remove(4);
    let config = config();
    let violation = config.check(&rows, &s.tables).unwrap_err();
    assert_eq!(violation.row, 4);
    assert_eq!(config.constraints[violation.constraint].name(), "backward transition for segment");
}

#[test]
fn wrong_indicator_is_caught() {
    let s = nonce_of_existing_account();
    let mut rows = assign_claim(&s.proof, &s.tables.hashes).unwrap();
    rows[0].old_hash_is_zero = true;
    let config = config();
    let violation = config.check(&rows, &s.tables).unwrap_err();
    assert_eq!(violation.row, 0);
    assert_eq!(config.constraints[violation.constraint].name(), "old hash is zero");
}

#[test]
fn nonce_write_existing_account() {
    let s = existing_account(ProofKind::NonceChanged, 11, 7, 20);
    let rows = assign_and_check(&s);
    assert_eq!(paths(&rows)[1..], [PathKind::Common; 7]);
    assert_eq!(rows[6].old_hash, packed(11, 7));
    assert_eq!(rows[6].new_hash, packed(11, 20));
}

#[test]
fn nonce_write_type_1_empty_account() {
    // Another leaf stands in the account's place. The rows are as the path
    // has them; the frozen old hash is that leaf's and not zero, so the code
    // size read from it on the row of the nonce is not zero, and that one
    // constraint does not hold.
    let (s, other_key) = place_of_other_leaf(ProofKind::NonceChanged, 1);
    let rows = assign(std::slice::from_ref(&s.proof), &s.tables.hashes).unwrap();
    assert_eq!(rows.len(), 9);
    assert_eq!(segments(&rows[4..]), LEAF_BLOCK);
    assert_eq!(rows[1].path_kind, PathKind::Common);
    assert_eq!(paths(&rows)[2..], [PathKind::ExtensionNew; 7]);
    for row in &rows {
        assert_eq!(row.other_key, other_key);
        assert_eq!(row.old_value, Fe::zero());
        assert_eq!(row.new_value, fe(1));
    }
    assert_eq!(rows[7].new_hash, packed(0, 1));
    assert_eq!(
        failures(&rows, &s.tables),
        [(7, "code size is 0 for ExtensionNew nonce update")]
    );
}

#[test]
fn nonce_write_type_2_empty_account() {
    let s = empty_place(ProofKind::NonceChanged, 1);
    let rows = assign_and_check(&s);
    assert_eq!(paths(&rows)[1..3], [PathKind::Common; 2]);
    assert_eq!(paths(&rows)[3..], [PathKind::ExtensionNew; 5]);
    assert_eq!(rows[6].new_hash, packed(0, 1));
    assert!(rows[2].old_hash_is_zero);
}

#[test]
fn nonce_update_existing() {
    let s = existing_account(ProofKind::NonceChanged, 3, 5, 6);
    let rows = assign_and_check(&s);
    assert_eq!(paths(&rows)[1..], [PathKind::Common; 7]);
    assert_eq!(rows[6].new_hash.sub(&rows[6].old_hash), Fe::one());
}

#[test]
fn nonce_update_type_1() {
    // As for a nonce written in the place of another leaf: all constraints
    // hold but the one on the code size of the frozen side.
    let (s, other_key) = place_of_other_leaf(ProofKind::NonceChanged, 4);
    let rows = assign(std::slice::from_ref(&s.proof), &s.tables.hashes).unwrap();
    assert_eq!(rows.len(), 9);
    assert_eq!(segments(&rows[4..]), LEAF_BLOCK);
    assert_eq!(paths(&rows)[2..], [PathKind::ExtensionNew; 7]);
    for row in &rows[1..4] {
        assert!(!row.key_equals_other_key);
        assert_eq!(row.other_key, other_key);
    }
    assert_eq!(rows[7].new_hash, packed(0, 4));
    assert_eq!(
        failures(&rows, &s.tables),
        [(7, "code size is 0 for ExtensionNew nonce update")]
    );
}

#[test]
fn nonce_update_type_2() {
    let s = empty_place(ProofKind::NonceChanged, 4);
    let rows = assign_and_check(&s);
    assert_eq!(paths(&rows)[3..], [PathKind::ExtensionNew; 5]);
    assert_eq!(rows[6].new_hash, packed(0, 4));
    for row in &rows[2..] {
        assert_eq!(row.old_hash, Fe::zero());
    }
}

#[test]
fn balance_update_existing() {
    let s = existing_account(ProofKind::BalanceChanged, 0, 500, 800);
    let rows = assign_and_check(&s);
    assert_eq!(paths(&rows)[1..], [PathKind::Common; 7]);
    assert_eq!(rows[6].direction, Fe::one());
    assert_eq!(rows[6].old_hash, fe(500));
    assert_eq!(rows[6].new_hash, fe(800));
}

#[test]
fn balance_update_type_1() {
    let (s, other_key) = place_of_other_leaf(ProofKind::BalanceChanged, 900);
    let rows = assign_and_check(&s);
    assert_eq!(rows[1].path_kind, PathKind::Common);
    assert_eq!(paths(&rows)[2..], [PathKind::ExtensionNew; 7]);
    assert_eq!(rows[0].other_key, other_key);
    assert_eq!(rows[7].new_hash, fe(900));
}

#[test]
fn balance_update_type_2() {
    let s = empty_place(ProofKind::BalanceChanged, 700);
    let rows = assign_and_check(&s);
    assert_eq!(paths(&rows)[1..3], [PathKind::Common; 2]);
    assert_eq!(paths(&rows)[3..], [PathKind::ExtensionNew; 5]);
    assert_eq!(rows[6].direction, Fe::one());
    assert_eq!(rows[6].new_hash, fe(700));
    assert_eq!(rows[6].old_hash, Fe::zero());
}
