use mpt_update::claim::{
    address_high, address_low, address_to_fr, hash_address, Address, AuthenticationStep,
    HashTable,
};
use mpt_update::config::{
    new_left, new_right, old_code_size, old_left, old_right, ConfigError, MptUpdateConfig,
    MptUpdateLookup,
};
use mpt_update::constraint::{ByteRange, Constraint, ConstraintBuilder, KeyBit, LookupTables};
use mpt_update::field::Fe;
use mpt_update::kinds::{PathKind, PathSet, ProofKind, SegmentKind, SegmentSet};
use mpt_update::query::{rotated_row, Condition, Query};
use mpt_update::row::{AdviceColumn, Indicator, Row};

fn fe(x: u64) -> Fe {
    Fe::from_u64(x)
}

fn no_tables() -> LookupTables {
    LookupTables { hashes: HashTable::new(), key_bits: Vec::new(), byte_ranges: Vec::new() }
}

/// Three rows with numbered cells: row `i` holds `100 * i + k` in its `k`th
/// column.
fn numbered_rows() -> Vec<Row> {
    let columns = [
        AdviceColumn::OldHash,
        AdviceColumn::NewHash,
        AdviceColumn::OldValue,
        AdviceColumn::NewValue,
        AdviceColumn::Address,
        AdviceColumn::StorageKey,
        AdviceColumn::Depth,
        AdviceColumn::Key,
        AdviceColumn::OtherKey,
        AdviceColumn::OtherKeyHash,
        AdviceColumn::OtherLeafDataHash,
        AdviceColumn::Direction,
        AdviceColumn::Sibling,
        AdviceColumn::UpperAddressBits,
    ];
    let mut rows = vec![Row::padding(); 3];
    for (i, row) in rows.iter_mut().enumerate() {
        for (k, column) in columns.iter().enumerate() {
            column.assign(row, fe(100 * i as u64 + k as u64));
        }
    }
    rows[0].segment_kind = SegmentKind::Start;
    rows[1].segment_kind = SegmentKind::AccountTrie;
    rows[1].path_kind = PathKind::Common;
    rows[1].proof_kind = ProofKind::BalanceChanged;
    rows[2].segment_kind = SegmentKind::AccountLeaf0;
    rows[2].path_kind = PathKind::ExtensionNew;
    rows[2].proof_kind = ProofKind::StorageDoesNotExist;
    rows
}

#[test]
fn test_account_key() {
    // The key of an account is the hash of the two halves of its address.
    for (address, high, low) in [
        (Address { bytes: [0; 20] }, 0u128, 0u128),
        (
            Address { bytes: [0x56; 20] },
            0x56565656565656565656565656565656,
            0x56565656000000000000000000000000,
        ),
    ] {
        assert_eq!(address_high(&address), high);
        assert_eq!(address_low(&address), low);
        let mut hashes = HashTable::new();
        assert!(hashes.insert(fe(1), fe(2), fe(3)));
        assert_eq!(hash_address(&address, &hashes), None);
        assert!(hashes.insert(Fe::from_u128(high), Fe::from_u128(low), fe(777)));
        assert!(!hashes.insert(Fe::from_u128(high), Fe::from_u128(low), fe(888)));
        assert_eq!(hash_address(&address, &hashes), Some(fe(777)));
    }
}

#[test]
fn address_splits_at_the_lower_32_bits() {
    let mut bytes = [0u8; 20];
    for (i, b) in bytes.iter_mut().enumerate() {
        *b = i as u8 + 1;
    }
    let address = Address { bytes };
    assert_eq!(address_high(&address), 0x0102030405060708090a0b0c0d0e0f10);
    assert_eq!(address_low(&address), 0x11121314_00000000_00000000_00000000);
    assert_eq!(
        address_to_fr(&address).to_limbs(),
        [0x0d0e0f1011121314, 0x05060708090a0b0c, 0x01020304, 0]
    );
    let top = Address { bytes: [0xff; 20] };
    assert_eq!(address_high(&top), u128::MAX);
    assert_eq!(address_low(&top), 0xffffffff_00000000_00000000_00000000);
    assert_eq!(address_to_fr(&top).to_limbs(), [u64::MAX, u64::MAX, 0xffffffff, 0]);
}

#[test]
fn hash_table_gives_each_pair_one_hash() {
    let mut hashes = HashTable::new();
    assert_eq!(hashes.len(), 0);
    assert!(!hashes.contains(&fe(1), &fe(2), &fe(3)));
    assert_eq!(hashes.lookup(&fe(1), &fe(2)), None);
    assert!(hashes.insert(fe(1), fe(2), fe(3)));
    assert!(hashes.insert(fe(2), fe(1), fe(4)));
    // Another hash for a pair that has one is refused.
    assert!(!hashes.insert(fe(1), fe(2), fe(5)));
    // A line that is there is not added again.
    assert!(hashes.insert(fe(1), fe(2), fe(3)));
    assert_eq!(hashes.len(), 2);
    assert_eq!(hashes.line(0).hash, fe(3));
    assert_eq!(hashes.line(1).left, fe(2));
    assert!(hashes.contains(&fe(1), &fe(2), &fe(3)));
    assert!(!hashes.contains(&fe(1), &fe(2), &fe(5)));
    assert!(hashes.contains(&fe(2), &fe(1), &fe(4)));
    assert!(!hashes.contains(&fe(2), &fe(1), &fe(3)));
    assert!(!hashes.contains(&fe(1), &fe(2), &fe(4)));
    assert_eq!(hashes.lookup(&fe(1), &fe(2)), Some(fe(3)));
    assert_eq!(hashes.lookup(&fe(2), &fe(1)), Some(fe(4)));
    assert_eq!(hashes.lookup(&fe(2), &fe(2)), None);
}

#[test]
fn steps_are_classified_by_the_sides_that_have_ended() {
    let mut step = AuthenticationStep {
        direction: false,
        old_hash: fe(1),
        new_hash: fe(2),
        sibling: fe(3),
        is_padding_open: false,
        is_padding_close: false,
    };
    assert_eq!(step.path_kind(), Some(PathKind::Common));
    step.is_padding_close = true;
    assert_eq!(step.path_kind(), Some(PathKind::ExtensionOld));
    step.is_padding_open = true;
    assert_eq!(step.path_kind(), None);
    step.is_padding_close = false;
    assert_eq!(step.path_kind(), Some(PathKind::ExtensionNew));
}

#[test]
fn kinds_are_listed_in_order() {
    assert_eq!(ProofKind::all().map(|k| k.code()), [1, 2, 3, 4, 5, 6, 7]);
    assert_eq!(ProofKind::all()[0], ProofKind::NonceChanged);
    assert_eq!(ProofKind::all()[6], ProofKind::StorageDoesNotExist);
    assert_eq!(
        ProofKind::all().map(|k| k.is_implemented()),
        [true, true, false, false, false, false, false]
    );
    assert_eq!(SegmentKind::all()[0], SegmentKind::Start);
    assert_eq!(SegmentKind::all()[6], SegmentKind::AccountLeaf4);
    assert_eq!(SegmentKind::all()[9], SegmentKind::StorageLeaf1);
    assert_eq!(
        SegmentKind::all().map(|k| k.is_trie()),
        [false, true, false, false, false, false, false, true, false, false]
    );
    assert_eq!(
        PathKind::all(),
        [PathKind::Start, PathKind::Common, PathKind::ExtensionOld, PathKind::ExtensionNew]
    );
    assert_eq!(PathKind::all().map(|k| k.old_is_active()), [false, true, true, false]);
    assert_eq!(PathKind::all().map(|k| k.new_is_active()), [false, true, false, true]);
}

#[test]
fn sets_hold_what_was_put_in() {
    for kind in SegmentKind::all() {
        assert!(!SegmentSet::none().contains(kind));
        for other in SegmentKind::all() {
            assert_eq!(SegmentSet::only(kind).contains(other), kind == other);
            let two = SegmentSet::only(kind).with(other);
            for third in SegmentKind::all() {
                assert_eq!(two.contains(third), third == kind || third == other);
            }
        }
        assert_eq!(SegmentSet::trie().contains(kind), kind.is_trie());
    }
    for kind in PathKind::all() {
        assert!(!PathSet::none().contains(kind));
        for other in PathKind::all() {
            assert_eq!(PathSet::only(kind).contains(other), kind == other);
            let two = PathSet::only(kind).with(other);
            for third in PathKind::all() {
                assert_eq!(two.contains(third), third == kind || third == other);
            }
        }
    }
}

#[test]
fn cells_are_written_one_at_a_time() {
    let mut row = Row::padding();
    AdviceColumn::Sibling.assign(&mut row, fe(9));
    assert_eq!(row.cell(AdviceColumn::Sibling), fe(9));
    assert_eq!(row.sibling, fe(9));
    assert_eq!(row.cell(AdviceColumn::Direction), Fe::zero());
    assert_eq!(row.cell(AdviceColumn::OldHash), Fe::zero());
    assert_eq!(row.segment_kind, SegmentKind::Start);
    assert!(row.indicator(Indicator::OldHashIsZero));
    let rows = numbered_rows();
    assert_eq!(rows[2].old_hash, fe(200));
    assert_eq!(rows[2].upper_address_bits, fe(213));
    assert_eq!(rows[1].cell(AdviceColumn::Key), fe(107));
    assert_eq!(rows[1].cell(AdviceColumn::OtherLeafDataHash), fe(110));
}

#[test]
fn rows_beyond_the_table_are_padding() {
    let rows = numbered_rows();
    assert_eq!(rotated_row(&rows, 1, 1).old_hash, fe(200));
    assert_eq!(rotated_row(&rows, 1, -1).old_hash, fe(0));
    assert_eq!(rotated_row(&rows, 1, 0).old_hash, fe(100));
    assert_eq!(rotated_row(&rows, 2, 1).old_hash, Fe::zero());
    assert_eq!(rotated_row(&rows, 2, 1).segment_kind, SegmentKind::Start);
    assert_eq!(rotated_row(&rows, 0, -1).sibling, Fe::zero());
    assert_eq!(rotated_row(&rows, 2, i32::MIN).sibling, Fe::zero());
    assert_eq!(rotated_row(&rows, usize::MAX, i32::MAX).sibling, Fe::zero());
    assert_eq!(AdviceColumn::Sibling.rotation(-2).evaluate(&rows, 2), fe(12));
    assert_eq!(AdviceColumn::Sibling.rotation(-3).evaluate(&rows, 2), fe(0));
    assert_eq!(AdviceColumn::Sibling.previous().evaluate(&rows, 2), fe(112));
    assert_eq!(AdviceColumn::Sibling.current().evaluate(&rows, 2), fe(212));
}

#[test]
fn queries_compute_in_the_field() {
    let rows = numbered_rows();
    let sum = AdviceColumn::OldHash.current().plus(AdviceColumn::NewHash.current());
    assert_eq!(sum.evaluate(&rows, 1), fe(201));
    let difference = AdviceColumn::OldHash.current().minus(AdviceColumn::NewHash.current());
    assert_eq!(difference.evaluate(&rows, 1), Fe::zero().sub(&fe(1)));
    let product = AdviceColumn::OldValue.current().times(Query::number(3));
    assert_eq!(product.evaluate(&rows, 2), fe(606));
    assert_eq!(Query::zero().evaluate(&rows, 0), Fe::zero());
    assert_eq!(Query::one().evaluate(&rows, 0), Fe::one());
    assert_eq!(Query::constant(fe(5)).evaluate(&rows, 7), fe(5));
    assert_eq!(Query::proof_kind().evaluate(&rows, 0), fe(1));
    assert_eq!(Query::proof_kind().evaluate(&rows, 1), fe(2));
    assert_eq!(Query::proof_kind().evaluate(&rows, 2), fe(7));
    let on_trie = Query::segment_matches(SegmentSet::trie());
    assert_eq!(on_trie.evaluate(&rows, 0), fe(0));
    assert_eq!(Query::segment_matches(SegmentSet::trie()).evaluate(&rows, 1), fe(1));
}

#[test]
fn children_are_chosen_by_the_direction() {
    let mut rows = numbered_rows();
    // Old hash 100, new hash 101, sibling 112.
    rows[1].direction = Fe::one();
    assert_eq!(old_left().evaluate(&rows, 1), fe(112));
    assert_eq!(old_right().evaluate(&rows, 1), fe(100));
    assert_eq!(new_left().evaluate(&rows, 1), fe(112));
    assert_eq!(new_right().evaluate(&rows, 1), fe(101));
    rows[1].direction = Fe::zero();
    assert_eq!(old_left().evaluate(&rows, 1), fe(100));
    assert_eq!(old_right().evaluate(&rows, 1), fe(112));
    assert_eq!(new_left().evaluate(&rows, 1), fe(101));
    assert_eq!(new_right().evaluate(&rows, 1), fe(112));
}

#[test]
fn code_size_is_what_stands_above_the_nonce() {
    let mut rows = numbered_rows();
    rows[0].old_hash = Fe::from_u128((9u128 << 64) + 4);
    rows[0].old_value = fe(4);
    assert_eq!(old_code_size().evaluate(&rows, 0), fe(9));
    rows[0].old_value = fe(3);
    assert!(!old_code_size().evaluate(&rows, 0).equals(&fe(9)));
}

#[test]
fn conditions_read_the_state_of_rows() {
    let rows = numbered_rows();
    assert!(Condition::always().evaluate(&rows, 0));
    assert!(Condition::segment_is(SegmentKind::AccountTrie, 0).evaluate(&rows, 1));
    assert!(!Condition::segment_is(SegmentKind::AccountTrie, 0).evaluate(&rows, 0));
    assert!(Condition::segment_is(SegmentKind::AccountTrie, 1).evaluate(&rows, 0));
    assert!(Condition::segment_is(SegmentKind::Start, 1).evaluate(&rows, 2));
    assert!(Condition::is_trie(-1).evaluate(&rows, 2));
    assert!(!Condition::is_trie(0).evaluate(&rows, 2));
    assert!(Condition::path_is(PathKind::ExtensionNew, 1).evaluate(&rows, 1));
    assert!(Condition::path(PathSet::only(PathKind::Common).with(PathKind::Start), 0)
        .evaluate(&rows, 1));
    assert!(!Condition::path(PathSet::only(PathKind::Common).with(PathKind::Start), 0)
        .evaluate(&rows, 2));
    assert!(Condition::segment(SegmentSet::only(SegmentKind::AccountLeaf0), 2).evaluate(&rows, 0));
    assert!(Condition::claim_is(ProofKind::BalanceChanged).evaluate(&rows, 1));
    assert!(!Condition::claim_is(ProofKind::BalanceChanged).evaluate(&rows, 2));
    assert!(Condition::indicator(Indicator::NewHashIsZero).evaluate(&rows, 1));
    assert!(!Condition::indicator(Indicator::NewHashIsZero).not().evaluate(&rows, 1));
    assert!(Condition::always().and(Condition::is_trie(0)).evaluate(&rows, 1));
    assert!(!Condition::is_trie(0).and(Condition::always().not()).evaluate(&rows, 1));
}

#[test]
fn constraints_bind_where_their_condition_holds() {
    let rows = numbered_rows();
    let mut tables = no_tables();
    let mut cb = ConstraintBuilder::new();
    cb.assert_zero("zero", Condition::is_trie(0), AdviceColumn::Sibling.current());
    cb.assert_equal(
        "equal",
        Condition::is_trie(0),
        AdviceColumn::Sibling.current(),
        AdviceColumn::Sibling.previous().plus(Query::number(100)),
    );
    cb.require("require", Condition::is_trie(0), Condition::path_is(PathKind::Start, 0));
    cb.assert_unreachable("unreachable", Condition::is_trie(0));
    cb.define_indicator("flag", Indicator::OldHashIsZero, AdviceColumn::OldHash.current());
    cb.add_hash_lookup(
        "hash",
        Condition::is_trie(0),
        AdviceColumn::OldHash.current(),
        AdviceColumn::NewHash.current(),
        AdviceColumn::Sibling.current(),
    );
    cb.add_key_bit_lookup(
        "key bit",
        Condition::is_trie(0),
        AdviceColumn::Key.current(),
        Query::number(3),
        Query::one(),
    );
    cb.add_byte_range_lookup(
        "byte range",
        Condition::is_trie(0),
        AdviceColumn::OldValue.current(),
        Query::number(7),
    );
    let names: Vec<&str> = cb.constraints.iter().map(Constraint::name).collect();
    assert_eq!(
        names,
        ["zero", "equal", "require", "unreachable", "flag", "hash", "key bit", "byte range"]
    );
    let holds =
        |tables: &LookupTables, row: usize| -> Vec<bool> {
            cb.constraints.iter().map(|c| c.check(&rows, row, tables)).collect()
        };
    // Off the trie only the indicator binds: it is set, and the hash is zero
    // on row 0 and 200 on row 2.
    assert_eq!(holds(&tables, 0), [true, true, true, true, true, true, true, true]);
    assert_eq!(holds(&tables, 2), [true, true, true, true, false, true, true, true]);
    assert_eq!(holds(&tables, 1), [false, true, false, false, false, false, false, false]);
    tables.hashes.insert(fe(100), fe(101), fe(112));
    tables.key_bits.push(KeyBit { key: fe(107), index: 3, bit: true });
    tables.byte_ranges.push(ByteRange { value: fe(102), last_byte: 7 });
    assert_eq!(holds(&tables, 1), [false, true, false, false, false, true, true, true]);
    tables.key_bits[0].bit = false;
    tables.byte_ranges[0].last_byte = 8;
    assert_eq!(holds(&tables, 1), [false, true, false, false, false, true, false, false]);
}

#[test]
fn constraints_are_made_for_implemented_kinds_only() {
    assert!(MptUpdateConfig::configure(&[]).is_ok());
    let both = MptUpdateConfig::configure(&[ProofKind::NonceChanged, ProofKind::BalanceChanged])
        .unwrap();
    assert_eq!(both.kinds, [ProofKind::NonceChanged, ProofKind::BalanceChanged]);
    for kind in ProofKind::all() {
        let result = MptUpdateConfig::configure(&[ProofKind::NonceChanged, kind]);
        if kind.is_implemented() {
            assert!(result.is_ok());
        } else {
            assert_eq!(result.err(), Some(ConfigError::UnimplementedClaimKind(kind)));
        }
    }
    assert_eq!(
        MptUpdateConfig::configure(&[
            ProofKind::StorageChanged,
            ProofKind::NonceChanged,
            ProofKind::CodeHashExists
        ])
        .err(),
        Some(ConfigError::UnimplementedClaimKind(ProofKind::StorageChanged))
    );
}

#[test]
fn rows_of_kinds_without_constraints_are_not_bound_by_them() {
    let nonce_only = MptUpdateConfig::configure(&[ProofKind::NonceChanged]).unwrap();
    let both = MptUpdateConfig::configure(&[ProofKind::NonceChanged, ProofKind::BalanceChanged])
        .unwrap();
    assert!(nonce_only.constraints.len() < both.constraints.len());
    let mut tables = no_tables();
    tables.byte_ranges.push(ByteRange { value: Fe::zero(), last_byte: 15 });
    // A balance row that turns left where it should turn right.
    let mut rows = vec![Row::padding(); 1];
    rows[0].proof_kind = ProofKind::BalanceChanged;
    rows[0].segment_kind = SegmentKind::AccountLeaf3;
    rows[0].path_kind = PathKind::Common;
    let violation = both.check(&rows, &tables).unwrap_err();
    assert_eq!(both.constraints[violation.constraint].name(), "backward transition for segment");
    let names: Vec<&str> = both
        .constraints
        .iter()
        .filter(|c| !c.check(&rows, 0, &tables))
        .map(Constraint::name)
        .collect();
    assert!(names.contains(&"direction is 1"));
    let names: Vec<&str> = nonce_only
        .constraints
        .iter()
        .filter(|c| !c.check(&rows, 0, &tables))
        .map(Constraint::name)
        .collect();
    assert!(!names.contains(&"direction is 1"));
}

#[test]
fn lookup_shows_the_claim_on_start_rows() {
    let config = MptUpdateConfig::configure(&[ProofKind::NonceChanged]).unwrap();
    let rows = numbered_rows();
    let on = |row: usize| -> Vec<Fe> {
        config.lookup().iter().map(|q| q.evaluate(&rows, row)).collect()
    };
    // Kind, old root, new root, old value, new value, address, storage key.
    assert_eq!(on(0), [fe(1), fe(0), fe(1), fe(2), fe(3), fe(4), fe(5)]);
    assert_eq!(on(1), [fe(2), fe(0), fe(0), fe(0), fe(0), fe(0), fe(0)]);
    assert_eq!(on(2), [fe(7), fe(0), fe(0), fe(0), fe(0), fe(0), fe(0)]);
}
