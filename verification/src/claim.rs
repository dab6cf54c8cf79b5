//! What the assigner is given: a claim that one slot of the trie changed, the
//! authentication path that bears it out, and the hash relation against which
//! the path is checked.

use crate::field::Fe;
use crate::kinds::{PathKind, ProofKind};
use vstd::prelude::*;

verus! {

/// The number that the bytes from `from` up to `to` stand for, most
/// significant byte first.
pub open spec fn be_range(bytes: Seq<u8>, from: int, to: int) -> nat
    decreases to - from,
{
    if to <= from {
        0
    } else {
        be_range(bytes, from, to - 1) * 256 + bytes[to - 1] as nat
    }
}

/// The largest number that `n` bytes can stand for.
pub open spec fn max_be(n: nat) -> nat
    decreases n,
{
    if n == 0 {
        0
    } else {
        max_be((n - 1) as nat) * 256 + 255
    }
}

proof fn lemma_max_be_grows(m: nat, n: nat)
    requires
        m <= n,
    ensures
        max_be(m) <= max_be(n),
    decreases n,
{
    if m < n {
        lemma_max_be_grows(m, (n - 1) as nat);
    }
}

proof fn lemma_be_range_bound(bytes: Seq<u8>, from: int, to: int)
    requires
        from <= to,
    ensures
        be_range(bytes, from, to) <= max_be((to - from) as nat),
    decreases to - from,
{
    if from < to {
        lemma_be_range_bound(bytes, from, to - 1);
    }
}

/// The address of an account: twenty bytes, most significant first.
#[derive(Clone, Copy, Debug)]
pub struct Address {
    pub bytes: [u8; 20],
}

impl View for Address {
    type V = nat;

    /// The address as a 160-bit number.
    open spec fn view(&self) -> nat {
        be_range(self.bytes@, 0, 20)
    }
}

impl Address {
    /// The upper 128 bits of the address.
    pub open spec fn high(&self) -> nat {
        be_range(self.bytes@, 0, 16)
    }

    /// The lower 32 bits of the address.
    pub open spec fn low(&self) -> nat {
        be_range(self.bytes@, 16, 20)
    }

    /// An address is its upper 128 bits followed by its lower 32 bits.
    pub proof fn lemma_split(&self)
        ensures
            self@ == self.high() * 0x1_0000_0000 + self.low(),
            self.high() <= u128::MAX,
            self.low() <= u32::MAX,
    {
        reveal_with_fuel(be_range, 5);
        reveal_with_fuel(max_be, 17);
        lemma_be_range_bound(self.bytes@, 0, 16);
        lemma_be_range_bound(self.bytes@, 16, 20);
    }
}

/// The number that the bytes of an address from `from` up to `to` stand for,
/// where that number fits.
fn be_bytes(address: &Address, from: usize, to: usize) -> (r: u128)
    requires
        from <= to <= 20,
        to - from <= 16,
    ensures
        r == be_range(address.bytes@, from as int, to as int),
{
    let mut acc: u128 = 0;
    let mut i: usize = from;
    while i < to
        invariant
            from <= i <= to <= 20,
            to - from <= 16,
            acc == be_range(address.bytes@, from as int, i as int),
        decreases to - i,
    {
        proof {
            reveal_with_fuel(max_be, 17);
            lemma_be_range_bound(address.bytes@, from as int, i as int);
            lemma_max_be_grows((i - from) as nat, 15);
        }
        acc = acc * 256 + address.bytes[i] as u128;
        i += 1;
    }
    acc
}

/// The upper 128 bits of an address.
pub fn address_high(a: &Address) -> (r: u128)
    ensures
        r == a.high(),
{
    be_bytes(a, 0, 16)
}

/// The lower 32 bits of an address, moved to the top of a 128-bit word: the
/// second half of the pair that is hashed to the account's key.
pub fn address_low(a: &Address) -> (r: u128)
    ensures
        r == a.low() * 0x1_0000_0000_0000_0000_0000_0000,
{
    proof {
        a.lemma_split();
    }
    be_bytes(a, 16, 20) * 0x1_0000_0000_0000_0000_0000_0000
}

/// The address as a field element.
pub fn address_to_fr(a: &Address) -> (r: Fe)
    ensures
        r@ == a@,
{
    proof {
        a.lemma_split();
    }
    Fe::from_u160(be_bytes(a, 0, 16), be_bytes(a, 16, 20) as u32)
}

/// One line of the hash relation: `hash` is the hash of `left` and `right`.
#[derive(Clone, Copy, Debug)]
pub struct HashEntry {
    pub left: Fe,
    pub right: Fe,
    pub hash: Fe,
}

impl View for HashEntry {
    type V = (nat, nat, nat);

    open spec fn view(&self) -> (nat, nat, nat) {
        (self.left@, self.right@, self.hash@)
    }
}

/// The hash relation, as the lines of it that are known. It gives each pair
/// one hash at most.
pub struct HashTable {
    entries: Vec<HashEntry>,
}

impl View for HashTable {
    type V = Seq<(nat, nat, nat)>;

    closed spec fn view(&self) -> Seq<(nat, nat, nat)> {
        Seq::new(self.entries@.len(), |i: int| self.entries@[i]@)
    }
}

/// Whether the relation gives each pair one hash at most.
pub open spec fn is_function(relation: Seq<(nat, nat, nat)>) -> bool {
    forall|i: int, j: int|
        0 <= i < relation.len() && 0 <= j < relation.len() && (#[trigger] relation[i]).0 == (
        #[trigger] relation[j]).0 && relation[i].1 == relation[j].1 ==> relation[i].2
            == relation[j].2
}

/// Whether the relation says that `hash` is the hash of `left` and `right`.
pub open spec fn hashes_to(relation: Seq<(nat, nat, nat)>, left: nat, right: nat, hash: nat) -> bool {
    relation.contains((left, right, hash))
}

/// The place of the first line of the relation for `left` and `right` at or
/// after `from`, or the length of the relation if there is none.
pub open spec fn first_line(relation: Seq<(nat, nat, nat)>, left: nat, right: nat, from: int) -> int
    decreases relation.len() - from,
{
    if from >= relation.len() {
        relation.len() as int
    } else if from >= 0 && relation[from].0 == left && relation[from].1 == right {
        from
    } else {
        first_line(relation, left, right, from + 1)
    }
}

/// The hash that the relation gives for `left` and `right`: that of its first
/// line for them.
pub open spec fn hash_of(relation: Seq<(nat, nat, nat)>, left: nat, right: nat) -> Option<nat> {
    let i = first_line(relation, left, right, 0);
    if i < relation.len() {
        Some(relation[i].2)
    } else {
        None
    }
}

/// Where the relation gives a hash, it says that this is the hash; where it
/// gives none, it has no line for the pair.
pub proof fn lemma_hash_of(relation: Seq<(nat, nat, nat)>, left: nat, right: nat)
    ensures
        match hash_of(relation, left, right) {
            Some(hash) => hashes_to(relation, left, right, hash),
            None => forall|hash: nat| !hashes_to(relation, left, right, hash),
        },
{
    lemma_first_line(relation, left, right, 0);
    let i = first_line(relation, left, right, 0);
    if i < relation.len() {
        assert(relation[i] == (left, right, relation[i].2));
    } else {
        assert forall|hash: nat| !hashes_to(relation, left, right, hash) by {
            if hashes_to(relation, left, right, hash) {
                let k = choose|k: int| 0 <= k < relation.len() && relation[k] == (left, right, hash);
                assert(relation[k].0 == left);
            }
        }
    }
}

proof fn lemma_first_line(relation: Seq<(nat, nat, nat)>, left: nat, right: nat, from: int)
    requires
        0 <= from,
    ensures
        from <= first_line(relation, left, right, from) || relation.len() < from,
        first_line(relation, left, right, from) <= relation.len() || relation.len() < from,
        first_line(relation, left, right, from) < relation.len() ==> {
            let i = first_line(relation, left, right, from);
            relation[i].0 == left && relation[i].1 == right
        },
        forall|k: int|
            from <= k < first_line(relation, left, right, from) && k < relation.len() ==> !(
            (#[trigger] relation[k]).0 == left && relation[k].1 == right),
    decreases relation.len() - from,
{
    if from < relation.len() && !(relation[from].0 == left && relation[from].1 == right) {
        lemma_first_line(relation, left, right, from + 1);
    }
}

/// In a relation that is a function, the hash that the relation gives for a
/// pair is the one that any of its lines gives.
pub proof fn lemma_function_hash(relation: Seq<(nat, nat, nat)>, left: nat, right: nat, hash: nat)
    requires
        is_function(relation),
        hashes_to(relation, left, right, hash),
    ensures
        hash_of(relation, left, right) == Some(hash),
{
    lemma_hash_of(relation, left, right);
    let i = choose|i: int| 0 <= i < relation.len() && relation[i] == (left, right, hash);
    match hash_of(relation, left, right) {
        Some(h) => {
            let j = choose|j: int| 0 <= j < relation.len() && relation[j] == (left, right, h);
            assert(relation[i].0 == relation[j].0);
        },
        None => {},
    }
}

impl HashTable {
    /// The relation of a table is a function.
    #[verifier::type_invariant]
    pub open spec fn gives_one_hash(&self) -> bool {
        is_function(self@)
    }

    /// A relation without lines.
    pub fn new() -> (r: HashTable)
        ensures
            r@ == Seq::<(nat, nat, nat)>::empty(),
    {
        let r = HashTable { entries: Vec::new() };
        assert(r@ =~= Seq::<(nat, nat, nat)>::empty());
        r
    }

    /// The number of lines.
    pub fn len(&self) -> (r: usize)
        ensures
            r == self@.len(),
    {
        self.entries.len()
    }

    /// The line at a place.
    pub fn line(&self, i: usize) -> (r: HashEntry)
        requires
            i < self@.len(),
        ensures
            r@ == self@[i as int],
    {
        self.entries[i]
    }

    /// Adds the line that says that `hash` is the hash of `left` and `right`,
    /// unless the relation has another hash for them: then it stays as it is
    /// and the answer is `false`. A line that is there is not added again.
    pub fn insert(&mut self, left: Fe, right: Fe, hash: Fe) -> (r: bool)
        ensures
            match hash_of(old(self)@, left@, right@) {
                None => r && final(self)@ == old(self)@.push((left@, right@, hash@)),
                Some(h) => r == (h == hash@) && final(self)@ == old(self)@,
            },
    {
        proof {
            use_type_invariant(&*self);
            lemma_hash_of(self@, left@, right@);
        }
        match self.lookup(&left, &right) {
            Some(h) => h.equals(&hash),
            None => {
                let ghost before = self@;
                let mut entries = Vec::new();
                std::mem::swap(&mut entries, &mut self.entries);
                entries.push(HashEntry { left, right, hash });
                proof {
                    let after = Seq::new(entries@.len(), |i: int| entries@[i]@);
                    assert(after =~= before.push((left@, right@, hash@)));
                    assert forall|i: int, j: int|
                        0 <= i < after.len() && 0 <= j < after.len() && (#[trigger] after[i]).0 == (
                        #[trigger] after[j]).0 && after[i].1 == after[j].1 implies after[i].2
                        == after[j].2 by {
                        if i < before.len() && j < before.len() {
                            assert(after[i] == before[i] && after[j] == before[j]);
                        } else if i < before.len() {
                            assert(after[i] == before[i]);
                            assert(hashes_to(before, left@, right@, before[i].2));
                        } else if j < before.len() {
                            assert(after[j] == before[j]);
                            assert(hashes_to(before, left@, right@, before[j].2));
                        }
                    }
                }
                self.entries = entries;
                true
            },
        }
    }

    /// Whether the relation says that `hash` is the hash of `left` and `right`.
    pub fn contains(&self, left: &Fe, right: &Fe, hash: &Fe) -> (r: bool)
        ensures
            r == hashes_to(self@, left@, right@, hash@),
    {
        let mut i: usize = 0;
        while i < self.entries.len()
            invariant
                i <= self.entries@.len(),
                forall|k: int| 0 <= k < i ==> #[trigger] self@[k] != (left@, right@, hash@),
            decreases self.entries@.len() - i,
        {
            let e = &self.entries[i];
            if e.left.equals(left) && e.right.equals(right) && e.hash.equals(hash) {
                assert(self@[i as int] == (left@, right@, hash@));
                return true;
            }
            i += 1;
        }
        false
    }

    /// The hash that the relation gives for `left` and `right`.
    pub fn lookup(&self, left: &Fe, right: &Fe) -> (r: Option<Fe>)
        ensures
            match r {
                Some(hash) => hash_of(self@, left@, right@) == Some(hash@),
                None => hash_of(self@, left@, right@) is None,
            },
    {
        let mut i: usize = 0;
        while i < self.entries.len()
            invariant
                i <= self.entries@.len(),
                first_line(self@, left@, right@, 0) == first_line(self@, left@, right@, i as int),
            decreases self.entries@.len() - i,
        {
            let e = &self.entries[i];
            if e.left.equals(left) && e.right.equals(right) {
                return Some(e.hash);
            }
            i += 1;
        }
        None
    }
}

/// The key of an account in the trie: the hash of the two halves of its
/// address, where the relation gives it.
pub open spec fn account_key(relation: Seq<(nat, nat, nat)>, address: Address) -> Option<nat> {
    hash_of(relation, address.high(), address.low() * 0x1_0000_0000_0000_0000_0000_0000)
}

/// The key of an account in the trie.
pub fn hash_address(a: &Address, hashes: &HashTable) -> (r: Option<Fe>)
    ensures
        match r {
            Some(key) => account_key(hashes@, *a) == Some(key@),
            None => account_key(hashes@, *a) is None,
        },
{
    let high = Fe::from_u128(address_high(a));
    let low = Fe::from_u128(address_low(a));
    hashes.lookup(&high, &low)
}

/// The value of the leaf that holds an account's nonce: the code size above
/// the nonce, each in 64 bits.
pub fn nonce_and_code_size(nonce: u64, code_size: u64) -> (r: Fe)
    ensures
        r@ == code_size * 0x1_0000_0000_0000_0000 + nonce,
{
    Fe::from_u128(code_size as u128 * 0x1_0000_0000_0000_0000 + nonce as u128)
}

/// The fact to be proven: that the trie's root went from `old_root` to
/// `new_root` because one value of one account went from `old_value` to
/// `new_value`.
#[derive(Clone, Copy, Debug)]
pub struct UpdateClaim {
    pub proof_kind: ProofKind,
    pub address: Address,
    pub storage_key: Option<Fe>,
    pub old_root: Fe,
    pub new_root: Fe,
    pub old_value: Fe,
    pub new_value: Fe,
}

/// One depth of the authentication path.
#[derive(Clone, Copy, Debug)]
pub struct AuthenticationStep {
    /// Whether the path turns right at this depth.
    pub direction: bool,
    pub old_hash: Fe,
    pub new_hash: Fe,
    pub sibling: Fe,
    /// The old side has ended above this depth.
    pub is_padding_open: bool,
    /// The new side has ended above this depth.
    pub is_padding_close: bool,
}

impl AuthenticationStep {
    /// The path kind of the row for this step, unless both sides have ended,
    /// which no path allows.
    pub open spec fn spec_path_kind(&self) -> Option<PathKind> {
        match (self.is_padding_open, self.is_padding_close) {
            (false, false) => Some(PathKind::Common),
            (false, true) => Some(PathKind::ExtensionOld),
            (true, false) => Some(PathKind::ExtensionNew),
            (true, true) => None,
        }
    }

    /// The path kind of the row for this step.
    #[verifier::when_used_as_spec(spec_path_kind)]
    pub fn path_kind(&self) -> (r: Option<PathKind>)
        ensures
            r == self.spec_path_kind(),
    {
        match (self.is_padding_open, self.is_padding_close) {
            (false, false) => Some(PathKind::Common),
            (false, true) => Some(PathKind::ExtensionOld),
            (true, false) => Some(PathKind::ExtensionNew),
            (true, true) => None,
        }
    }
}

/// The leaf in which one side of the path ends.
#[derive(Clone, Copy, Debug)]
pub struct LeafWitness {
    pub key: Fe,
    pub key_hash: Fe,
    /// The hash of what the leaf holds, where the path ends in a leaf.
    pub leaf_data_hash: Option<Fe>,
}

/// A claim with its witness.
#[derive(Clone, Debug)]
pub struct Proof {
    pub claim: UpdateClaim,
    /// The authentication path, from the leaf up to the root.
    pub steps: Vec<AuthenticationStep>,
    /// The leaf in which the old side ends.
    pub old: LeafWitness,
    /// The leaf in which the new side ends.
    pub new: LeafWitness,
    /// The old hashes of the five rows of the leaf block, where the account
    /// existed before.
    pub old_leaf_hashes: Option<[Fe; 5]>,
    /// The new hashes of the five rows of the leaf block, where the account
    /// exists after.
    pub new_leaf_hashes: Option<[Fe; 5]>,
    /// The siblings of the five rows of the leaf block.
    pub leaf_siblings: [Fe; 5],
}

} // verus!
