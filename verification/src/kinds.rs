//! The closed sets of row states: the kind of claim a row belongs to, where the
//! row sits in its claim, and how the old and new authentication paths relate
//! at that row. A row's state is one member of each set; conditions on rows
//! are stated over sets of members.

use vstd::prelude::*;

verus! {

/// What a claim says was changed or shown.
#[derive(Clone, Copy, Debug, PartialEq, Eq, Structural)]
pub enum ProofKind {
    NonceChanged,
    BalanceChanged,
    CodeHashExists,
    AccountDoesNotExist,
    AccountDestructed,
    StorageChanged,
    StorageDoesNotExist,
}

impl ProofKind {
    /// The number that stands for the kind in a cell: kinds count from one.
    pub open spec fn spec_code(self) -> nat {
        match self {
            ProofKind::NonceChanged => 1,
            ProofKind::BalanceChanged => 2,
            ProofKind::CodeHashExists => 3,
            ProofKind::AccountDoesNotExist => 4,
            ProofKind::AccountDestructed => 5,
            ProofKind::StorageChanged => 6,
            ProofKind::StorageDoesNotExist => 7,
        }
    }

    /// The number that stands for the kind in a cell.
    pub fn code(self) -> (r: u64)
        ensures
            r == self.spec_code(),
    {
        match self {
            ProofKind::NonceChanged => 1,
            ProofKind::BalanceChanged => 2,
            ProofKind::CodeHashExists => 3,
            ProofKind::AccountDoesNotExist => 4,
            ProofKind::AccountDestructed => 5,
            ProofKind::StorageChanged => 6,
            ProofKind::StorageDoesNotExist => 7,
        }
    }

    /// Whether rows and constraints exist for the kind: a changed nonce and a
    /// changed balance do; the other kinds are not yet described.
    pub open spec fn spec_is_implemented(self) -> bool {
        self == ProofKind::NonceChanged || self == ProofKind::BalanceChanged
    }

    /// Whether rows and constraints exist for the kind.
    #[verifier::when_used_as_spec(spec_is_implemented)]
    pub fn is_implemented(self) -> (r: bool)
        ensures
            r == self.spec_is_implemented(),
    {
        match self {
            ProofKind::NonceChanged => true,
            ProofKind::BalanceChanged => true,
            _ => false,
        }
    }

    /// Every kind, in the order of their codes.
    pub fn all() -> (r: [ProofKind; 7])
        ensures
            forall|k: ProofKind| #[trigger] r@.contains(k),
            forall|i: int| 0 <= i < 7 ==> (#[trigger] r@[i]).spec_code() == i + 1,
    {
        let r = [
            ProofKind::NonceChanged,
            ProofKind::BalanceChanged,
            ProofKind::CodeHashExists,
            ProofKind::AccountDoesNotExist,
            ProofKind::AccountDestructed,
            ProofKind::StorageChanged,
            ProofKind::StorageDoesNotExist,
        ];
        proof {
            assert forall|k: ProofKind| #[trigger] r@.contains(k) by {
                assert(r@[k.spec_code() - 1] == k);
            }
        }
        r
    }
}

/// Where a row sits in its claim.
#[derive(Clone, Copy, Debug, PartialEq, Eq, Structural)]
pub enum SegmentKind {
    /// The row that opens a claim and carries what it claims.
    Start,
    /// One row for each depth of the account trie.
    AccountTrie,
    AccountLeaf0,
    AccountLeaf1,
    AccountLeaf2,
    AccountLeaf3,
    AccountLeaf4,
    /// One row for each depth of the storage trie.
    StorageTrie,
    StorageLeaf0,
    StorageLeaf1,
}

impl SegmentKind {
    /// The place of the kind in the order in which kinds are listed.
    pub open spec fn index(self) -> nat {
        match self {
            SegmentKind::Start => 0,
            SegmentKind::AccountTrie => 1,
            SegmentKind::AccountLeaf0 => 2,
            SegmentKind::AccountLeaf1 => 3,
            SegmentKind::AccountLeaf2 => 4,
            SegmentKind::AccountLeaf3 => 5,
            SegmentKind::AccountLeaf4 => 6,
            SegmentKind::StorageTrie => 7,
            SegmentKind::StorageLeaf0 => 8,
            SegmentKind::StorageLeaf1 => 9,
        }
    }

    /// Whether a row of this kind stands for one depth of a trie.
    pub open spec fn spec_is_trie(self) -> bool {
        self == SegmentKind::AccountTrie || self == SegmentKind::StorageTrie
    }

    /// Whether a row of this kind stands for one depth of a trie.
    #[verifier::when_used_as_spec(spec_is_trie)]
    pub fn is_trie(self) -> (r: bool)
        ensures
            r == self.spec_is_trie(),
    {
        match self {
            SegmentKind::AccountTrie => true,
            SegmentKind::StorageTrie => true,
            _ => false,
        }
    }

    /// Every kind, in the order in which a claim can pass through them.
    pub fn all() -> (r: [SegmentKind; 10])
        ensures
            forall|k: SegmentKind| #[trigger] r@.contains(k),
            forall|i: int| 0 <= i < 10 ==> (#[trigger] r@[i]).index() == i,
    {
        let r = [
            SegmentKind::Start,
            SegmentKind::AccountTrie,
            SegmentKind::AccountLeaf0,
            SegmentKind::AccountLeaf1,
            SegmentKind::AccountLeaf2,
            SegmentKind::AccountLeaf3,
            SegmentKind::AccountLeaf4,
            SegmentKind::StorageTrie,
            SegmentKind::StorageLeaf0,
            SegmentKind::StorageLeaf1,
        ];
        proof {
            assert forall|k: SegmentKind| #[trigger] r@.contains(k) by {
                assert(r@[k.index() as int] == k);
            }
        }
        r
    }
}

/// How the old and the new path relate on a row.
#[derive(Clone, Copy, Debug, PartialEq, Eq, Structural)]
pub enum PathKind {
    /// Not yet defined: only on the row that opens a claim.
    Start,
    /// Both paths run through this row.
    Common,
    /// The new path ended above this row: the new side is frozen and only the
    /// old one goes on downward.
    ExtensionOld,
    /// The old path ended above this row: the old side is frozen and only the
    /// new one goes on downward.
    ExtensionNew,
}

impl PathKind {
    /// The place of the kind in the order in which kinds are listed.
    pub open spec fn index(self) -> nat {
        match self {
            PathKind::Start => 0,
            PathKind::Common => 1,
            PathKind::ExtensionOld => 2,
            PathKind::ExtensionNew => 3,
        }
    }

    /// Whether the old side is hashed on a row of this kind.
    pub open spec fn spec_old_is_active(self) -> bool {
        self == PathKind::Common || self == PathKind::ExtensionOld
    }

    /// Whether the old side is hashed on a row of this kind.
    #[verifier::when_used_as_spec(spec_old_is_active)]
    pub fn old_is_active(self) -> (r: bool)
        ensures
            r == self.spec_old_is_active(),
    {
        match self {
            PathKind::Common => true,
            PathKind::ExtensionOld => true,
            _ => false,
        }
    }

    /// Whether the new side is hashed on a row of this kind.
    pub open spec fn spec_new_is_active(self) -> bool {
        self == PathKind::Common || self == PathKind::ExtensionNew
    }

    /// Whether the new side is hashed on a row of this kind.
    #[verifier::when_used_as_spec(spec_new_is_active)]
    pub fn new_is_active(self) -> (r: bool)
        ensures
            r == self.spec_new_is_active(),
    {
        match self {
            PathKind::Common => true,
            PathKind::ExtensionNew => true,
            _ => false,
        }
    }

    /// Every kind.
    pub fn all() -> (r: [PathKind; 4])
        ensures
            forall|k: PathKind| #[trigger] r@.contains(k),
            forall|i: int| 0 <= i < 4 ==> (#[trigger] r@[i]).index() == i,
    {
        let r = [PathKind::Start, PathKind::Common, PathKind::ExtensionOld, PathKind::ExtensionNew];
        proof {
            assert forall|k: PathKind| #[trigger] r@.contains(k) by {
                assert(r@[k.index() as int] == k);
            }
        }
        r
    }
}

/// A set of segment kinds: one indicator for each kind.
#[derive(Clone, Copy, Debug, PartialEq, Eq, Structural)]
pub struct SegmentSet {
    pub start: bool,
    pub account_trie: bool,
    pub account_leaf0: bool,
    pub account_leaf1: bool,
    pub account_leaf2: bool,
    pub account_leaf3: bool,
    pub account_leaf4: bool,
    pub storage_trie: bool,
    pub storage_leaf0: bool,
    pub storage_leaf1: bool,
}

impl SegmentSet {
    /// Whether the kind is in the set.
    pub open spec fn spec_contains(self, kind: SegmentKind) -> bool {
        match kind {
            SegmentKind::Start => self.start,
            SegmentKind::AccountTrie => self.account_trie,
            SegmentKind::AccountLeaf0 => self.account_leaf0,
            SegmentKind::AccountLeaf1 => self.account_leaf1,
            SegmentKind::AccountLeaf2 => self.account_leaf2,
            SegmentKind::AccountLeaf3 => self.account_leaf3,
            SegmentKind::AccountLeaf4 => self.account_leaf4,
            SegmentKind::StorageTrie => self.storage_trie,
            SegmentKind::StorageLeaf0 => self.storage_leaf0,
            SegmentKind::StorageLeaf1 => self.storage_leaf1,
        }
    }

    /// Whether the kind is in the set.
    #[verifier::when_used_as_spec(spec_contains)]
    pub fn contains(self, kind: SegmentKind) -> (r: bool)
        ensures
            r == self.spec_contains(kind),
    {
        match kind {
            SegmentKind::Start => self.start,
            SegmentKind::AccountTrie => self.account_trie,
            SegmentKind::AccountLeaf0 => self.account_leaf0,
            SegmentKind::AccountLeaf1 => self.account_leaf1,
            SegmentKind::AccountLeaf2 => self.account_leaf2,
            SegmentKind::AccountLeaf3 => self.account_leaf3,
            SegmentKind::AccountLeaf4 => self.account_leaf4,
            SegmentKind::StorageTrie => self.storage_trie,
            SegmentKind::StorageLeaf0 => self.storage_leaf0,
            SegmentKind::StorageLeaf1 => self.storage_leaf1,
        }
    }

    /// The set without members.
    pub fn none() -> (r: SegmentSet)
        ensures
            forall|k: SegmentKind| !r.spec_contains(k),
    {
        SegmentSet {
            start: false,
            account_trie: false,
            account_leaf0: false,
            account_leaf1: false,
            account_leaf2: false,
            account_leaf3: false,
            account_leaf4: false,
            storage_trie: false,
            storage_leaf0: false,
            storage_leaf1: false,
        }
    }

    /// The set with one more member.
    pub fn with(self, kind: SegmentKind) -> (r: SegmentSet)
        ensures
            forall|k: SegmentKind| r.spec_contains(k) == (k == kind || self.spec_contains(k)),
    {
        let mut r = self;
        match kind {
            SegmentKind::Start => { r.start = true; },
            SegmentKind::AccountTrie => { r.account_trie = true; },
            SegmentKind::AccountLeaf0 => { r.account_leaf0 = true; },
            SegmentKind::AccountLeaf1 => { r.account_leaf1 = true; },
            SegmentKind::AccountLeaf2 => { r.account_leaf2 = true; },
            SegmentKind::AccountLeaf3 => { r.account_leaf3 = true; },
            SegmentKind::AccountLeaf4 => { r.account_leaf4 = true; },
            SegmentKind::StorageTrie => { r.storage_trie = true; },
            SegmentKind::StorageLeaf0 => { r.storage_leaf0 = true; },
            SegmentKind::StorageLeaf1 => { r.storage_leaf1 = true; },
        }
        r
    }

    /// The set of one kind.
    pub fn only(kind: SegmentKind) -> (r: SegmentSet)
        ensures
            forall|k: SegmentKind| r.spec_contains(k) == (k == kind),
    {
        SegmentSet::none().with(kind)
    }

    /// The two kinds of trie rows.
    pub fn trie() -> (r: SegmentSet)
        ensures
            forall|k: SegmentKind| r.spec_contains(k) == k.spec_is_trie(),
    {
        SegmentSet::none().with(SegmentKind::AccountTrie).with(SegmentKind::StorageTrie)
    }
}

/// A set of path kinds: one indicator for each kind.
#[derive(Clone, Copy, Debug, PartialEq, Eq, Structural)]
pub struct PathSet {
    pub start: bool,
    pub common: bool,
    pub extension_old: bool,
    pub extension_new: bool,
}

impl PathSet {
    /// Whether the kind is in the set.
    pub open spec fn spec_contains(self, kind: PathKind) -> bool {
        match kind {
            PathKind::Start => self.start,
            PathKind::Common => self.common,
            PathKind::ExtensionOld => self.extension_old,
            PathKind::ExtensionNew => self.extension_new,
        }
    }

    /// Whether the kind is in the set.
    #[verifier::when_used_as_spec(spec_contains)]
    pub fn contains(self, kind: PathKind) -> (r: bool)
        ensures
            r == self.spec_contains(kind),
    {
        match kind {
            PathKind::Start => self.start,
            PathKind::Common => self.common,
            PathKind::ExtensionOld => self.extension_old,
            PathKind::ExtensionNew => self.extension_new,
        }
    }

    /// The set without members.
    pub fn none() -> (r: PathSet)
        ensures
            forall|k: PathKind| !r.spec_contains(k),
    {
        PathSet { start: false, common: false, extension_old: false, extension_new: false }
    }

    /// The set with one more member.
    pub fn with(self, kind: PathKind) -> (r: PathSet)
        ensures
            forall|k: PathKind| r.spec_contains(k) == (k == kind || self.spec_contains(k)),
    {
        let mut r = self;
        match kind {
            PathKind::Start => { r.start = true; },
            PathKind::Common => { r.common = true; },
            PathKind::ExtensionOld => { r.extension_old = true; },
            PathKind::ExtensionNew => { r.extension_new = true; },
        }
        r
    }

    /// The set of one kind.
    pub fn only(kind: PathKind) -> (r: PathSet)
        ensures
            forall|k: PathKind| r.spec_contains(k) == (k == kind),
    {
        PathSet::none().with(kind)
    }
}

} // verus!
