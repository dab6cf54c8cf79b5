//! The table that shows that one update of a sparse Merkle-Patricia trie was
//! applied correctly: its rows, the constraints on them, and the assignment of
//! rows to a claim.
//!
//! A claim says that the root of the trie went from one hash to another
//! because one value of one account changed. Its witness is the
//! authentication path of the account before and after the change. The
//! assigner ([`assign`]) walks the path from the root down, checks it against
//! the hash relation, and gives the claim its rows: a start row, a row for
//! each depth of the trie, and a block of leaf rows. The constraint generator
//! ([`config`]) makes, for every state of a row and every kind of claim, the
//! constraints that hold exactly where the rules ([`rules`]) do, and a table
//! can be checked against them ([`check`]).
//!
//! The hash, the bits of a key and the range of a value are not computed
//! here. They are relations that others maintain, given as the lines of them
//! that are known ([`constraint::LookupTables`]). Field arithmetic is done by
//! `halo2curves` ([`field`]).
//!
//! What holds of every claim with rows and of every table that satisfies the
//! constraints is proved in [`laws`]; that the rows of a claim with a sound
//! witness satisfy the constraints is proved in [`witness`].

pub mod assign;
pub mod check;
pub mod claim;
pub mod config;
pub mod constraint;
pub mod field;
pub mod kinds;
pub mod laws;
pub mod query;
pub mod row;
pub mod rules;
pub mod witness;
