//! What can go wrong while a statement runs.

use crate::data::tuple::Tuple;
use vstd::prelude::*;

verus! {

/// A stretch of the source text of a script: where it starts and how long it
/// is.
#[derive(Clone, Copy, Debug, PartialEq, Eq, Structural)]
pub struct SourceSpan(pub usize, pub usize);

/// Why a statement failed. A failed statement leaves nothing behind in the
/// store: its transaction is given up.
#[derive(Clone, Debug, PartialEq, Eq)]
pub enum DbError {
    /// A relation was to be created under a name that is taken.
    StoredRelationConflict(String),
    /// A relation was to be written that does not exist.
    StoredRelationNotFound(String),
    /// The columns of a relation differ from those that a query wants to
    /// write into it.
    IncompatibleRelation(String),
    /// A query that was asserted to return nothing returned this tuple.
    AssertNoneFailure(Tuple, SourceSpan),
    /// A query that was asserted to return something returned nothing.
    AssertSomeFailure(SourceSpan),
    /// A key of the meta store does not have the shape of one.
    CorruptKeyInMetaStore,
    /// The store was written by a version of the layout other than the
    /// current one.
    UnknownStorageVersion(u64),
    /// A statement that writes nothing left byte ranges to clear.
    CleanupsWithoutWrite,
    /// The query was killed before it completed.
    ProcessKilled,
    /// All identifiers of relations are given out.
    RelationIdsExhausted,
}

} // verus!
