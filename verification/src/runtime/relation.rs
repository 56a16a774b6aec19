//! Stored relations and their columns.

use crate::runtime::error::DbError;
use vstd::prelude::*;
use vstd::string::StringExecFns;

verus! {

/// The identifier of a stored relation. Identifiers are given out once and in
/// ascending order.
#[derive(Clone, Copy, Debug, PartialEq, Eq, Structural)]
pub struct RelationId(pub u64);

impl RelationId {
    /// The relation that holds the catalog and the meta store.
    pub fn system() -> (id: RelationId)
        ensures
            id == RelationId(0),
    {
        RelationId(0)
    }

    /// The partition prefix of the keys of this relation: the identifier
    /// itself, or the last partition if the identifier is beyond 32 bits.
    pub open spec fn partition_of(self) -> u32 {
        if self.0 > u32::MAX {
            u32::MAX
        } else {
            self.0 as u32
        }
    }

    /// The identifier after this one, if there is one.
    pub fn next(&self) -> (r: Option<RelationId>)
        ensures
            r == if self.0 == u64::MAX {
                None
            } else {
                Some(RelationId((self.0 + 1) as u64))
            },
    {
        if self.0 == u64::MAX {
            None
        } else {
            Some(RelationId(self.0 + 1))
        }
    }

    /// The partition prefix of the keys of this relation.
    pub fn partition(&self) -> (p: u32)
        ensures
            p == self.partition_of(),
    {
        if self.0 > u32::MAX as u64 {
            u32::MAX
        } else {
            self.0 as u32
        }
    }
}

/// The kind of values that a column takes.
#[derive(Clone, Copy, Debug, PartialEq, Eq, Structural)]
pub enum ColType {
    Any,
    Bool,
    Int,
    Float,
    Str,
    List,
}

/// The type of a column: a kind of values, with or without null.
#[derive(Clone, Copy, Debug, PartialEq, Eq, Structural)]
pub struct NullableColType {
    pub coltype: ColType,
    pub nullable: bool,
}

/// A column of a stored relation.
#[derive(Clone, Debug)]
pub struct ColumnDef {
    pub name: String,
    pub typing: NullableColType,
    /// Whether a value is made up for the column where a row has none.
    pub has_default: bool,
}

/// The columns of a stored relation: those that make up the key, and those
/// that depend on the key.
#[derive(Clone, Debug)]
pub struct StoredRelationMetadata {
    pub keys: Vec<ColumnDef>,
    pub dependents: Vec<ColumnDef>,
}

/// The catalog entry of a stored relation.
#[derive(Clone, Debug)]
pub struct RelationHandle {
    pub name: String,
    pub id: RelationId,
    pub metadata: StoredRelationMetadata,
}

/// The relation that a query wants to write into, as the query describes it.
#[derive(Clone, Debug)]
pub struct InputRelationHandle {
    pub name: String,
    pub metadata: StoredRelationMetadata,
}

/// One line of the list of relations.
#[derive(Clone, Debug, PartialEq, Eq)]
pub struct RelationSummary {
    pub name: String,
    pub arity: usize,
    pub n_keys: usize,
    pub n_dependents: usize,
}

/// One line of the list of the columns of a relation.
#[derive(Clone, Debug, PartialEq, Eq)]
pub struct ColumnSummary {
    pub name: String,
    pub is_key: bool,
    pub index: usize,
    pub typing: String,
    pub has_default: bool,
}

/// The written name of a kind of values.
pub open spec fn colto_text(t: ColType) -> Seq<char> {
    match t {
        ColType::Any => "Any"@,
        ColType::Bool => "Bool"@,
        ColType::Int => "Int"@,
        ColType::Float => "Float"@,
        ColType::Str => "String"@,
        ColType::List => "List"@,
    }
}

/// The written form of the type of a column: the name of the kind, followed
/// by a question mark if null is allowed.
pub open spec fn typing_name(t: NullableColType) -> Seq<char> {
    if t.nullable {
        colto_text(t.coltype) + "?"@
    } else {
        colto_text(t.coltype)
    }
}

/// Whether two lists of columns have the same length and, place by place, the
/// same names and types.
pub open spec fn columns_match(a: Seq<ColumnDef>, b: Seq<ColumnDef>) -> bool {
    &&& a.len() == b.len()
    &&& forall|i: int|
        0 <= i < a.len() ==> (#[trigger] a[i]).name@ == b[i].name@ && a[i].typing == b[i].typing
}

/// Whether rows made for the columns `b` can be written into a relation with
/// the columns `a`.
pub open spec fn compatible(a: StoredRelationMetadata, b: StoredRelationMetadata) -> bool {
    columns_match(a.keys@, b.keys@) && columns_match(a.dependents@, b.dependents@)
}

/// The line that the list of columns has for the column `c` at place `index`.
pub open spec fn column_line(c: ColumnDef, is_key: bool, index: int, line: ColumnSummary) -> bool {
    &&& line.name@ == c.name@
    &&& line.is_key == is_key
    &&& line.index == index
    &&& line.typing@ == typing_name(c.typing)
    &&& line.has_default == c.has_default
}

impl NullableColType {
    /// The written form of the type.
    pub fn to_text(&self) -> (s: String)
        ensures
            s@ == typing_name(*self),
    {
        let kind = match self.coltype {
            ColType::Any => "Any",
            ColType::Bool => "Bool",
            ColType::Int => "Int",
            ColType::Float => "Float",
            ColType::Str => "String",
            ColType::List => "List",
        };
        let mut s = kind.to_owned();
        if self.nullable {
            s.append("?");
        }
        s
    }
}

fn same_columns(a: &Vec<ColumnDef>, b: &Vec<ColumnDef>) -> (r: bool)
    ensures
        r == columns_match(a@, b@),
{
    if a.len() != b.len() {
        return false;
    }
    let mut i: usize = 0;
    while i < a.len()
        invariant
            i <= a.len(),
            a.len() == b.len(),
            forall|k: int|
                0 <= k < i ==> (#[trigger] a@[k]).name@ == b@[k].name@ && a@[k].typing
                    == b@[k].typing,
        decreases a.len() - i,
    {
        if a[i].name != b[i].name || a[i].typing != b[i].typing {
            return false;
        }
        i += 1;
    }
    true
}

impl RelationHandle {
    /// Whether rows made for the relation that `inp` describes can be written
    /// into this one: both must have the same key columns and the same
    /// dependent columns, by count, name and type.
    pub fn ensure_compatible(&self, inp: &InputRelationHandle) -> (r: Result<(), DbError>)
        ensures
            r is Ok <==> compatible(self.metadata, inp.metadata),
            r matches Err(e) ==> (e matches DbError::IncompatibleRelation(n) && n@ == self.name@),
    {
        if same_columns(&self.metadata.keys, &inp.metadata.keys) && same_columns(
            &self.metadata.dependents,
            &inp.metadata.dependents,
        ) {
            Ok(())
        } else {
            Err(DbError::IncompatibleRelation(self.name.clone()))
        }
    }

    /// The line that the list of relations has for this one: its name, the
    /// number of its columns, and how many of them are key columns and how
    /// many are not.
    pub fn summary(&self) -> (r: RelationSummary)
        ensures
            r.name@ == self.name@,
            r.n_keys == self.metadata.keys@.len(),
            r.n_dependents == self.metadata.dependents@.len(),
            r.arity == if r.n_keys + r.n_dependents > usize::MAX {
                usize::MAX as int
            } else {
                r.n_keys + r.n_dependents
            },
    {
        let n_keys = self.metadata.keys.len();
        let n_dependents = self.metadata.dependents.len();
        RelationSummary {
            name: self.name.clone(),
            arity: n_keys.saturating_add(n_dependents),
            n_keys,
            n_dependents,
        }
    }

    /// The list of the columns of the relation: the key columns first, then
    /// the others, each with its place in the row.
    pub fn columns(&self) -> (r: Vec<ColumnSummary>)
        ensures
            r@.len() == self.metadata.keys@.len() + self.metadata.dependents@.len(),
            forall|i: int|
                0 <= i < self.metadata.keys@.len() ==> column_line(
                    self.metadata.keys@[i],
                    true,
                    i,
                    #[trigger] r@[i],
                ),
            forall|i: int|
                self.metadata.keys@.len() <= i < r@.len() ==> column_line(
                    self.metadata.dependents@[i - self.metadata.keys@.len()],
                    false,
                    i,
                    #[trigger] r@[i],
                ),
    {
        let keys = &self.metadata.keys;
        let dependents = &self.metadata.dependents;
        let mut ret: Vec<ColumnSummary> = Vec::new();
        let mut i: usize = 0;
        while i < keys.len()
            invariant
                i <= keys.len(),
                ret@.len() == i,
                forall|k: int| 0 <= k < i ==> column_line(keys@[k], true, k, #[trigger] ret@[k]),
            decreases keys.len() - i,
        {
            let col = &keys[i];
            ret.push(
                ColumnSummary {
                    name: col.name.clone(),
                    is_key: true,
                    index: i,
                    typing: col.typing.to_text(),
                    has_default: col.has_default,
                },
            );
            i += 1;
        }
        let mut j: usize = 0;
        while j < dependents.len()
            invariant
                j <= dependents.len(),
                ret@.len() == keys@.len() + j,
                forall|k: int|
                    0 <= k < keys@.len() ==> column_line(keys@[k], true, k, #[trigger] ret@[k]),
                forall|k: int|
                    keys@.len() <= k < ret@.len() ==> column_line(
                        dependents@[k - keys@.len()],
                        false,
                        k,
                        #[trigger] ret@[k],
                    ),
            decreases dependents.len() - j,
        {
            let col = &dependents[j];
            ret.push(
                ColumnSummary {
                    name: col.name.clone(),
                    is_key: false,
                    index: ret.len(),
                    typing: col.typing.to_text(),
                    has_default: col.has_default,
                },
            );
            j += 1;
        }
        ret
    }
}

/// What a lookup in the catalog comes to: the entry that was found under
/// `name`, or the error that there is no such relation.
pub fn found_relation(name: &str, found: Option<RelationHandle>) -> (r: Result<
    RelationHandle,
    DbError,
>)
    ensures
        match found {
            Some(h) => r == Ok::<RelationHandle, DbError>(h),
            None => r matches Err(DbError::StoredRelationNotFound(n)) && n@ == name@,
        },
{
    match found {
        Some(h) => Ok(h),
        None => Err(DbError::StoredRelationNotFound(name.to_owned())),
    }
}

/// The catalog entry of a relation that is to be created as `meta`
/// describes it, given whether its name is taken and the last identifier
/// that was given out. The new relation gets the identifier after that one.
/// Identifiers are given out only as far as the partitions of keys can tell
/// them apart, so no two relations ever share a partition.
pub fn create_relation(meta: InputRelationHandle, exists: bool, last_id: RelationId) -> (r: Result<
    RelationHandle,
    DbError,
>)
    ensures
        exists ==> (r matches Err(DbError::StoredRelationConflict(n)) && n@ == meta.name@),
        !exists && last_id.0 >= u32::MAX ==> r == Err::<RelationHandle, DbError>(
            DbError::RelationIdsExhausted,
        ),
        !exists && last_id.0 < u32::MAX ==> (r matches Ok(h) && h.name == meta.name && h.metadata
            == meta.metadata && h.id.0 == last_id.0 + 1 && h.id.partition_of() == h.id.0),
{
    if exists {
        return Err(DbError::StoredRelationConflict(meta.name));
    }
    if last_id.0 >= u32::MAX as u64 {
        return Err(DbError::RelationIdsExhausted);
    }
    Ok(RelationHandle { name: meta.name, id: RelationId(last_id.0 + 1), metadata: meta.metadata })
}

/// The catalog entry of a relation under its new name, given the entry
/// found under the old name, if any, and whether the new name is taken. The
/// relation keeps its identifier, and so its rows.
pub fn rename_relation(
    old_name: &str,
    found: Option<RelationHandle>,
    new_name: &str,
    new_exists: bool,
) -> (r: Result<RelationHandle, DbError>)
    ensures
        new_exists ==> (r matches Err(DbError::StoredRelationConflict(n)) && n@ == new_name@),
        !new_exists && found is None ==> (r matches Err(DbError::StoredRelationNotFound(n)) && n@
            == old_name@),
        !new_exists && found is Some ==> (r matches Ok(h) && h.name@ == new_name@ && h.id
            == found->Some_0.id && h.metadata == found->Some_0.metadata),
{
    if new_exists {
        return Err(DbError::StoredRelationConflict(new_name.to_owned()));
    }
    match found {
        None => Err(DbError::StoredRelationNotFound(old_name.to_owned())),
        Some(h) => Ok(RelationHandle { name: new_name.to_owned(), id: h.id, metadata: h.metadata }),
    }
}

} // verus!
