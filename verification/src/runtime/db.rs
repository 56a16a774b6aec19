//! What the database decides between two calls into its storage engine.
//!
//! The engine, the parser and the evaluation of a compiled program are not
//! part of this library. Whoever drives them asks the functions here which
//! keys to read, when to stop a scan, whether a statement may go ahead, and
//! what to make of what came back.

use crate::data::compare::{chars_order, law_order_flips, value_order, values_order};
use crate::data::key_order::{compare, key_order, law_key_order};
use crate::data::number::Order;
use crate::data::tuple::{
    encode_key, first_fault, key_get, key_items, law_key_roundtrip, EncodedTuple, Fault, Tuple,
    PREFIX_LEN,
};
use crate::data::text::Text;
use crate::data::value::{encode_value, encode_values, DataValue, Value};
use crate::runtime::cancel::KillStatus;
use crate::runtime::error::{DbError, SourceSpan};
use crate::runtime::relation::{compatible, InputRelationHandle, RelationHandle, RelationId};
use vstd::prelude::*;
use vstd::slice::slice_to_vec;
use vstd::utf8::encode_utf8;

verus! {

/// The version of the storage layout that this library reads and writes.
pub const CURRENT_STORAGE_VERSION: u64 = 1;

/// Number of leading bytes of a key by which the storage engine groups keys.
pub const SCRATCH_DB_KEY_PREFIX_LEN: usize = PREFIX_LEN;

/// The record that a store keeps of the layout it was written with.
#[derive(Clone, Copy, Debug, PartialEq, Eq, Structural)]
pub struct DbManifest {
    pub storage_version: u64,
}

/// How the storage engine is to be set up.
#[derive(Clone, Debug)]
pub struct StorageConfig {
    /// Whether the engine may create the store.
    pub create_if_missing: bool,
    /// Number of leading bytes by which the engine groups keys, in both key
    /// spaces.
    pub prefix_len: usize,
    /// Whether the engine keeps bloom filters for point lookups.
    pub use_bloom_filter: bool,
    /// The name under which the comparator of the primary key space is
    /// recorded.
    pub pri_comparator_name: String,
    /// The name under which the comparator of the secondary key space is
    /// recorded.
    pub snd_comparator_name: String,
}

/// What a query does with a stored relation.
#[derive(Clone, Copy, Debug, PartialEq, Eq, Structural)]
pub enum RelationOp {
    /// Make a new relation from the rows.
    Create,
    /// Replace what the relation holds by the rows.
    ReDerive,
    /// Add the rows to the relation.
    Put,
    /// Take the rows out of the relation.
    Retract,
}

/// What a query claims of its own result.
#[derive(Clone, Copy, Debug, PartialEq, Eq, Structural)]
pub enum QueryAssertion {
    /// The query returns no row.
    AssertNone(SourceSpan),
    /// The query returns at least one row.
    AssertSome(SourceSpan),
}

/// The direction of a sort.
#[derive(Clone, Copy, Debug, PartialEq, Eq, Structural)]
pub enum SortDir {
    Asc,
    Dsc,
}

/// What is to be done with the rows of a query.
#[derive(Clone, Debug)]
pub struct QueryOutOptions {
    pub limit: Option<usize>,
    pub offset: Option<usize>,
    /// Seconds after which the query is killed.
    pub timeout: Option<u64>,
    /// The columns to sort by, the first one first.
    pub sorters: Vec<(String, SortDir)>,
    /// The relation to write the rows into.
    pub store_relation: Option<(InputRelationHandle, RelationOp)>,
    pub assertion: Option<QueryAssertion>,
}

/// What a compaction works on.
#[derive(Clone, Copy, Debug, PartialEq, Eq, Structural)]
pub enum CompactTarget {
    Relations,
}

/// An administrative operation.
#[derive(Clone, Debug)]
pub enum SysOp {
    Compact(Vec<CompactTarget>),
    ListRelations,
    ListRunning,
    KillRunning(u64),
    RemoveRelation(String),
    RenameRelation(String, String),
    ListRelation(String),
}

/// The acknowledgement of an administrative operation.
#[derive(Clone, Copy, Debug, PartialEq, Eq, Structural)]
pub enum Status {
    Okay,
    Killing,
    NotFound,
}

/// How a script ends once all its statements ran.
#[derive(Clone, Debug)]
pub struct ScriptEnd {
    /// Whether the transaction is committed.
    pub commit: bool,
    /// The byte ranges to delete from the store, after the commit.
    pub cleanups: Vec<(Vec<u8>, Vec<u8>)>,
}

/// The strings that a vector of strings holds.
pub open spec fn strings_view(v: Seq<String>) -> Seq<Seq<char>> {
    Seq::new(v.len(), |i: int| v[i]@)
}

/// The strings that a slice of string slices holds.
pub open spec fn strs_view(v: Seq<&str>) -> Seq<Seq<char>> {
    Seq::new(v.len(), |i: int| v[i]@)
}

/// The values of a key of the meta store: the guard, then the names.
pub open spec fn meta_values(names: Seq<Seq<char>>) -> Seq<Value> {
    Seq::new(
        names.len() + 1,
        |i: int|
            if i == 0 {
                Value::Guard
            } else {
                Value::Str(names[i - 1])
            },
    )
}

/// Whether a key lies past the entries of the meta store: its first value is
/// not the guard. The guard comes before every other value, so no entry of
/// the meta store follows such a key.
pub open spec fn past_meta_store(items: Seq<Result<Value, Fault>>) -> bool {
    items.len() > 0 && items[0] is Ok && !(items[0]->Ok_0 is Guard)
}

/// The names in a key of the meta store, if what walking over the key yields
/// has the shape of one: no fault, the guard first, and strings after it.
pub open spec fn meta_names(items: Seq<Result<Value, Fault>>) -> Option<Seq<Seq<char>>> {
    if items.len() > 0 && items[0] == Ok::<Value, Fault>(Value::Guard) && (forall|i: int|
        0 <= i < items.len() ==> (#[trigger] items[i]) is Ok) && (forall|i: int|
        1 <= i < items.len() ==> (#[trigger] items[i])->Ok_0 is Str) {
        Some(Seq::new((items.len() - 1) as nat, |i: int| items[i + 1]->Ok_0->Str_0))
    } else {
        None
    }
}

/// The rows from `offset` on, and at most `limit` of them.
pub open spec fn page<T>(rows: Seq<T>, offset: Option<usize>, limit: Option<usize>) -> Seq<T> {
    let skipped = match offset {
        Some(o) if o < rows.len() => o as int,
        Some(_) => rows.len() as int,
        None => 0,
    };
    let taken = match limit {
        Some(l) if l < rows.len() - skipped => l as int,
        _ => rows.len() - skipped,
    };
    rows.subrange(skipped, skipped + taken)
}

/// The number of rows that a limit and an offset ask for together, capped at
/// the largest number; nothing without a limit.
pub open spec fn rows_needed(limit: Option<usize>, offset: Option<usize>) -> Option<usize> {
    match (limit, offset) {
        (None, _) => None,
        (Some(l), None) => Some(l),
        (Some(l), Some(o)) => Some(
            if l + o > usize::MAX {
                usize::MAX
            } else {
                (l + o) as usize
            },
        ),
    }
}

/// The written form of an acknowledgement.
pub open spec fn status_label(s: Status) -> Seq<char> {
    match s {
        Status::Okay => "OK"@,
        Status::Killing => "KILLING"@,
        Status::NotFound => "NOT_FOUND"@,
    }
}

impl DbManifest {
    /// The record that a new store is given.
    pub fn current() -> (m: DbManifest)
        ensures
            m.storage_version == CURRENT_STORAGE_VERSION,
    {
        DbManifest { storage_version: CURRENT_STORAGE_VERSION }
    }
}

/// Decides, from the record found in a store, whether the store can be
/// opened: a store without a record is new, and a record of another layout
/// version forbids opening it. Tells whether the store is new.
pub fn check_manifest(existing: Option<DbManifest>) -> (r: Result<bool, DbError>)
    ensures
        match existing {
            None => r == Ok::<bool, DbError>(true),
            Some(m) => if m.storage_version == CURRENT_STORAGE_VERSION {
                r == Ok::<bool, DbError>(false)
            } else {
                r == Err::<bool, DbError>(DbError::UnknownStorageVersion(m.storage_version))
            },
        },
{
    match existing {
        None => Ok(true),
        Some(m) => {
            if m.storage_version == CURRENT_STORAGE_VERSION {
                Ok(false)
            } else {
                Err(DbError::UnknownStorageVersion(m.storage_version))
            }
        },
    }
}

/// How the storage engine is set up for a store: it may create the store only
/// if the store is new, groups the keys of both key spaces by their partition
/// prefix, and keeps bloom filters.
pub fn storage_config(is_new: bool) -> (c: StorageConfig)
    ensures
        c.create_if_missing == is_new,
        c.prefix_len == SCRATCH_DB_KEY_PREFIX_LEN,
        c.use_bloom_filter,
        c.pri_comparator_name@ == "cozo_rusty_cmp"@,
        c.snd_comparator_name@ == "cozo_rusty_scratch_cmp"@,
{
    StorageConfig {
        create_if_missing: is_new,
        prefix_len: SCRATCH_DB_KEY_PREFIX_LEN,
        use_bloom_filter: true,
        pri_comparator_name: "cozo_rusty_cmp".to_owned(),
        snd_comparator_name: "cozo_rusty_scratch_cmp".to_owned(),
    }
}

/// The keys between which all rows of all relations lie: the empty tuple of
/// the first relation, and the bottom sentinel of the last.
pub fn relation_space_bounds() -> (r: (Vec<u8>, Vec<u8>))
    ensures
        r.0@ == encode_key(0, Seq::<Value>::empty()),
        r.1@ == encode_key(u32::MAX, seq![Value::Bot]),
{
    let lower = Tuple::default();
    let mut top: Vec<DataValue> = Vec::new();
    top.push(DataValue::Bot);
    let upper = Tuple(top);
    assert(lower@ =~= Seq::<Value>::empty());
    assert(upper@ =~= seq![Value::Bot]);
    (
        lower.encode_as_key(RelationId(0).partition()),
        upper.encode_as_key(RelationId(u64::MAX).partition()),
    )
}

fn meta_tuple(names: &[&str]) -> (t: Tuple)
    ensures
        t@ == meta_values(strs_view(names@)),
{
    let mut vals: Vec<DataValue> = Vec::new();
    vals.push(DataValue::Guard);
    let mut i: usize = 0;
    while i < names.len()
        invariant
            i <= names@.len(),
            vals@.len() == i + 1,
            vals@[0]@ == Value::Guard,
            forall|k: int| 1 <= k <= i ==> (#[trigger] vals@[k])@ == Value::Str(names@[k - 1]@),
        decreases names@.len() - i,
    {
        vals.push(DataValue::Str(Text::new(names[i])));
        i += 1;
    }
    let t = Tuple(vals);
    assert(t@ =~= meta_values(strs_view(names@)));
    t
}

/// The key under which the meta store keeps the entry with the names `k`.
pub fn meta_key(k: &[&str]) -> (key: Vec<u8>)
    ensures
        key@ == encode_key(0, meta_values(strs_view(k@))),
{
    meta_tuple(k).encode_as_key(RelationId::system().partition())
}

/// The keys between which the entries of the meta store lie whose names
/// start with `prefix`: where to start the scan, and the key that ends it.
pub fn meta_scan_bounds(prefix: &[&str]) -> (r: (Vec<u8>, Vec<u8>))
    ensures
        r.0@ == encode_key(0, meta_values(strs_view(prefix@))),
        r.1@ == encode_key(0, seq![Value::Bot]),
{
    let lower = meta_tuple(prefix);
    let mut top: Vec<DataValue> = Vec::new();
    top.push(DataValue::Bot);
    let upper = Tuple(top);
    assert(upper@ =~= seq![Value::Bot]);
    let partition = RelationId::system().partition();
    (lower.encode_as_key(partition), upper.encode_as_key(partition))
}

/// Whether a scan that ends at `upper_bound` goes on at `key`: it does as
/// long as the key is before the bound.
pub fn before_bound(upper_bound: &[u8], key: &[u8]) -> (r: bool)
    ensures
        r == (key_order(upper_bound@, key@) == Order::Greater),
{
    match compare(upper_bound, key) {
        Order::Greater => true,
        _ => false,
    }
}

/// What a scan of the meta store makes of the pair of key and value that it
/// stands at: nothing if the key is at or beyond the bound, or past the
/// entries of the meta store, which ends the scan; else the names in the key,
/// with a copy of the value. A key that does not have the shape of a key of
/// the meta store is an error.
pub fn meta_scan_entry(upper_bound: &[u8], k_slice: &[u8], v_slice: &[u8]) -> (r: Result<
    Option<(Vec<String>, Vec<u8>)>,
    DbError,
>)
    ensures
        match r {
            Ok(None) => key_order(upper_bound@, k_slice@) != Order::Greater || past_meta_store(
                key_items(k_slice@),
            ),
            Ok(Some((names, value))) => {
                &&& key_order(upper_bound@, k_slice@) == Order::Greater
                &&& meta_names(key_items(k_slice@)) == Some(strings_view(names@))
                &&& value@ == v_slice@
            },
            Err(e) => {
                &&& key_order(upper_bound@, k_slice@) == Order::Greater
                &&& !past_meta_store(key_items(k_slice@))
                &&& meta_names(key_items(k_slice@)) is None
                &&& e is CorruptKeyInMetaStore
            },
        },
{
    if !before_bound(upper_bound, k_slice) {
        return Ok(None);
    }
    let ghost items = key_items(k_slice@);
    let key = EncodedTuple(k_slice);
    let starts_with_guard = match key.arity() {
        Ok(n) => if n >= 1 {
            assert(items[0] == key_get(k_slice@, 0));
            match key.get(0) {
                Ok(DataValue::Guard) => true,
                Ok(_) => {
                    return Ok(None);
                },
                Err(_) => false,
            }
        } else {
            false
        },
        Err(_) => false,
    };
    assert(!past_meta_store(items));
    assert(starts_with_guard <==> items.len() > 0 && items[0] == Ok::<Value, Fault>(Value::Guard));
    if !starts_with_guard {
        return Err(DbError::CorruptKeyInMetaStore);
    }
    let decoded = match key.decode() {
        Ok(t) => t,
        Err(_) => {
            proof {
                let f = choose|f: Fault| first_fault(items, f);
                let i = choose|i: int|
                    0 <= i < items.len() && #[trigger] items[i] == Err::<Value, Fault>(f);
                assert(!(items[i] is Ok));
            }
            return Err(DbError::CorruptKeyInMetaStore);
        },
    };
    let vals = &decoded.0;
    let mut names: Vec<String> = Vec::new();
    let mut i: usize = 1;
    while i < vals.len()
        invariant
            1 <= i <= vals@.len(),
            items == key_items(k_slice@),
            key_order(upper_bound@, k_slice@) == Order::Greater,
            !past_meta_store(items),
            vals@.len() == items.len(),
            forall|k: int| 0 <= k < items.len() ==> #[trigger] items[k] == Ok::<Value, Fault>(vals@[k]@),
            names@.len() == i - 1,
            forall|k: int| 1 <= k < i ==> (#[trigger] items[k])->Ok_0 is Str,
            forall|k: int| 0 <= k < i - 1 ==> (#[trigger] names@[k])@ == items[k + 1]->Ok_0->Str_0,
        decreases vals@.len() - i,
    {
        match &vals[i] {
            DataValue::Str(s) => {
                names.push(s.as_str().to_owned());
            },
            _ => {
                proof {
                    assert(!(items[i as int]->Ok_0 is Str));
                }
                return Err(DbError::CorruptKeyInMetaStore);
            },
        }
        i += 1;
    }
    proof {
        assert forall|k: int| 0 <= k < items.len() implies (#[trigger] items[k]) is Ok by {
            assert(items[k] == Ok::<Value, Fault>(vals@[k]@));
        }
        assert(meta_names(items) is Some);
        assert(meta_names(items)->Some_0 =~= strings_view(names@));
    }
    Ok(Some((names, slice_to_vec(v_slice))))
}

/// What is put under names is found under them: walking over the key of an
/// entry of the meta store gives the names of the entry back, and such a key
/// never lies past the meta store.
pub proof fn law_meta_key_names(names: Seq<Seq<char>>)
    requires
        encode_key(0, meta_values(names)).len() <= u32::MAX,
    ensures
        meta_names(key_items(encode_key(0, meta_values(names)))) == Some(names),
        !past_meta_store(key_items(encode_key(0, meta_values(names)))),
{
    let vals = meta_values(names);
    let items = key_items(encode_key(0, vals));
    law_key_roundtrip(0, vals);
    assert(items[0] == Ok::<Value, Fault>(vals[0]));
    assert forall|i: int| 1 <= i < items.len() implies (#[trigger] items[i])->Ok_0 is Str by {
        assert(items[i] == Ok::<Value, Fault>(vals[i]));
    }
    assert forall|i: int| 0 <= i < items.len() implies (#[trigger] items[i]) is Ok by {
        assert(items[i] == Ok::<Value, Fault>(vals[i]));
    }
    assert(meta_names(items)->Some_0 =~= names) by {
        assert forall|i: int| 0 <= i < names.len() implies meta_names(items)->Some_0[i]
            == names[i] by {
            assert(items[i + 1] == Ok::<Value, Fault>(vals[i + 1]));
        }
    }
}

/// The keys between which the catalog entries of all relations lie: the key
/// of the empty name, and the key of the name made of the last code point.
pub fn relation_list_bounds() -> (r: (Vec<u8>, Vec<u8>))
    ensures
        r.0@ == encode_key(0, seq![Value::Str(""@)]),
        r.1@ == encode_key(0, seq![Value::Str("\u{10ffff}"@)]),
{
    let mut first: Vec<DataValue> = Vec::new();
    first.push(DataValue::Str(Text::new("")));
    let mut last: Vec<DataValue> = Vec::new();
    last.push(DataValue::Str(Text::new("\u{10ffff}")));
    let lower = Tuple(first);
    let upper = Tuple(last);
    assert(lower@ =~= seq![Value::Str(""@)]);
    assert(upper@ =~= seq![Value::Str("\u{10ffff}"@)]);
    let partition = RelationId::system().partition();
    (lower.encode_as_key(partition), upper.encode_as_key(partition))
}

/// Every row lies strictly between the bounds of its relation, and so
/// between the bounds of all relations: a range delete between the bounds of
/// a relation takes all its rows, and a row that does not start with the
/// bottom sentinel is never a bound itself.
pub proof fn law_rows_within_bounds(partition: u32, row: Seq<Value>)
    requires
        encode_key(partition, row).len() <= u32::MAX,
        row.len() > 0,
        !(row[0] is Bot),
    ensures
        key_order(encode_key(partition, Seq::<Value>::empty()), encode_key(partition, row))
            == Order::Less,
        key_order(encode_key(partition, row), encode_key(partition, seq![Value::Bot]))
            == Order::Less,
        key_order(encode_key(0, Seq::<Value>::empty()), encode_key(partition, row)) == Order::Less,
        key_order(encode_key(partition, row), encode_key(u32::MAX, seq![Value::Bot]))
            == Order::Less,
{
    let none = Seq::<Value>::empty();
    let top = seq![Value::Bot];
    assert(encode_values(none).len() == 0);
    assert(top.drop_first() =~= none);
    assert(encode_values(top) == encode_value(top[0]) + encode_values(top.drop_first()));
    assert(value_order(row[0], top[0]) == Order::Less);
    assert(values_order(row, top) == Order::Less);
    law_key_order(partition, none, partition, row);
    law_key_order(partition, row, partition, top);
    law_key_order(0, none, partition, row);
    law_key_order(partition, row, u32::MAX, top);
}

/// The scan for the list of relations meets the catalog entry of every
/// relation whose name comes before the name made of the last code point,
/// and no entry of the meta store.
pub proof fn law_catalog_scan_range(name: Seq<char>, meta: Seq<Seq<char>>)
    requires
        encode_key(0, seq![Value::Str(name)]).len() <= u32::MAX,
        encode_key(0, meta_values(meta)).len() <= u32::MAX,
        chars_order(name, "\u{10ffff}"@) == Order::Less,
    ensures
        key_order(encode_key(0, seq![Value::Str(""@)]), encode_key(0, seq![Value::Str(name)]))
            != Order::Greater,
        key_order(
            encode_key(0, seq![Value::Str("\u{10ffff}"@)]),
            encode_key(0, seq![Value::Str(name)]),
        ) == Order::Greater,
        key_order(encode_key(0, meta_values(meta)), encode_key(0, seq![Value::Str(""@)]))
            == Order::Less,
{
    reveal_strlit("");
    reveal_strlit("\u{10ffff}");
    let lower = seq![Value::Str(""@)];
    let upper = seq![Value::Str("\u{10ffff}"@)];
    let key = seq![Value::Str(name)];
    lemma_single_key_len(""@);
    lemma_single_key_len("\u{10ffff}"@);
    law_key_order(0, lower, 0, key);
    law_key_order(0, upper, 0, key);
    law_key_order(0, meta_values(meta), 0, lower);
    assert(lower.drop_first() =~= Seq::<Value>::empty());
    assert(upper.drop_first() =~= Seq::<Value>::empty());
    assert(key.drop_first() =~= Seq::<Value>::empty());
    law_order_flips(Value::Str(name), Value::Str("\u{10ffff}"@));
    let none = Seq::<Value>::empty();
    assert(values_order(none, none) == Order::Equal);
    assert(values_order(lower, key) == match value_order(lower[0], key[0]) {
        Order::Equal => values_order(none, none),
        o => o,
    });
    assert(values_order(upper, key) == match value_order(upper[0], key[0]) {
        Order::Equal => values_order(none, none),
        o => o,
    });
    assert(meta_values(meta)[0] == Value::Guard);
    assert(value_order(meta_values(meta)[0], lower[0]) == Order::Less);
}

/// The key of a single short string is short.
proof fn lemma_single_key_len(s: Seq<char>)
    requires
        s.len() <= 1,
    ensures
        encode_key(0, seq![Value::Str(s)]).len() <= u32::MAX,
{
    let vals = seq![Value::Str(s)];
    assert(vals.drop_first() =~= Seq::<Value>::empty());
    assert(encode_values(Seq::<Value>::empty()).len() == 0);
    assert(encode_values(vals) == encode_value(vals[0]) + encode_values(vals.drop_first()));
    lemma_short_utf8(s);
}

/// A string of at most one character takes at most four bytes.
proof fn lemma_short_utf8(s: Seq<char>)
    requires
        s.len() <= 1,
    ensures
        encode_utf8(s).len() <= 4,
{
    if s.len() == 1 {
        assert(s.drop_first() =~= Seq::<char>::empty());
        assert(encode_utf8(s.drop_first()).len() == 0);
    }
}

/// The key under which the catalog keeps the entry of the relation `name`.
pub fn relation_catalog_key(name: &str) -> (key: Vec<u8>)
    ensures
        key@ == encode_key(0, seq![Value::Str(name@)]),
{
    let mut vals: Vec<DataValue> = Vec::new();
    vals.push(DataValue::Str(Text::new(name)));
    let t = Tuple(vals);
    assert(t@ =~= seq![Value::Str(name@)]);
    t.encode_as_key(RelationId::system().partition())
}

/// The keys between which all rows of the relation `id` lie. When the
/// relation is destroyed, this is the range to delete from the store, once
/// the transaction that took the relation out of the catalog is committed.
pub fn relation_data_bounds(id: RelationId) -> (r: (Vec<u8>, Vec<u8>))
    ensures
        r.0@ == encode_key(id.partition_of(), Seq::<Value>::empty()),
        r.1@ == encode_key(id.partition_of(), seq![Value::Bot]),
{
    let lower = Tuple::default();
    let mut top: Vec<DataValue> = Vec::new();
    top.push(DataValue::Bot);
    let upper = Tuple(top);
    assert(lower@ =~= Seq::<Value>::empty());
    assert(upper@ =~= seq![Value::Bot]);
    let partition = id.partition();
    (lower.encode_as_key(partition), upper.encode_as_key(partition))
}

impl SysOp {
    /// Whether the operation changes the catalog, and so needs a transaction
    /// that is committed.
    pub fn is_write(&self) -> (r: bool)
        ensures
            r == (self is RemoveRelation || self is RenameRelation),
    {
        match self {
            SysOp::RemoveRelation(_) => true,
            SysOp::RenameRelation(_, _) => true,
            _ => false,
        }
    }
}

impl Status {
    /// The acknowledgement of a request to kill a query.
    pub fn of_kill(k: KillStatus) -> (s: Status)
        ensures
            s == match k {
                KillStatus::Killing => Status::Killing,
                KillStatus::NotFound => Status::NotFound,
            },
    {
        match k {
            KillStatus::Killing => Status::Killing,
            KillStatus::NotFound => Status::NotFound,
        }
    }

    /// The written form of the acknowledgement.
    pub fn label(&self) -> (s: &'static str)
        ensures
            s@ == status_label(*self),
    {
        match self {
            Status::Okay => "OK",
            Status::Killing => "KILLING",
            Status::NotFound => "NOT_FOUND",
        }
    }
}

/// Whether a script writes: it does if one of its queries stores its rows in
/// a relation.
pub fn script_is_write(programs: &Vec<QueryOutOptions>) -> (r: bool)
    ensures
        r == exists|i: int| 0 <= i < programs@.len() && (#[trigger] programs@[i]).store_relation is Some,
{
    let mut i: usize = 0;
    while i < programs.len()
        invariant
            i <= programs@.len(),
            forall|k: int| 0 <= k < i ==> (#[trigger] programs@[k]).store_relation is None,
        decreases programs@.len() - i,
    {
        if programs[i].store_relation.is_some() {
            return true;
        }
        i += 1;
    }
    false
}

/// How a script ends once all its queries ran: a script that writes commits,
/// and the byte ranges that its queries left are cleared after the commit; a
/// script that does not write must not have left any.
pub fn finish_script(is_write: bool, cleanups: Vec<(Vec<u8>, Vec<u8>)>) -> (r: Result<
    ScriptEnd,
    DbError,
>)
    ensures
        match r {
            Ok(end) => {
                &&& end.commit == is_write
                &&& end.cleanups == cleanups
                &&& is_write || cleanups@.len() == 0
            },
            Err(e) => !is_write && cleanups@.len() > 0 && e is CleanupsWithoutWrite,
        },
{
    if !is_write && cleanups.len() > 0 {
        Err(DbError::CleanupsWithoutWrite)
    } else {
        Ok(ScriptEnd { commit: is_write, cleanups })
    }
}

/// Whether a query may write into its target: a relation is created only
/// under a name that is free; every other operation needs the relation to
/// exist, and all but a re-derivation need its columns to be those that the
/// query writes.
pub fn check_store_relation(
    op: RelationOp,
    meta: &InputRelationHandle,
    existing: Option<&RelationHandle>,
) -> (r: Result<(), DbError>)
    ensures
        match (op, existing) {
            (RelationOp::Create, Some(_)) => r matches Err(DbError::StoredRelationConflict(n))
                && n@ == meta.name@,
            (RelationOp::Create, None) => r is Ok,
            (_, None) => r matches Err(DbError::StoredRelationNotFound(n)) && n@ == meta.name@,
            (RelationOp::ReDerive, Some(_)) => r is Ok,
            (_, Some(h)) => if compatible(h.metadata, meta.metadata) {
                r is Ok
            } else {
                r matches Err(DbError::IncompatibleRelation(n)) && n@ == h.name@
            },
        },
{
    match op {
        RelationOp::Create => match existing {
            Some(_) => Err(DbError::StoredRelationConflict(meta.name.clone())),
            None => Ok(()),
        },
        RelationOp::ReDerive => match existing {
            Some(_) => Ok(()),
            None => Err(DbError::StoredRelationNotFound(meta.name.clone())),
        },
        _ => match existing {
            Some(h) => h.ensure_compatible(meta),
            None => Err(DbError::StoredRelationNotFound(meta.name.clone())),
        },
    }
}

impl QueryOutOptions {
    /// The number of rows after which nothing more is needed: the limit and
    /// the offset together, or the largest number if that is beyond it.
    /// Nothing if there is no limit.
    pub fn num_to_take(&self) -> (r: Option<usize>)
        ensures
            r == rows_needed(self.limit, self.offset),
    {
        match (self.limit, self.offset) {
            (None, _) => None,
            (Some(l), None) => Some(l),
            (Some(l), Some(o)) => Some(l.saturating_add(o)),
        }
    }

    /// The number of rows after which the evaluation may stop early. A query
    /// whose rows are sorted needs them all.
    pub fn evaluation_limit(&self) -> (r: Option<usize>)
        ensures
            r == if self.sorters@.len() == 0 {
                rows_needed(self.limit, self.offset)
            } else {
                None
            },
    {
        if self.sorters.len() == 0 {
            self.num_to_take()
        } else {
            None
        }
    }
}

/// Holds the first row of a result against what the query claims of its
/// result. A row that could not be read is an error of its own, whatever the
/// claim.
pub fn check_assertion(assertion: Option<QueryAssertion>, first: Option<Result<Tuple, DbError>>) -> (r:
    Result<(), DbError>)
    ensures
        match (assertion, first) {
            (None, _) => r is Ok,
            (Some(_), Some(Err(e))) => r == Err::<(), DbError>(e),
            (Some(QueryAssertion::AssertNone(span)), Some(Ok(t))) => r == Err::<(), DbError>(
                DbError::AssertNoneFailure(t, span),
            ),
            (Some(QueryAssertion::AssertNone(_)), None) => r is Ok,
            (Some(QueryAssertion::AssertSome(_)), Some(Ok(_))) => r is Ok,
            (Some(QueryAssertion::AssertSome(span)), None) => r == Err::<(), DbError>(
                DbError::AssertSomeFailure(span),
            ),
        },
{
    match assertion {
        None => Ok(()),
        Some(QueryAssertion::AssertNone(span)) => match first {
            Some(Ok(t)) => Err(DbError::AssertNoneFailure(t, span)),
            Some(Err(e)) => Err(e),
            None => Ok(()),
        },
        Some(QueryAssertion::AssertSome(span)) => match first {
            Some(Ok(_)) => Ok(()),
            Some(Err(e)) => Err(e),
            None => Err(DbError::AssertSomeFailure(span)),
        },
    }
}

/// The rows that are left of a result once `offset` rows are skipped and at
/// most `limit` rows are kept.
pub fn paginate<T>(mut rows: Vec<T>, offset: Option<usize>, limit: Option<usize>) -> (r: Vec<T>)
    ensures
        r@ == page(rows@, offset, limit),
{
    let ghost all = rows@;
    let len = rows.len();
    let skipped = match offset {
        Some(o) => if o < len {
            o
        } else {
            len
        },
        None => 0,
    };
    let taken = match limit {
        Some(l) => if l < len - skipped {
            l
        } else {
            len - skipped
        },
        None => len - skipped,
    };
    rows.truncate(skipped + taken);
    let r = rows.split_off(skipped);
    assert(r@ =~= page(all, offset, limit));
    r
}

} // verus!
