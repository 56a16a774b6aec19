use cozo::data::key_order::compare;
use cozo::data::number::Order;
use cozo::data::tuple::{EncodedTuple, Tuple};
use cozo::data::text::Text;
use cozo::data::value::DataValue;
use cozo::runtime::cancel::{
    end_of_round, killed_result, KillStatus, Poison, RoundStep, RunningQueries,
    RunningQueryHandle,
};
use cozo::runtime::db::{
    before_bound, check_assertion, check_manifest, check_store_relation, finish_script, meta_key,
    meta_scan_bounds, meta_scan_entry, paginate, relation_catalog_key, relation_data_bounds,
    relation_list_bounds, relation_space_bounds, script_is_write, storage_config, CompactTarget, DbManifest, QueryAssertion, QueryOutOptions,
    RelationOp, SortDir, Status, SysOp, CURRENT_STORAGE_VERSION, SCRATCH_DB_KEY_PREFIX_LEN,
};
use cozo::runtime::error::{DbError, SourceSpan};
use cozo::runtime::relation::{
    create_relation, found_relation, rename_relation, ColType, ColumnDef, ColumnSummary,
    InputRelationHandle, NullableColType, RelationHandle, RelationId, RelationSummary,
    StoredRelationMetadata,
};

fn col(name: &str, coltype: ColType, nullable: bool, has_default: bool) -> ColumnDef {
    ColumnDef {
        name: name.to_string(),
        typing: NullableColType { coltype, nullable },
        has_default,
    }
}

fn relation_a() -> RelationHandle {
    RelationHandle {
        name: "A".to_string(),
        id: RelationId(1),
        metadata: StoredRelationMetadata {
            keys: vec![col("k", ColType::Int, false, false)],
            dependents: vec![col("v", ColType::Str, true, true)],
        },
    }
}

fn relation_b() -> RelationHandle {
    RelationHandle {
        name: "B".to_string(),
        id: RelationId(2),
        metadata: StoredRelationMetadata {
            keys: vec![
                col("x", ColType::Any, false, false),
                col("y", ColType::Float, false, false),
            ],
            dependents: vec![col("z", ColType::List, false, false)],
        },
    }
}

fn head_of(h: &RelationHandle) -> InputRelationHandle {
    let copy = |cols: &Vec<ColumnDef>| -> Vec<ColumnDef> {
        cols.iter()
            .map(|c| ColumnDef {
                name: c.name.clone(),
                typing: c.typing,
                has_default: false,
            })
            .collect()
    };
    InputRelationHandle {
        name: h.name.clone(),
        metadata: StoredRelationMetadata {
            keys: copy(&h.metadata.keys),
            dependents: copy(&h.metadata.dependents),
        },
    }
}

fn options() -> QueryOutOptions {
    QueryOutOptions {
        limit: None,
        offset: None,
        timeout: None,
        sorters: vec![],
        store_relation: None,
        assertion: None,
    }
}

#[test]
fn a_store_without_manifest_is_new() {
    assert_eq!(check_manifest(None), Ok(true));
    assert_eq!(DbManifest::current().storage_version, 1);
    assert_eq!(CURRENT_STORAGE_VERSION, 1);
    assert_eq!(check_manifest(Some(DbManifest::current())), Ok(false));
}

#[test]
fn a_manifest_of_another_version_forbids_opening() {
    assert_eq!(
        check_manifest(Some(DbManifest { storage_version: 2 })),
        Err(DbError::UnknownStorageVersion(2))
    );
    assert_eq!(
        check_manifest(Some(DbManifest { storage_version: 0 })),
        Err(DbError::UnknownStorageVersion(0))
    );
}

#[test]
fn the_engine_is_set_up_with_the_prefix_of_the_codec() {
    let new = storage_config(true);
    assert!(new.create_if_missing);
    assert_eq!(new.prefix_len, 4);
    assert_eq!(SCRATCH_DB_KEY_PREFIX_LEN, 4);
    assert!(new.use_bloom_filter);
    assert_eq!(new.pri_comparator_name, "cozo_rusty_cmp");
    assert_eq!(new.snd_comparator_name, "cozo_rusty_scratch_cmp");
    assert!(!storage_config(false).create_if_missing);
}

#[test]
fn create_needs_a_free_name_and_put_needs_the_relation() {
    let r = relation_a();
    let head = head_of(&r);
    // the relation does not exist yet: it can be created, and not written
    assert_eq!(check_store_relation(RelationOp::Create, &head, None), Ok(()));
    assert_eq!(
        check_store_relation(RelationOp::Put, &head, None),
        Err(DbError::StoredRelationNotFound("A".to_string()))
    );
    assert_eq!(
        check_store_relation(RelationOp::Retract, &head, None),
        Err(DbError::StoredRelationNotFound("A".to_string()))
    );
    assert_eq!(
        check_store_relation(RelationOp::ReDerive, &head, None),
        Err(DbError::StoredRelationNotFound("A".to_string()))
    );
    // once it exists, a second creation is a conflict
    assert_eq!(
        check_store_relation(RelationOp::Create, &head, Some(&r)),
        Err(DbError::StoredRelationConflict("A".to_string()))
    );
    assert_eq!(check_store_relation(RelationOp::Put, &head, Some(&r)), Ok(()));
    assert_eq!(check_store_relation(RelationOp::Retract, &head, Some(&r)), Ok(()));
    assert_eq!(check_store_relation(RelationOp::ReDerive, &head, Some(&r)), Ok(()));
}

#[test]
fn writes_need_matching_columns() {
    let r = relation_a();
    let mut other = head_of(&relation_b());
    other.name = "A".to_string();
    assert_eq!(
        check_store_relation(RelationOp::Put, &other, Some(&r)),
        Err(DbError::IncompatibleRelation("A".to_string()))
    );
    // a re-derivation does not look at the columns
    assert_eq!(check_store_relation(RelationOp::ReDerive, &other, Some(&r)), Ok(()));

    let mut renamed = head_of(&r);
    renamed.metadata.dependents[0].name = "w".to_string();
    assert_eq!(
        r.ensure_compatible(&renamed),
        Err(DbError::IncompatibleRelation("A".to_string()))
    );
    let mut retyped = head_of(&r);
    retyped.metadata.keys[0].typing.nullable = true;
    assert_eq!(
        r.ensure_compatible(&retyped),
        Err(DbError::IncompatibleRelation("A".to_string()))
    );
    let mut shorter = head_of(&r);
    shorter.metadata.dependents.clear();
    assert_eq!(
        r.ensure_compatible(&shorter),
        Err(DbError::IncompatibleRelation("A".to_string()))
    );
    let mut moved = head_of(&r);
    let c = moved.metadata.dependents.pop().unwrap();
    moved.metadata.keys.push(c);
    assert_eq!(
        r.ensure_compatible(&moved),
        Err(DbError::IncompatibleRelation("A".to_string()))
    );
    assert_eq!(r.ensure_compatible(&head_of(&r)), Ok(()));
}

#[test]
fn assertions_on_the_result() {
    let span = SourceSpan(3, 14);
    let row = || Tuple(vec![DataValue::Int(1)]);
    assert_eq!(
        check_assertion(Some(QueryAssertion::AssertSome(span)), None),
        Err(DbError::AssertSomeFailure(span))
    );
    assert_eq!(
        check_assertion(Some(QueryAssertion::AssertSome(span)), Some(Ok(row()))),
        Ok(())
    );
    assert_eq!(
        check_assertion(Some(QueryAssertion::AssertNone(span)), Some(Ok(row()))),
        Err(DbError::AssertNoneFailure(row(), span))
    );
    assert_eq!(check_assertion(Some(QueryAssertion::AssertNone(span)), None), Ok(()));
    assert_eq!(check_assertion(None, None), Ok(()));
    assert_eq!(check_assertion(None, Some(Ok(row()))), Ok(()));
    assert_eq!(check_assertion(None, Some(Err(DbError::ProcessKilled))), Ok(()));
    assert_eq!(
        check_assertion(
            Some(QueryAssertion::AssertSome(span)),
            Some(Err(DbError::CorruptKeyInMetaStore))
        ),
        Err(DbError::CorruptKeyInMetaStore)
    );
    assert_eq!(
        check_assertion(
            Some(QueryAssertion::AssertNone(span)),
            Some(Err(DbError::ProcessKilled))
        ),
        Err(DbError::ProcessKilled)
    );
}

#[test]
fn the_list_of_relations_is_sorted_by_name() {
    let (lower, upper) = relation_list_bounds();
    // the catalog as the store holds it: sorted by the comparator
    let mut catalog: Vec<(Vec<u8>, RelationHandle)> = vec![relation_b(), relation_a()]
        .into_iter()
        .map(|h| {
            let key = Tuple(vec![DataValue::Str(Text::new(&h.name))])
                .encode_as_key(RelationId::system().partition());
            (key, h)
        })
        .collect();
    catalog.sort_by(|x, y| cozo::data::key_order::compare_tuple_keys(&x.0, &y.0));
    // an entry of the meta store, which the scan must not reach
    let meta = meta_key(&["x"]);
    assert_eq!(compare(&meta, &lower), Order::Less);

    let mut rows = vec![];
    for (key, handle) in &catalog {
        assert_ne!(compare(key, &lower), Order::Less);
        if !before_bound(&upper, key) {
            break;
        }
        rows.push(handle.summary());
    }
    assert_eq!(
        rows,
        vec![
            RelationSummary {
                name: "A".to_string(),
                arity: 2,
                n_keys: 1,
                n_dependents: 1
            },
            RelationSummary {
                name: "B".to_string(),
                arity: 3,
                n_keys: 2,
                n_dependents: 1
            },
        ]
    );
}

#[test]
fn the_columns_of_a_relation() {
    assert_eq!(
        relation_a().columns(),
        vec![
            ColumnSummary {
                name: "k".to_string(),
                is_key: true,
                index: 0,
                typing: "Int".to_string(),
                has_default: false
            },
            ColumnSummary {
                name: "v".to_string(),
                is_key: false,
                index: 1,
                typing: "String?".to_string(),
                has_default: true
            },
        ]
    );
    let b = relation_b().columns();
    assert_eq!(b.len(), 3);
    assert_eq!(b[1].typing, "Float");
    assert_eq!(b[1].index, 1);
    assert!(b[1].is_key);
    assert_eq!(b[2].typing, "List");
    assert_eq!(b[2].index, 2);
    assert!(!b[2].is_key);
    for (t, name) in [
        (ColType::Any, "Any"),
        (ColType::Bool, "Bool"),
        (ColType::Int, "Int"),
        (ColType::Float, "Float"),
        (ColType::Str, "String"),
        (ColType::List, "List"),
    ] {
        assert_eq!(NullableColType { coltype: t, nullable: false }.to_text(), name);
        assert_eq!(
            NullableColType { coltype: t, nullable: true }.to_text(),
            format!("{}?", name)
        );
    }
}

#[test]
fn relation_ids_and_partitions() {
    assert_eq!(RelationId::system(), RelationId(0));
    assert_eq!(RelationId(0).partition(), 0);
    assert_eq!(RelationId(77).partition(), 77);
    assert_eq!(RelationId(u32::MAX as u64).partition(), u32::MAX);
    assert_eq!(RelationId(u32::MAX as u64 + 1).partition(), u32::MAX);
    assert_eq!(RelationId(u64::MAX).partition(), u32::MAX);
}

#[test]
fn all_relations_lie_within_the_bounds_of_a_compaction() {
    let (lower, upper) = relation_space_bounds();
    assert_eq!(lower, Tuple(vec![]).encode_as_key(0));
    assert_eq!(upper, Tuple(vec![DataValue::Bot]).encode_as_key(u32::MAX));
    for prefix in [0, 1, 1000, u32::MAX] {
        for t in [
            vec![],
            vec![DataValue::Guard],
            vec![DataValue::Int(5), DataValue::Str(Text::new("x"))],
            vec![DataValue::Bot],
        ] {
            let key = Tuple(t).encode_as_key(prefix);
            assert_ne!(compare(&key, &lower), Order::Less);
            assert_ne!(compare(&key, &upper), Order::Greater);
        }
    }
}

#[test]
fn keys_of_the_meta_store() {
    let key = meta_key(&["a", "bc"]);
    let expected = Tuple(vec![
        DataValue::Guard,
        DataValue::Str(Text::new("a")),
        DataValue::Str(Text::new("bc")),
    ])
    .encode_as_key(0);
    assert_eq!(key, expected);
    assert_eq!(meta_key(&[]), Tuple(vec![DataValue::Guard]).encode_as_key(0));

    let (lower, upper) = meta_scan_bounds(&["a"]);
    assert_eq!(
        lower,
        Tuple(vec![DataValue::Guard, DataValue::Str(Text::new("a"))]).encode_as_key(0)
    );
    assert_eq!(upper, Tuple(vec![DataValue::Bot]).encode_as_key(0));
    assert_eq!(compare(&lower, &key), Order::Less);
    assert!(before_bound(&upper, &key));
    assert!(!before_bound(&upper, &upper));
    assert!(!before_bound(&lower, &key));
}

#[test]
fn a_scan_of_the_meta_store() {
    let (_, upper) = meta_scan_bounds(&[]);
    let key = meta_key(&["a", "bc"]);
    assert_eq!(
        meta_scan_entry(&upper, &key, &[1, 2, 3]),
        Ok(Some((vec!["a".to_string(), "bc".to_string()], vec![1, 2, 3])))
    );
    assert_eq!(
        meta_scan_entry(&upper, &meta_key(&[]), &[]),
        Ok(Some((vec![], vec![])))
    );
    // the bound itself, and what lies beyond it, end the scan
    assert_eq!(meta_scan_entry(&upper, &upper, &[9]), Ok(None));
    let beyond = Tuple(vec![DataValue::Guard]).encode_as_key(1);
    assert_eq!(meta_scan_entry(&upper, &beyond, &[9]), Ok(None));
    // a name that is no string
    let odd = Tuple(vec![DataValue::Guard, DataValue::Int(1)]).encode_as_key(0);
    assert_eq!(
        meta_scan_entry(&upper, &odd, &[9]),
        Err(DbError::CorruptKeyInMetaStore)
    );
    // a key that cannot be read
    let mut damaged = key.clone();
    let last = damaged.len() - 1;
    damaged.truncate(last);
    assert!(EncodedTuple(&damaged).decode().is_err());
    assert_eq!(
        meta_scan_entry(&upper, &damaged, &[9]),
        Err(DbError::CorruptKeyInMetaStore)
    );
    // a key that does not start with the guard lies past the meta store
    let plain = Tuple(vec![DataValue::Int(1), DataValue::Str(Text::new("n"))]).encode_as_key(0);
    assert_eq!(meta_scan_entry(&upper, &plain, &[7]), Ok(None));
    assert_eq!(meta_scan_entry(&upper, &relation_catalog_key("A"), &[7]), Ok(None));
    assert_eq!(compare(&key, &relation_catalog_key("")), Order::Less);
    // a key without values is no key of the meta store
    assert_eq!(
        meta_scan_entry(&upper, &Tuple::default().encode_as_key(0), &[7]),
        Err(DbError::CorruptKeyInMetaStore)
    );
    assert_eq!(
        meta_scan_entry(&upper, &[0, 0, 0, 0, 0], &[7]),
        Err(DbError::CorruptKeyInMetaStore)
    );
}

#[test]
fn limit_and_offset() {
    let mut o = options();
    assert_eq!(o.num_to_take(), None);
    assert_eq!(o.evaluation_limit(), None);
    o.offset = Some(4);
    assert_eq!(o.num_to_take(), None);
    o.limit = Some(10);
    assert_eq!(o.num_to_take(), Some(14));
    assert_eq!(o.evaluation_limit(), Some(14));
    o.offset = None;
    assert_eq!(o.num_to_take(), Some(10));
    o.offset = Some(usize::MAX);
    assert_eq!(o.num_to_take(), Some(usize::MAX));
    o.sorters = vec![("a".to_string(), SortDir::Dsc)];
    assert_eq!(o.num_to_take(), Some(usize::MAX));
    assert_eq!(o.evaluation_limit(), None);

    let rows = || vec![10, 11, 12, 13, 14];
    assert_eq!(paginate(rows(), None, None), rows());
    assert_eq!(paginate(rows(), Some(2), None), vec![12, 13, 14]);
    assert_eq!(paginate(rows(), None, Some(2)), vec![10, 11]);
    assert_eq!(paginate(rows(), Some(1), Some(3)), vec![11, 12, 13]);
    assert_eq!(paginate(rows(), Some(4), Some(3)), vec![14]);
    assert_eq!(paginate(rows(), Some(5), Some(3)), Vec::<i32>::new());
    assert_eq!(paginate(rows(), Some(usize::MAX), Some(usize::MAX)), Vec::<i32>::new());
    assert_eq!(paginate(rows(), Some(0), Some(0)), Vec::<i32>::new());
    assert_eq!(paginate(rows(), None, Some(usize::MAX)), rows());
    assert_eq!(paginate(Vec::<i32>::new(), Some(1), Some(1)), Vec::<i32>::new());
}

#[test]
fn scripts_that_write_commit_and_clean_up() {
    let mut writing = options();
    writing.store_relation = Some((head_of(&relation_a()), RelationOp::Put));
    assert!(!script_is_write(&vec![]));
    assert!(!script_is_write(&vec![options(), options()]));
    assert!(script_is_write(&vec![options(), writing]));

    let range = (vec![1u8], vec![2u8]);
    let end = finish_script(true, vec![range.clone()]).unwrap();
    assert!(end.commit);
    assert_eq!(end.cleanups, vec![range.clone()]);
    let end = finish_script(true, vec![]).unwrap();
    assert!(end.commit);
    assert!(end.cleanups.is_empty());
    let end = finish_script(false, vec![]).unwrap();
    assert!(!end.commit);
    assert!(end.cleanups.is_empty());
    assert_eq!(
        finish_script(false, vec![range]).err(),
        Some(DbError::CleanupsWithoutWrite)
    );
}

#[test]
fn administrative_operations() {
    assert!(SysOp::RemoveRelation("r".to_string()).is_write());
    assert!(SysOp::RenameRelation("r".to_string(), "s".to_string()).is_write());
    assert!(!SysOp::ListRelations.is_write());
    assert!(!SysOp::ListRunning.is_write());
    assert!(!SysOp::KillRunning(1).is_write());
    assert!(!SysOp::ListRelation("r".to_string()).is_write());
    assert!(!SysOp::Compact(vec![CompactTarget::Relations]).is_write());
    assert_eq!(Status::Okay.label(), "OK");
    assert_eq!(Status::Killing.label(), "KILLING");
    assert_eq!(Status::NotFound.label(), "NOT_FOUND");
    assert_eq!(Status::of_kill(KillStatus::Killing), Status::Killing);
    assert_eq!(Status::of_kill(KillStatus::NotFound), Status::NotFound);
}

#[test]
fn a_poison_is_shared_and_stays_set() {
    let poison = Poison::new();
    let copy = poison.clone();
    assert!(!poison.is_set());
    assert_eq!(poison.check(), Ok(()));
    copy.set();
    assert!(poison.is_set());
    assert_eq!(poison.check(), Err(DbError::ProcessKilled));
    copy.set();
    assert_eq!(copy.check(), Err(DbError::ProcessKilled));
    assert_eq!(killed_result(false), Ok(()));
    assert_eq!(killed_result(true), Err(DbError::ProcessKilled));
}

#[test]
fn the_registry_of_running_queries() {
    let mut running = RunningQueries::new();
    assert!(running.list().is_empty());
    assert_eq!(running.kill(0), KillStatus::NotFound);
    assert!(!running.finish(0));

    let first = Poison::new();
    let second = Poison::new();
    let third = Poison::new();
    let a = running
        .register(RunningQueryHandle { started_at: 1.5f64.to_bits(), poison: first.clone() })
        .unwrap();
    let b = running
        .register(RunningQueryHandle { started_at: 2.5f64.to_bits(), poison: second.clone() })
        .unwrap();
    let c = running
        .register(RunningQueryHandle { started_at: 3.5f64.to_bits(), poison: third.clone() })
        .unwrap();
    assert_eq!((a, b, c), (0, 1, 2));
    assert_eq!(
        running.list(),
        vec![(0, 1.5f64.to_bits()), (1, 2.5f64.to_bits()), (2, 3.5f64.to_bits())]
    );

    // killing sets the flag and leaves the query in the registry
    assert_eq!(running.kill(b), KillStatus::Killing);
    assert!(second.is_set());
    assert!(!first.is_set());
    assert_eq!(running.list().len(), 3);

    // finishing takes the query out and sets its flag, so that a timer that
    // fires later changes nothing
    assert!(running.finish(a));
    assert!(first.is_set());
    assert_eq!(running.list(), vec![(1, 2.5f64.to_bits()), (2, 3.5f64.to_bits())]);
    assert_eq!(running.kill(a), KillStatus::NotFound);
    assert!(!running.finish(a));
    assert!(!running.finish(99));
    assert!(!third.is_set());

    // ids are not given out twice
    let d = running
        .register(RunningQueryHandle { started_at: 0, poison: Poison::new() })
        .unwrap();
    assert_eq!(d, 3);
    assert!(running.finish(b));
    assert!(running.finish(c));
    assert!(running.finish(d));
    assert!(running.list().is_empty());
}

#[test]
fn a_killed_query_stops_at_the_end_of_the_round() {
    assert_eq!(end_of_round(false, true), Ok(RoundStep::Again));
    assert_eq!(end_of_round(false, false), Ok(RoundStep::Complete));
    assert_eq!(end_of_round(true, true), Err(DbError::ProcessKilled));
    assert_eq!(end_of_round(true, false), Err(DbError::ProcessKilled));

    // a fixpoint that would take ten rounds, killed during the third
    let poison = Poison::default();
    let mut rounds = 0;
    let outcome = loop {
        rounds += 1;
        if rounds == 3 {
            poison.clone().set();
        }
        match end_of_round(poison.is_set(), rounds < 10) {
            Ok(RoundStep::Again) => continue,
            Ok(RoundStep::Complete) => break Ok(rounds),
            Err(e) => break Err(e),
        }
    };
    assert_eq!(outcome, Err(DbError::ProcessKilled));
    assert_eq!(rounds, 3);
}

#[test]
fn catalog_keys_and_the_rows_of_a_relation() {
    assert_eq!(
        relation_catalog_key("R"),
        Tuple(vec![DataValue::Str(Text::new("R"))]).encode_as_key(0)
    );
    let (lower, upper) = relation_list_bounds();
    assert_eq!(lower, relation_catalog_key(""));
    assert_eq!(upper, relation_catalog_key("\u{10ffff}"));
    let key = relation_catalog_key("some relation");
    assert_eq!(compare(&lower, &key), Order::Less);
    assert!(before_bound(&upper, &key));

    let (lower, upper) = relation_data_bounds(RelationId(7));
    assert_eq!(lower, Tuple::default().encode_as_key(7));
    assert_eq!(upper, Tuple(vec![DataValue::Bot]).encode_as_key(7));
    let row = Tuple(vec![DataValue::Int(1), DataValue::Str(Text::new("x"))]);
    assert_eq!(compare(&lower, &row.encode_as_key(7)), Order::Less);
    assert_eq!(compare(&row.encode_as_key(7), &upper), Order::Less);
    assert_eq!(compare(&row.encode_as_key(8), &upper), Order::Greater);
    assert_eq!(compare(&row.encode_as_key(6), &lower), Order::Less);

    assert_eq!(RelationId(7).next(), Some(RelationId(8)));
    assert_eq!(RelationId(u64::MAX).next(), None);
}

#[test]
fn copies_stand_for_the_same_values() {
    let t = Tuple(vec![
        DataValue::List(vec![DataValue::Str(Text::new("a")), DataValue::List(vec![])]),
        DataValue::Float(1.25f64.to_bits()),
        DataValue::Guard,
    ]);
    assert_eq!(t.clone(), t);
    assert_eq!(t.0[0].clone(), t.0[0]);
    assert_eq!(Tuple::default(), Tuple(vec![]));
    let key = t.encode_as_key(3);
    let from: EncodedTuple = (&key as &[u8]).into();
    assert_eq!(from.decode(), Ok(t));
}

#[test]
fn the_catalog_creates_finds_and_renames() {
    let head = head_of(&relation_a());
    let created = create_relation(head_of(&relation_a()), false, RelationId(41)).unwrap();
    assert_eq!(created.name, "A");
    assert_eq!(created.id, RelationId(42));
    assert_eq!(created.ensure_compatible(&head), Ok(()));
    assert_eq!(
        create_relation(head_of(&relation_a()), true, RelationId(41)).err(),
        Some(DbError::StoredRelationConflict("A".to_string()))
    );
    assert_eq!(
        create_relation(head_of(&relation_a()), false, RelationId(u64::MAX)).err(),
        Some(DbError::RelationIdsExhausted)
    );
    assert_eq!(
        create_relation(head_of(&relation_a()), false, RelationId(u32::MAX as u64)).err(),
        Some(DbError::RelationIdsExhausted)
    );
    let last = create_relation(head_of(&relation_a()), false, RelationId(u32::MAX as u64 - 1))
        .unwrap();
    assert_eq!(last.id, RelationId(u32::MAX as u64));
    assert_eq!(last.id.partition(), u32::MAX);

    assert_eq!(
        found_relation("A", None).err(),
        Some(DbError::StoredRelationNotFound("A".to_string()))
    );
    assert_eq!(found_relation("A", Some(relation_a())).unwrap().id, RelationId(1));

    let renamed = rename_relation("A", Some(relation_a()), "C", false).unwrap();
    assert_eq!(renamed.name, "C");
    assert_eq!(renamed.id, RelationId(1));
    assert_eq!(renamed.columns(), relation_a().columns());
    assert_eq!(
        rename_relation("A", Some(relation_a()), "B", true).err(),
        Some(DbError::StoredRelationConflict("B".to_string()))
    );
    assert_eq!(
        rename_relation("A", None, "C", false).err(),
        Some(DbError::StoredRelationNotFound("A".to_string()))
    );
    assert_eq!(
        rename_relation("A", None, "B", true).err(),
        Some(DbError::StoredRelationConflict("B".to_string()))
    );
}
