use pgcache_writer::catalog::ColumnMetadata;
use pgcache_writer::catalog::Row;
use pgcache_writer::catalog::TableMetadata;
use pgcache_writer::deleted_keys::PopulationDeletedKeys;
use pgcache_writer::deleted_keys::POPULATION_DELETED_KEY_CAP;
use pgcache_writer::event::FrameRowEvent;
use pgcache_writer::invalidation::eval_candidates;
use pgcache_writer::invalidation::join_membership_unchanged;
use pgcache_writer::invalidation::removed_candidates_collect;
use pgcache_writer::invalidation::row_changes_complete;
use pgcache_writer::invalidation::toast_fallback_structural_invalidate;
use pgcache_writer::invalidation::update_queries_check_invalidate;
use pgcache_writer::invalidation::CdcOperation;
use pgcache_writer::invalidation::ColumnChange;
use pgcache_writer::publication::ActiveRelations;
use pgcache_writer::publication::PublicationPlan;
use pgcache_writer::query::JoinColumn;
use pgcache_writer::query::QueryConstraints;
use pgcache_writer::query::RelationConstraints;
use pgcache_writer::query::SubqueryKind;
use pgcache_writer::query::TableConstraint;
use pgcache_writer::query::UpdateEvalStrategy;
use pgcache_writer::query::UpdateQueries;
use pgcache_writer::query::UpdateQuery;
use pgcache_writer::query::UpdateQuerySource;
use pgcache_writer::toast::toast_pass_one;
use pgcache_writer::toast::ToastState;
use pgcache_writer::values::bool_parse;
use pgcache_writer::values::int8_parse;
use pgcache_writer::values::unsigned_parse;
use pgcache_writer::values::BinaryOp;
use pgcache_writer::values::LiteralValue;
use std::collections::HashMap;

const USERS: u32 = 1001;

fn column(name: &str, position: u16, is_primary_key: bool, toastable: bool) -> ColumnMetadata {
    ColumnMetadata {
        name: name.to_owned(),
        position,
        type_oid: 25,
        source_type_name: "text".to_owned(),
        cache_type_name: "text".to_owned(),
        is_primary_key,
        toastable,
    }
}

fn users() -> TableMetadata {
    TableMetadata {
        relation_oid: USERS,
        name: "users".to_owned(),
        schema: "public".to_owned(),
        primary_key_columns: vec!["id".to_owned()],
        columns: vec![
            column("id", 1, true, false),
            column("name", 2, false, false),
            column("bio", 3, false, true),
        ],
    }
}

fn row(cells: &[Option<&str>]) -> Row {
    cells.iter().map(|c| c.map(|t| t.to_owned())).collect()
}

fn query(fingerprint: u64, source: UpdateQuerySource) -> UpdateQuery {
    UpdateQuery {
        fingerprint,
        source,
        has_limit: false,
        is_single_table: true,
        predicate_columns: vec!["name".to_owned()],
        limit_window_columns: Vec::new(),
        constraints: QueryConstraints::unconstrained(),
        eval_strategy: UpdateEvalStrategy::LocalEval,
        pg_batchable: false,
        change_dependent: false,
        compiled_where: None,
        occurrences: Vec::new(),
        unnest_sql: String::new(),
        batch_head: String::new(),
        batch_middle: String::new(),
        batch_tail: String::new(),
    }
}

fn named_alice(mut q: UpdateQuery) -> UpdateQuery {
    q.constraints.table_constraints.push(RelationConstraints {
        table: "users".to_owned(),
        constraints: vec![TableConstraint::Comparison(
            "name".to_owned(),
            BinaryOp::Equal,
            LiteralValue::String("alice".to_owned()),
        )],
    });
    q
}

fn queries(list: Vec<UpdateQuery>) -> UpdateQueries {
    UpdateQueries { queries: list }
}

fn alice() -> Row {
    row(&[Some("1"), Some("alice"), Some("x")])
}

fn bob() -> Row {
    row(&[Some("1"), Some("bob"), Some("x")])
}

#[test]
fn single_table_queries_are_maintained_in_place() {
    let u = queries(vec![query(1, UpdateQuerySource::FromClause)]);
    for operation in [CdcOperation::Upsert, CdcOperation::Delete] {
        assert!(update_queries_check_invalidate(&u, &users(), None, &alice(), None, operation)
            .is_empty());
    }
}

#[test]
fn a_joined_insert_invalidates_where_the_row_matters() {
    let mut q = named_alice(query(1, UpdateQuerySource::FromClause));
    q.is_single_table = false;
    let u = queries(vec![q]);
    assert_eq!(
        update_queries_check_invalidate(&u, &users(), None, &alice(), None, CdcOperation::Upsert),
        vec![1]
    );
    assert!(update_queries_check_invalidate(&u, &users(), None, &bob(), None, CdcOperation::Upsert)
        .is_empty());
}

#[test]
fn a_change_that_can_only_shrink_a_result_is_skipped() {
    let inclusion = query(1, UpdateQuerySource::Subquery(SubqueryKind::Inclusion));
    let exclusion = query(2, UpdateQuerySource::Subquery(SubqueryKind::Exclusion));
    let scalar = query(3, UpdateQuerySource::Subquery(SubqueryKind::Scalar));
    let u = queries(vec![inclusion, exclusion, scalar]);
    assert_eq!(
        update_queries_check_invalidate(&u, &users(), None, &alice(), None, CdcOperation::Upsert),
        vec![1, 3]
    );
    assert_eq!(
        update_queries_check_invalidate(&u, &users(), None, &alice(), None, CdcOperation::Delete),
        vec![2, 3]
    );
}

#[test]
fn the_terminal_side_of_an_outer_join_never_invalidates() {
    let u = queries(vec![
        query(1, UpdateQuerySource::OuterJoinTerminal),
        query(2, UpdateQuerySource::OuterJoinOptional),
    ]);
    assert_eq!(
        update_queries_check_invalidate(&u, &users(), None, &alice(), None, CdcOperation::Upsert),
        vec![2]
    );
}

#[test]
fn a_delete_refills_a_limited_query() {
    let mut q = query(1, UpdateQuerySource::FromClause);
    q.has_limit = true;
    let u = queries(vec![q]);
    assert_eq!(
        update_queries_check_invalidate(&u, &users(), None, &bob(), None, CdcOperation::Delete),
        vec![1]
    );
}

fn join_on(column: &str) -> UpdateQuery {
    let mut q = query(1, UpdateQuerySource::FromClause);
    q.is_single_table = false;
    q.constraints.join_columns.push(JoinColumn {
        table: "users".to_owned(),
        column: column.to_owned(),
    });
    q
}

#[test]
fn an_unchanged_key_keeps_joins_through_it() {
    let unchanged: Row = Vec::new();
    let changed = row(&[Some("9"), None, None]);
    assert!(join_membership_unchanged(&join_on("id"), &users(), Some(&unchanged)));
    assert!(!join_membership_unchanged(&join_on("id"), &users(), Some(&changed)));
    assert!(!join_membership_unchanged(&join_on("id"), &users(), None));
    assert!(!join_membership_unchanged(&join_on("name"), &users(), Some(&unchanged)));
}

#[test]
fn a_changed_join_column_invalidates() {
    let change = |column: &str, changed: bool| ColumnChange {
        column: column.to_owned(),
        changed,
        old_less: None,
        old_null: None,
    };
    let u = queries(vec![join_on("name")]);
    let moved = vec![change("id", false), change("name", true)];
    assert_eq!(
        update_queries_check_invalidate(
            &u,
            &users(),
            Some(&moved),
            &alice(),
            Some(&Vec::new()),
            CdcOperation::Upsert
        ),
        vec![1]
    );
    let still = vec![change("id", false), change("name", false)];
    assert!(update_queries_check_invalidate(
        &u,
        &users(),
        Some(&still),
        &alice(),
        Some(&Vec::new()),
        CdcOperation::Upsert
    )
    .is_empty());
}

#[test]
fn only_a_column_that_decides_has_to_be_compared() {
    let nothing: Vec<ColumnChange> = Vec::new();
    let joined = queries(vec![join_on("name")]);
    assert!(!row_changes_complete(&joined, &users(), &alice(), &nothing));
    let mut subquery = join_on("name");
    subquery.source = UpdateQuerySource::Subquery(SubqueryKind::Scalar);
    let decided = queries(vec![subquery]);
    assert!(row_changes_complete(&decided, &users(), &alice(), &nothing));
    assert_eq!(
        update_queries_check_invalidate(
            &decided,
            &users(),
            Some(&nothing),
            &alice(),
            Some(&Vec::new()),
            CdcOperation::Upsert
        ),
        vec![1]
    );
    let elsewhere = queries(vec![named_alice(join_on("name"))]);
    assert!(row_changes_complete(&elsewhere, &users(), &bob(), &nothing));
}

#[test]
fn candidates_and_removed_candidates() {
    let u = queries(vec![
        named_alice(query(1, UpdateQuerySource::FromClause)),
        query(2, UpdateQuerySource::FromClause),
    ]);
    assert_eq!(eval_candidates(&u, &users(), &alice()), vec![1, 2]);
    assert_eq!(eval_candidates(&u, &users(), &bob()), vec![2]);
    let key_only = row(&[Some("1"), None, None]);
    assert_eq!(
        removed_candidates_collect(&u, &users(), &key_only, false),
        vec![1, 2],
        "what is left out may have matched"
    );
    assert_eq!(removed_candidates_collect(&u, &users(), &bob(), false), vec![2]);
    assert_eq!(
        removed_candidates_collect(&u, &users(), &bob(), true),
        vec![1, 2],
        "only the key is that of the old version"
    );
}

#[test]
fn an_incomplete_image_is_judged_by_its_missing_columns() {
    let q = query(1, UpdateQuerySource::FromClause);
    let missing = |name: &str| vec![name.to_owned()];
    let key: Row = Vec::new();
    assert!(toast_fallback_structural_invalidate(&q, &users(), &alice(), &key, &missing("name")));
    assert!(!toast_fallback_structural_invalidate(&q, &users(), &alice(), &key, &missing("bio")));
    let mut limited = query(2, UpdateQuerySource::FromClause);
    limited.has_limit = true;
    assert!(toast_fallback_structural_invalidate(
        &limited,
        &users(),
        &alice(),
        &key,
        &missing("bio")
    ));
}

#[test]
fn deleted_keys_are_tracked_while_populations_run() {
    let mut keys = PopulationDeletedKeys::new();
    keys.record(7, "'1'".to_owned(), 10);
    assert!(!keys.is_tracked(7, &"'1'".to_owned()), "no population");
    keys.activate(1, 1, &vec![7]);
    keys.record(7, "'1'".to_owned(), 10);
    assert!(keys.is_tracked(7, &"'1'".to_owned()));
    let version = keys.filter_version(7);
    assert!(keys.cancel(7, &"'1'".to_owned()));
    assert!(!keys.cancel(7, &"'1'".to_owned()));
    keys.record(7, "'2'".to_owned(), 11);
    assert_ne!(keys.filter_version(7), version);
    assert_eq!(
        keys.filter_predicate(7, &"(\"id\")".to_owned()),
        Some("(\"id\") NOT IN (('2'))".to_owned())
    );
    keys.deactivate(1, 1, &vec![7]);
    assert!(!keys.is_recording(7));
}

#[test]
fn too_many_deleted_keys_make_populations_abort() {
    let mut keys = PopulationDeletedKeys::new();
    keys.activate(1, 1, &vec![7]);
    for i in 0..POPULATION_DELETED_KEY_CAP {
        keys.record(7, format!("{i}"), 10);
    }
    assert!(!keys.should_abort(7, 0));
    keys.record(7, "one more".to_owned(), 20);
    assert!(keys.should_abort(7, 19));
    assert!(!keys.should_abort(7, 20));
    assert!(keys.filter_predicate(7, &"(id)".to_owned()).is_none());
}

#[test]
fn relations_are_published_while_they_are_read() {
    let mut tables: HashMap<u32, TableMetadata> = HashMap::new();
    tables.insert(USERS, users());
    let name = "p".to_owned();
    let mut active = ActiveRelations::new();
    assert!(active.active_relations_acquire(&vec![USERS]));
    assert!(!active.active_relations_acquire(&vec![USERS]), "read twice, listed once");
    assert!(active.publication_dirty_drain(true, &name, &tables).is_none(), "locks are held");
    match active.publication_dirty_drain(false, &name, &tables) {
        Some(PublicationPlan::Alter { sql, removed }) => {
            assert_eq!(sql, "ALTER PUBLICATION p SET TABLE public.users");
            assert!(removed.is_empty());
        }
        _ => panic!("an alteration"),
    }
    active.publication_updated();
    assert!(!active.active_relations_release(&vec![USERS]));
    assert_eq!(active.active(), vec![USERS]);
    assert!(active.active_relations_release(&vec![USERS]));
    match active.publication_dirty_drain(false, &name, &tables) {
        Some(PublicationPlan::Alter { sql, removed }) => {
            assert_eq!(sql, "ALTER PUBLICATION p DROP TABLE public.users");
            assert_eq!(removed, vec![USERS]);
        }
        _ => panic!("an alteration"),
    }
}

#[test]
fn releasing_undoes_acquiring() {
    let mut active = ActiveRelations::new();
    active.active_relations_acquire(&vec![1, 2]);
    let counts = |a: &ActiveRelations| -> Vec<(u32, usize)> {
        a.counts.iter().map(|c| (c.oid, c.count)).collect()
    };
    let before = counts(&active);
    for (oids, changes) in [
        (vec![3, 2, 3, 3], true),
        (vec![2, 1, 2], false),
        (vec![], false),
        (vec![4, 5], true),
    ] {
        assert_eq!(active.active_relations_acquire(&oids), changes);
        assert_eq!(active.active_relations_release(&oids), changes);
        assert_eq!(counts(&active), before);
        assert_eq!(active.active(), vec![1, 2]);
        assert!(active.dirty);
    }
}

fn toasted(key: &str) -> FrameRowEvent {
    FrameRowEvent::UpdateToasted {
        relation_oid: USERS,
        key_data: Vec::new(),
        new_row_data: row(&[Some(key), Some("n"), None]),
        toasted: vec![2],
    }
}

fn pass_one(events: Vec<FrameRowEvent>) -> (Vec<FrameRowEvent>, usize) {
    let mut tables: HashMap<u32, TableMetadata> = HashMap::new();
    tables.insert(USERS, users());
    let mut toast = ToastState::new();
    let (events, pending) = toast_pass_one(&tables, &mut toast, events);
    (events, pending.len())
}

#[test]
fn the_last_write_of_the_batch_repairs_an_image() {
    let write = |bio: &str| FrameRowEvent::Insert {
        relation_oid: USERS,
        row_data: row(&[Some("1"), Some("n"), Some(bio)]),
    };
    let (events, pending) = pass_one(vec![write("old"), write("new"), toasted("1")]);
    assert_eq!(pending, 0);
    match &events[2] {
        FrameRowEvent::Update { new_row_data, .. } => {
            assert_eq!(new_row_data[2], Some("new".to_owned()));
        }
        _ => panic!("repaired"),
    }
}

#[test]
fn a_removed_row_repairs_nothing() {
    let gone = FrameRowEvent::Delete {
        relation_oid: USERS,
        row_data: row(&[Some("1"), None, None]),
    };
    let (events, pending) = pass_one(vec![gone, toasted("1")]);
    assert_eq!(pending, 0, "the cache table's image is that of a removed row");
    assert!(matches!(&events[1], FrameRowEvent::UpdateToastFallback { .. }));
}

#[test]
fn a_truncated_relation_repairs_nothing() {
    let truncate = FrameRowEvent::Truncate {
        relation_oids: vec![USERS],
    };
    let (events, pending) = pass_one(vec![truncate, toasted("1")]);
    assert_eq!(pending, 0);
    assert!(matches!(&events[1], FrameRowEvent::UpdateToastFallback { .. }));
}

#[test]
fn an_image_that_the_batch_does_not_know_awaits_the_table() {
    let (events, pending) = pass_one(vec![toasted("1")]);
    assert_eq!(pending, 1);
    assert!(matches!(&events[0], FrameRowEvent::UpdateToasted { .. }));
}

#[test]
fn numbers_and_booleans_are_parsed() {
    assert_eq!(int8_parse("-9223372036854775808"), Some(i64::MIN));
    assert_eq!(int8_parse("9223372036854775808"), None);
    assert_eq!(int8_parse("+7"), Some(7));
    assert_eq!(int8_parse("7x"), None);
    assert_eq!(unsigned_parse("18446744073709551615"), Some(u64::MAX));
    assert_eq!(unsigned_parse("18446744073709551616"), None);
    assert_eq!(unsigned_parse("+3"), Some(3));
    assert_eq!(unsigned_parse("-0"), None);
    assert_eq!(unsigned_parse(""), None);
    assert_eq!(bool_parse("yes"), Some(true));
    assert_eq!(bool_parse("off"), Some(false));
    assert_eq!(bool_parse("maybe"), None);
}
