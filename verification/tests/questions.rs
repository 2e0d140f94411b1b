use pgcache_writer::catalog::ColumnMetadata;
use pgcache_writer::catalog::Row;
use pgcache_writer::catalog::TableMetadata;
use pgcache_writer::error::CacheError;
use pgcache_writer::eval_sql::membership_inline_sql;
use pgcache_writer::eval_sql::membership_select_sql;
use pgcache_writer::eval_sql::pg_bool_text;
use pgcache_writer::eval_sql::query_row_changes_sql;
use pgcache_writer::eval_sql::relation_order_columns;
use pgcache_writer::eval_sql::row_change_inline_sql;
use pgcache_writer::eval_sql::row_change_join_on_into;
use pgcache_writer::eval_sql::row_change_prepared_sql;
use pgcache_writer::eval_sql::row_change_select_into;
use pgcache_writer::eval_sql::row_changes_read;
use pgcache_writer::query::QueryConstraints;
use pgcache_writer::query::TemplatePiece;
use pgcache_writer::query::UpdateEvalStrategy;
use pgcache_writer::query::UpdateQueries;
use pgcache_writer::query::UpdateQuery;
use pgcache_writer::query::UpdateQuerySource;
use pgcache_writer::segment::chunk_arrays_build;
use pgcache_writer::segment::ordinal_hits_fold;
use pgcache_writer::segment::pair_hits_fold;
use pgcache_writer::segment::Hit;

fn column(name: &str, position: u16, is_primary_key: bool) -> ColumnMetadata {
    ColumnMetadata {
        name: name.to_owned(),
        position,
        type_oid: 25,
        source_type_name: "text".to_owned(),
        cache_type_name: "text".to_owned(),
        is_primary_key,
        toastable: false,
    }
}

fn users() -> TableMetadata {
    TableMetadata {
        relation_oid: 1001,
        name: "users".to_owned(),
        schema: "public".to_owned(),
        primary_key_columns: vec!["id".to_owned()],
        columns: vec![column("id", 1, true), column("name", 2, false)],
    }
}

fn row(cells: &[Option<&str>]) -> Row {
    cells.iter().map(|c| c.map(|t| t.to_owned())).collect()
}

fn query(fingerprint: u64) -> UpdateQuery {
    UpdateQuery {
        fingerprint,
        source: UpdateQuerySource::FromClause,
        has_limit: true,
        is_single_table: true,
        predicate_columns: Vec::new(),
        limit_window_columns: vec!["name".to_owned()],
        constraints: QueryConstraints::unconstrained(),
        eval_strategy: UpdateEvalStrategy::PgEval,
        pg_batchable: true,
        change_dependent: true,
        compiled_where: None,
        occurrences: vec![vec![
            TemplatePiece::Text("SELECT 1 WHERE ".to_owned()),
            TemplatePiece::Cell(1),
            TemplatePiece::Text(" = 'a'".to_owned()),
        ]],
        unnest_sql: String::new(),
        batch_head: "SELECT ".to_owned(),
        batch_middle: ", i FROM (VALUES ".to_owned(),
        batch_tail: ") v".to_owned(),
    }
}

#[test]
fn the_select_list_compares_each_column() {
    let mut buf = String::new();
    row_change_select_into(&mut buf, &users(), &Vec::new());
    assert_eq!(
        buf,
        "SELECT v.pgcache_idx, o.id IS DISTINCT FROM v.id AS id, \
         o.name IS DISTINCT FROM v.name AS name"
    );
    let mut buf = String::new();
    row_change_select_into(&mut buf, &users(), &vec!["name".to_owned()]);
    assert!(
        buf.ends_with(
            ", o.name < v.name AS pgcache_lt_name, o.name IS NULL AS pgcache_null_name"
        ),
        "{buf}"
    );
}

#[test]
fn the_join_goes_by_the_key() {
    let mut buf = String::new();
    row_change_join_on_into(&mut buf, &users());
    assert_eq!(buf, " JOIN public.users o ON o.id = v.id");
    let mut wide = users();
    wide.primary_key_columns.push("name".to_owned());
    let mut buf = String::new();
    row_change_join_on_into(&mut buf, &wide);
    assert_eq!(buf, " JOIN public.users o ON o.id = v.id AND o.name = v.name");
}

#[test]
fn the_prepared_statement_takes_arrays() {
    assert_eq!(
        row_change_prepared_sql(&users(), &Vec::new()),
        "SELECT v.pgcache_idx, o.id IS DISTINCT FROM v.id AS id, \
         o.name IS DISTINCT FROM v.name AS name \
         FROM (SELECT unnest($1::int4[]) AS pgcache_idx, unnest($2::text[])::text AS id, \
         unnest($3::text[])::text AS name) AS v JOIN public.users o ON o.id = v.id"
    );
}

#[test]
fn the_inline_statement_writes_the_values_out() {
    let a = row(&[Some("1"), Some("x")]);
    let b = row(&[Some("2"), None]);
    assert_eq!(
        row_change_inline_sql(&users(), &Vec::new(), &vec![&a, &b]),
        "SELECT v.pgcache_idx, o.id IS DISTINCT FROM v.id AS id, \
         o.name IS DISTINCT FROM v.name AS name \
         FROM (VALUES (0, '1'::text, 'x'::text), (1, '2'::text, NULL::text)) \
         AS v(pgcache_idx, id, name) JOIN public.users o ON o.id = v.id"
    );
}

#[test]
fn one_row_is_compared_by_its_key() {
    let sql = query_row_changes_sql(&users(), &row(&[Some("1"), Some("x")])).expect("keyed");
    assert!(sql.contains("public.users"), "{sql}");
    assert!(sql.contains("'x'"), "{sql}");
    let mut keyless = users();
    keyless.primary_key_columns.clear();
    assert!(matches!(
        query_row_changes_sql(&keyless, &row(&[Some("1"), Some("x")])),
        Err(CacheError::NoPrimaryKey)
    ));
}

#[test]
fn membership_of_one_row_is_asked_of_several_queries() {
    let queries = vec![query(1), query(2)];
    let r = row(&[Some("1"), Some("a")]);
    let each = membership_select_sql(&queries, &vec![1, 2], &r, false).expect("known");
    assert!(each.starts_with("SELECT ("), "{each}");
    assert!(each.contains("), ("), "{each}");
    let any = membership_select_sql(&queries, &vec![1, 2], &r, true).expect("known");
    assert!(any.contains(") OR ("), "{any}");
    assert!(any.contains("'a' = 'a'"), "{any}");
    assert!(matches!(
        membership_select_sql(&queries, &vec![3], &r, false),
        Err(CacheError::InvalidQuery)
    ));
}

#[test]
fn membership_of_several_rows_is_asked_inline() {
    let queries = vec![query(1), query(2)];
    let a = row(&[Some("1"), Some("x")]);
    let sql = membership_inline_sql(&queries, &vec![1, 2], &users(), &vec![&a]).expect("known");
    assert_eq!(sql.matches(" UNION ALL ").count(), 1, "{sql}");
    assert!(sql.starts_with("SELECT 0, i FROM (VALUES "), "{sql}");
}

#[test]
fn parameter_arrays_are_by_column() {
    let a = row(&[Some("1"), Some("x")]);
    let b = row(&[Some("2"), None]);
    let (ordinals, arrays) = chunk_arrays_build(&users(), &vec![&a, &b]);
    assert_eq!(ordinals, vec![0, 1]);
    assert_eq!(
        arrays,
        vec![
            vec![Some("1".to_owned()), Some("2".to_owned())],
            vec![Some("x".to_owned()), None],
        ]
    );
}

#[test]
fn reported_ordinals_are_folded() {
    let mut hits = Vec::new();
    ordinal_hits_fold(&mut hits, &vec![1, -1, 9], &vec![40, 41], 7);
    assert_eq!(
        hits,
        vec![Hit {
            event_idx: 41,
            fingerprint: 7
        }]
    );
    pair_hits_fold(&mut hits, &vec![(0, 0), (5, 0), (0, 5)], &vec![8], &vec![40]);
    assert_eq!(hits.len(), 2);
    assert_eq!(
        hits[1],
        Hit {
            event_idx: 40,
            fingerprint: 8
        }
    );
}

#[test]
fn replies_are_read() {
    assert_eq!(pg_bool_text(&Some("t".to_owned())), Some(true));
    assert_eq!(pg_bool_text(&Some("f".to_owned())), Some(false));
    assert_eq!(pg_bool_text(&None), None);
    let names = vec![
        "pgcache_idx".to_owned(),
        "id".to_owned(),
        "name".to_owned(),
        "pgcache_lt_name".to_owned(),
        "pgcache_null_name".to_owned(),
    ];
    let cells = row(&[Some("0"), Some("f"), Some("t"), Some("t"), Some("f")]);
    let changes = row_changes_read(&names, &cells, 1);
    assert_eq!(changes.len(), 2);
    assert_eq!(changes[0].column, "id");
    assert!(!changes[0].changed);
    assert!(changes[1].changed);
    assert_eq!(changes[1].old_less, Some(true));
    assert_eq!(changes[1].old_null, Some(false));
}

#[test]
fn order_columns_are_listed_once() {
    let queries = UpdateQueries {
        queries: vec![query(1), query(2)],
    };
    assert_eq!(relation_order_columns(Some(&queries)), vec!["name".to_owned()]);
    assert!(relation_order_columns(None).is_empty());
}
