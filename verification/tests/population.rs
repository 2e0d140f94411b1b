use pgcache_writer::batch::batch_sql_build;
use pgcache_writer::catalog::ColumnMetadata;
use pgcache_writer::catalog::Row;
use pgcache_writer::catalog::TableMetadata;
use pgcache_writer::error::CacheError;
use pgcache_writer::merge_queue::ReplyMessage;
use pgcache_writer::population::insert_statement_build;
use pgcache_writer::population::population_select_sql;
use pgcache_writer::population::retry_backoff;
use pgcache_writer::population::row_to_tuple;
use pgcache_writer::population::snapshot_lsn_parse;
use pgcache_writer::population::staging_create_sql;
use pgcache_writer::population::staging_drop_sql;
use pgcache_writer::population::staging_table_name;
use pgcache_writer::population::PopulationStream;
use pgcache_writer::population::PopulationTask;

/// Two populations that stream the same rows in different orders must emit the
/// same order of rows.
#[test]
fn batch_sql_build_orders_by_pk() {
    let prefix = "INSERT INTO t(a,b) VALUES ";
    let suffix = " ON CONFLICT (a) DO NOTHING";

    let mut worker_a = vec![
        (vec!["1".to_owned()], "(1,'x')".to_owned()),
        (vec!["3".to_owned()], "(3,'y')".to_owned()),
        (vec!["2".to_owned()], "(2,'z')".to_owned()),
    ];
    // Same rows, different stream order, and a column that drifted between
    // snapshots: the key must still drive the order.
    let mut worker_b = vec![
        (vec!["2".to_owned()], "(2,'DRIFTED')".to_owned()),
        (vec!["1".to_owned()], "(1,'x')".to_owned()),
        (vec!["3".to_owned()], "(3,'y')".to_owned()),
    ];

    let sql_a = batch_sql_build(prefix, suffix, &mut worker_a);
    let sql_b = batch_sql_build(prefix, suffix, &mut worker_b);

    assert_eq!(
        sql_a,
        "INSERT INTO t(a,b) VALUES (1,'x'),(2,'z'),(3,'y') ON CONFLICT (a) DO NOTHING"
    );
    assert_eq!(
        sql_b,
        "INSERT INTO t(a,b) VALUES (1,'x'),(2,'DRIFTED'),(3,'y') ON CONFLICT (a) DO NOTHING"
    );
}

#[test]
fn batch_sql_build_composite_pk_no_separator_ambiguity() {
    // ("a","b") vs ("ab", "") must not collide into the same sort key.
    let mut rows = vec![
        (
            vec!["'ab'".to_owned(), "''".to_owned()],
            "('ab','')".to_owned(),
        ),
        (
            vec!["'a'".to_owned(), "'b'".to_owned()],
            "('a','b')".to_owned(),
        ),
    ];
    let sql = batch_sql_build("", "", &mut rows);
    assert_eq!(sql, "('a','b'),('ab','')");
}

fn column(name: &str, position: u16, is_primary_key: bool) -> ColumnMetadata {
    ColumnMetadata {
        name: name.to_owned(),
        position,
        type_oid: 25,
        source_type_name: "text".to_owned(),
        cache_type_name: "text".to_owned(),
        is_primary_key,
        toastable: false,
    }
}

fn orders() -> TableMetadata {
    TableMetadata {
        relation_oid: 7,
        name: "orders".to_owned(),
        schema: "public".to_owned(),
        primary_key_columns: vec!["id".to_owned()],
        columns: vec![column("id", 1, true), column("total", 2, false)],
    }
}

fn row(cells: &[Option<&str>]) -> Row {
    cells.iter().map(|c| c.map(|t| t.to_owned())).collect()
}

fn streamed() -> Vec<String> {
    vec!["total".to_owned(), "id".to_owned()]
}

#[test]
fn staging_statements() {
    assert_eq!(staging_table_name(12, 3, 7), "stage_12_3_7");
    let staging = staging_table_name(12, 3, 7);
    assert_eq!(
        staging_create_sql(&orders(), &staging),
        "DROP TABLE IF EXISTS pgcache_stage.stage_12_3_7; \
         CREATE TABLE pgcache_stage.stage_12_3_7 (LIKE public.orders)"
    );
    assert_eq!(
        staging_drop_sql(&staging),
        "DROP TABLE IF EXISTS pgcache_stage.stage_12_3_7"
    );
    assert_eq!(population_select_sql("SELECT 1", Some(5)), "SELECT 1 LIMIT 5");
    assert_eq!(population_select_sql("SELECT 1", None), "SELECT 1");
}

#[test]
fn insert_statement_finds_the_key_among_the_streamed_columns() {
    let insert = insert_statement_build(&orders(), &streamed(), "stage_1");
    assert_eq!(
        insert.prefix,
        "INSERT INTO pgcache_stage.stage_1(\"total\",\"id\") VALUES "
    );
    assert_eq!(insert.suffix, "");
    assert_eq!(insert.pkey_positions, vec![1]);
    assert_eq!(insert.num_columns, 2);
}

#[test]
fn a_streamed_row_becomes_a_tuple() {
    let insert = insert_statement_build(&orders(), &streamed(), "stage_1");
    let ((key, tuple), bytes) =
        row_to_tuple(&row(&[Some("a'b"), Some("9")]), &insert).expect("a row");
    assert_eq!(key, vec!["'9'".to_owned()]);
    assert_eq!(tuple, "('a''b','9')");
    assert_eq!(bytes, 4);
    let ((_, tuple), bytes) = row_to_tuple(&row(&[None, Some("9")]), &insert).expect("a row");
    assert_eq!(tuple, "(NULL,'9')");
    assert_eq!(bytes, 1);
}

#[test]
fn a_padded_row_is_skipped() {
    let insert = insert_statement_build(&orders(), &streamed(), "stage_1");
    assert!(row_to_tuple(&row(&[Some("3"), None]), &insert).is_none());
    let mut stream = PopulationStream::new(insert);
    assert_eq!(stream.row(&row(&[Some("3"), None])), None);
    assert_eq!(stream.row_count, 0);
    assert_eq!(stream.finish(), None);
}

#[test]
fn rows_are_inserted_in_batches() {
    let insert = insert_statement_build(&orders(), &streamed(), "stage_1");
    let mut stream = PopulationStream::new(insert);
    let mut batches = 0;
    for i in 0..201 {
        let id = format!("{:03}", 200 - i);
        if let Some(sql) = stream.row(&row(&[Some("5"), Some(&id)])) {
            batches += 1;
            assert!(
                sql.starts_with("INSERT INTO pgcache_stage.stage_1(\"total\",\"id\") VALUES ('5','001'),('5','002')"),
                "{sql}"
            );
        }
    }
    assert_eq!(batches, 1);
    assert_eq!(
        stream.finish().expect("the rest"),
        "INSERT INTO pgcache_stage.stage_1(\"total\",\"id\") VALUES ('5','000')"
    );
    assert_eq!(stream.row_count, 201);
    assert_eq!(stream.cached_bytes, 201 * 4);
}

#[test]
fn a_task_makes_each_staging_table_once() {
    let tables = vec![orders()];
    let mut task = PopulationTask::new(12, 3);
    let first = task.table_begin(&tables, 7).expect("known");
    assert!(first.fresh);
    assert_eq!(first.at, 0);
    let mut stream = PopulationStream::new(insert_statement_build(&orders(), &streamed(), "s"));
    stream.row(&row(&[Some("5"), Some("1")]));
    task.table_done(7, first, &stream);
    let again = task.table_begin(&tables, 7).expect("known");
    assert!(!again.fresh);
    task.table_done(7, again, &stream);
    assert!(matches!(
        task.table_begin(&tables, 8),
        Err(CacheError::UnknownTable { oid: 8 })
    ));
    let merge = task.finish(99);
    assert_eq!(merge.staged, vec![(7, "stage_12_3_7".to_owned())]);
    assert_eq!((merge.row_count, merge.cached_bytes, merge.snapshot_lsn), (2, 4, 99));
}

#[test]
fn only_deadlocks_are_retried_and_back_off() {
    let deadlock = CacheError::PgError {
        code: Some("40P01".to_owned()),
    };
    let waits: Vec<Option<u64>> = (0..7).map(|a| retry_backoff(&deadlock, a)).collect();
    assert_eq!(
        waits,
        vec![Some(20), Some(40), Some(80), Some(160), Some(320), None, None]
    );
    let other = CacheError::PgError {
        code: Some("23505".to_owned()),
    };
    assert_eq!(retry_backoff(&other, 0), None);
    assert_eq!(retry_backoff(&CacheError::InvalidMessage, 0), None);
}

#[test]
fn the_snapshot_is_read_from_the_reply() {
    let messages = vec![
        ReplyMessage::RowDescription,
        ReplyMessage::Row(row(&[None])),
        ReplyMessage::Row(row(&[Some("123456789012")])),
        ReplyMessage::CommandComplete(1),
    ];
    assert_eq!(snapshot_lsn_parse(&messages).expect("lsn"), 123456789012);
    assert!(matches!(
        snapshot_lsn_parse(&vec![ReplyMessage::Row(row(&[Some("-1")]))]),
        Err(CacheError::InvalidMessage)
    ));
}
