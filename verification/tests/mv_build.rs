use pgcache_writer::mv::MvBuildOutcome;
use pgcache_writer::mv::ShapeGate;
use pgcache_writer::mv_build::mv_build_batch;
use pgcache_writer::mv_build::mv_columns_list;
use pgcache_writer::mv_build::mv_count_sql;
use pgcache_writer::mv_build::mv_size_gate_passes;
use pgcache_writer::mv_build::mv_source_count_sql;
use pgcache_writer::mv_build::BuildReply;
use pgcache_writer::mv_build::MvBuild;
use pgcache_writer::mv_build::MvBuildContext;
use pgcache_writer::query_expr::QueryBody;
use pgcache_writer::query_expr::QueryExpr;
use pgcache_writer::query_expr::SelectNode;
use pgcache_writer::query_expr::SetOperator;

fn texts(items: &[&str]) -> Vec<String> {
    items.iter().map(|t| (*t).to_owned()).collect()
}

fn select(columns: &[&str], from: &[&str], condition: Option<&str>, group_by: &[&str]) -> QueryExpr {
    QueryExpr {
        body: QueryBody::Select(SelectNode {
            distinct: false,
            columns: texts(columns),
            from: texts(from),
            where_clause: condition.map(|c| c.to_owned()),
            group_by: texts(group_by),
            having: None,
        }),
        order_by: Vec::new(),
        limit: None,
    }
}

fn count_aggs(sql: &str) -> usize {
    sql.matches("count(").count()
}

/// The predicate survives and the inner aggregate is gone: only the wrapper
/// `count(*)` remains.
#[test]
fn test_denominator_keeps_predicate_drops_aggregate() {
    let sql = mv_source_count_sql(&select(&["count(*)"], &["orders"], Some("status = 'open'"), &[]));
    assert!(sql.contains("status"), "predicate column `status` must survive: {sql}");
    assert!(sql.contains("orders"), "source table must survive: {sql}");
    assert_eq!(count_aggs(&sql), 1, "only the wrapper count() remains: {sql}");
    assert_eq!(
        sql,
        "SELECT count(*) FROM (SELECT 1 FROM orders WHERE status = 'open') _mv_gate_denom"
    );
}

/// GROUP BY is stripped so the count is over scanned input rows, not groups.
#[test]
fn test_denominator_strips_group_by() {
    let sql = mv_source_count_sql(&select(
        &["status", "count(*)"],
        &["orders"],
        Some("status = 'open'"),
        &["status"],
    ));
    assert!(!sql.contains("GROUP BY"), "no SELECT may carry GROUP BY: {sql}");
    assert!(sql.contains("status"), "{sql}");
    assert_eq!(count_aggs(&sql), 1);
}

/// Outer ORDER BY / LIMIT are stripped.
#[test]
fn test_denominator_strips_order_and_limit() {
    let mut query = select(&["count(*)"], &["orders"], Some("status = 'open'"), &[]);
    query.limit = Some("5".to_owned());
    query.order_by = texts(&["1"]);
    let sql = mv_source_count_sql(&query);
    assert!(!sql.contains("LIMIT") && !sql.contains("ORDER BY"), "{sql}");
}

/// A body that is no SELECT is wrapped whole: both branches' tables survive,
/// only the wrapper `count(*)`, and the outer LIMIT is dropped.
#[test]
fn test_denominator_wraps_non_select() {
    let query = QueryExpr {
        body: QueryBody::SetOp {
            op: SetOperator::Union,
            all: false,
            left: Box::new(select(&["id"], &["orders"], None, &[])),
            right: Box::new(select(&["id"], &["users"], None, &[])),
        },
        order_by: Vec::new(),
        limit: Some("5".to_owned()),
    };
    let sql = mv_source_count_sql(&query);
    assert!(sql.contains("orders"), "{sql}");
    assert!(sql.contains("users"), "{sql}");
    assert_eq!(count_aggs(&sql), 1, "only the wrapper count(): {sql}");
    assert!(!sql.contains("LIMIT"), "outer LIMIT dropped: {sql}");
    assert_eq!(
        sql,
        "SELECT count(*) FROM (SELECT id FROM orders UNION SELECT id FROM users) _mv_gate_denom"
    );
}

#[test]
fn written_out_rows_are_counted_whole() {
    let query = QueryExpr {
        body: QueryBody::Values(texts(&["(1)", "(2)"])),
        order_by: Vec::new(),
        limit: None,
    };
    assert_eq!(
        mv_source_count_sql(&query),
        "SELECT count(*) FROM (VALUES (1), (2)) _mv_gate_denom"
    );
}

fn context(has_table: bool, gate: ShapeGate) -> MvBuildContext {
    MvBuildContext {
        fingerprint: 7,
        has_table,
        shape_gate: gate,
        max_limit: Some(50),
        generation: 9,
        resolved: select(&["status", "count(*)"], &["orders"], None, &["status"]),
        output_columns: None,
        mv_size_ratio: 10,
        mv_table: "pgcache_mv.mv_7".to_owned(),
    }
}

#[test]
fn build_statements() {
    assert_eq!(mv_columns_list(0), "()");
    assert_eq!(mv_columns_list(3), "(c0, c1, c2)");
    assert_eq!(
        mv_build_batch(&context(false, ShapeGate::Measure), 2),
        "SET mem.query_generation = 9; CREATE UNLOGGED TABLE pgcache_mv.mv_7 (c0, c1) AS \
         SELECT status, count(*) FROM orders GROUP BY status LIMIT 50; \
         SET mem.query_generation = 0;"
    );
    assert_eq!(
        mv_build_batch(&context(true, ShapeGate::Measure), 2),
        "BEGIN; SET mem.query_generation = 9; TRUNCATE pgcache_mv.mv_7; \
         INSERT INTO pgcache_mv.mv_7 (c0, c1) \
         SELECT status, count(*) FROM orders GROUP BY status LIMIT 50; COMMIT; \
         SET mem.query_generation = 0;"
    );
    assert_eq!(
        mv_count_sql(&context(false, ShapeGate::Measure)),
        "SELECT count(*) FROM (SELECT status, count(*) FROM orders GROUP BY status LIMIT 50) _mv_gate_src"
    );
}

#[test]
fn the_size_measure() {
    assert!(mv_size_gate_passes(10, 10, 100));
    assert!(!mv_size_gate_passes(11, 10, 109));
    assert!(mv_size_gate_passes(-1, 10, 0));
    assert!(!mv_size_gate_passes(i64::MAX, u64::MAX, i64::MAX));
}

fn statements(mut build: MvBuild, replies: Vec<BuildReply>) -> (Vec<String>, MvBuildOutcome) {
    let mut ran = Vec::new();
    for reply in replies {
        ran.push(build.statement().expect("a statement"));
        build.answer(reply);
    }
    assert!(build.statement().is_none(), "the build is over");
    (ran, build.outcome())
}

#[test]
fn a_measured_first_build() {
    let (ran, outcome) = statements(
        MvBuild::new(context(false, ShapeGate::Measure)),
        vec![
            BuildReply::Count(1000),
            BuildReply::Finished,
            BuildReply::Count(5),
            BuildReply::Finished,
            BuildReply::Columns(texts(&["status", "count"])),
            BuildReply::Finished,
        ],
    );
    assert_eq!(ran[1], "SET mem.query_generation = 9");
    assert_eq!(ran[3], "SET mem.query_generation = 0");
    assert!(ran[4].ends_with(" LIMIT 0"), "{}", ran[4]);
    assert!(ran[5].contains("CREATE UNLOGGED TABLE"), "{}", ran[5]);
    match outcome {
        MvBuildOutcome::Built { output_columns, was_first_build } => {
            assert_eq!(output_columns, texts(&["status", "count"]));
            assert!(was_first_build);
        }
        _ => panic!("built"),
    }
}

#[test]
fn a_result_that_is_too_large_is_not_built() {
    let (ran, outcome) = statements(
        MvBuild::new(context(false, ShapeGate::Measure)),
        vec![
            BuildReply::Count(10),
            BuildReply::Finished,
            BuildReply::Count(5),
            BuildReply::Failed,
        ],
    );
    assert_eq!(ran.len(), 4);
    assert!(matches!(outcome, MvBuildOutcome::Ineligible));
    let (ran, outcome) = statements(MvBuild::new(context(false, ShapeGate::Skip)), vec![]);
    assert!(ran.is_empty());
    assert!(matches!(outcome, MvBuildOutcome::Ineligible));
}

#[test]
fn a_failed_count_takes_its_stamp_back() {
    let (ran, outcome) = statements(
        MvBuild::new(context(false, ShapeGate::Measure)),
        vec![
            BuildReply::Count(10),
            BuildReply::Finished,
            BuildReply::Failed,
            BuildReply::Finished,
        ],
    );
    assert_eq!(ran[3], "SET mem.query_generation = 0");
    assert!(matches!(outcome, MvBuildOutcome::Failed { has_table: false }));
}

#[test]
fn a_failed_build_is_cleaned_up() {
    let mut ctx = context(true, ShapeGate::Measure);
    ctx.output_columns = Some(texts(&["a"]));
    let (ran, outcome) = statements(
        MvBuild::new(ctx),
        vec![BuildReply::Failed, BuildReply::Finished],
    );
    assert_eq!(ran[1], "ROLLBACK; SET mem.query_generation = 0;");
    assert!(matches!(outcome, MvBuildOutcome::Failed { has_table: true }));
    let (ran, outcome) = statements(
        MvBuild::new(context(false, ShapeGate::Materialize)),
        vec![
            BuildReply::Columns(texts(&["a"])),
            BuildReply::Failed,
            BuildReply::Failed,
        ],
    );
    assert_eq!(
        ran[2],
        "SET mem.query_generation = 0; DROP TABLE IF EXISTS pgcache_mv.mv_7;"
    );
    assert!(matches!(outcome, MvBuildOutcome::Failed { has_table: false }));
}

#[test]
fn a_query_without_columns_is_not_built() {
    let (_, outcome) = statements(
        MvBuild::new(context(false, ShapeGate::Materialize)),
        vec![BuildReply::Columns(Vec::new())],
    );
    assert!(matches!(outcome, MvBuildOutcome::Failed { .. }));
}
