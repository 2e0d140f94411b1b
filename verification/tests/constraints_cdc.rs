use pgcache_writer::catalog::ColumnMetadata;
use pgcache_writer::catalog::Row;
use pgcache_writer::catalog::TableMetadata;
use pgcache_writer::query::row_constraints_match;
use pgcache_writer::query::QueryConstraints;
use pgcache_writer::query::RelationConstraints;
use pgcache_writer::query::TableConstraint;
use pgcache_writer::values::BinaryOp;
use pgcache_writer::values::CastTarget;
use pgcache_writer::values::LiteralValue;

fn column(name: &str, position: u16, type_oid: u32, kind: &str, is_primary_key: bool) -> ColumnMetadata {
    ColumnMetadata {
        name: name.to_owned(),
        position,
        type_oid,
        source_type_name: kind.to_owned(),
        cache_type_name: kind.to_owned(),
        is_primary_key,
        toastable: false,
    }
}

// Row layout: [id INT4 (PK), name TEXT, created_at TIMESTAMP].
fn fixture_table() -> TableMetadata {
    TableMetadata {
        relation_oid: 1001,
        name: "users".to_owned(),
        schema: "public".to_owned(),
        primary_key_columns: vec!["id".to_owned()],
        columns: vec![
            column("id", 1, 23, "int4", true),
            column("name", 2, 25, "text", false),
            column("created_at", 3, 1114, "timestamp", false),
        ],
    }
}

fn constraints_for(table: &str, constraints: Vec<TableConstraint>) -> QueryConstraints {
    QueryConstraints {
        table_constraints: vec![RelationConstraints {
            table: table.to_owned(),
            constraints,
        }],
        join_columns: Vec::new(),
    }
}

fn row(cells: &[Option<&str>]) -> Row {
    cells.iter().map(|c| c.map(|t| t.to_owned())).collect()
}

#[test]
fn cdc_no_constraints_for_table_matches() {
    let table = fixture_table();
    let constraints = QueryConstraints::unconstrained();
    let row = row(&[Some("1"), Some("alice"), None]);
    assert!(row_constraints_match(&constraints, &table, &row));
}

#[test]
fn cdc_bare_comparison_matches_when_value_equal() {
    let table = fixture_table();
    let constraints = constraints_for(
        "users",
        vec![TableConstraint::Comparison(
            "id".to_owned(),
            BinaryOp::Equal,
            LiteralValue::Integer(1),
        )],
    );
    let row = row(&[Some("1"), Some("alice"), None]);
    assert!(row_constraints_match(&constraints, &table, &row));
}

#[test]
fn cdc_bare_comparison_misses_when_value_differs() {
    let table = fixture_table();
    let constraints = constraints_for(
        "users",
        vec![TableConstraint::Comparison(
            "id".to_owned(),
            BinaryOp::Equal,
            LiteralValue::Integer(1),
        )],
    );
    let row = row(&[Some("2"), Some("alice"), None]);
    assert!(!row_constraints_match(&constraints, &table, &row));
}

#[test]
fn cdc_cast_comparison_int4_matches_when_coerced_value_equal() {
    let table = fixture_table();
    let constraints = constraints_for(
        "users",
        vec![TableConstraint::CastComparison(
            "name".to_owned(),
            CastTarget::Int4,
            BinaryOp::Equal,
            LiteralValue::Integer(42),
        )],
    );
    let row = row(&[Some("1"), Some("42"), None]);
    assert!(row_constraints_match(&constraints, &table, &row));
}

#[test]
fn cdc_cast_comparison_int4_misses_when_coerced_value_differs() {
    let table = fixture_table();
    let constraints = constraints_for(
        "users",
        vec![TableConstraint::CastComparison(
            "name".to_owned(),
            CastTarget::Int4,
            BinaryOp::Equal,
            LiteralValue::Integer(42),
        )],
    );
    let row = row(&[Some("1"), Some("99"), None]);
    assert!(!row_constraints_match(&constraints, &table, &row));
}

#[test]
fn cdc_cast_comparison_int4_misses_when_row_unparseable() {
    let table = fixture_table();
    let constraints = constraints_for(
        "users",
        vec![TableConstraint::CastComparison(
            "name".to_owned(),
            CastTarget::Int4,
            BinaryOp::Equal,
            LiteralValue::Integer(42),
        )],
    );
    let row = row(&[Some("1"), Some("abc"), None]);
    assert!(!row_constraints_match(&constraints, &table, &row));
}

#[test]
fn cdc_cast_comparison_bool_matches_via_pg_bool_spelling() {
    let table = fixture_table();
    let constraints = constraints_for(
        "users",
        vec![TableConstraint::CastComparison(
            "name".to_owned(),
            CastTarget::Bool,
            BinaryOp::Equal,
            LiteralValue::Boolean(true),
        )],
    );
    let row = row(&[Some("1"), Some("yes"), None]);
    assert!(row_constraints_match(&constraints, &table, &row));
}

#[test]
fn cdc_cast_comparison_date_matches_via_timestamp_prefix() {
    let table = fixture_table();
    let constraints = constraints_for(
        "users",
        vec![TableConstraint::CastComparison(
            "created_at".to_owned(),
            CastTarget::Date,
            BinaryOp::Equal,
            LiteralValue::String("2024-01-15".to_owned()),
        )],
    );
    let row = row(&[Some("1"), Some("alice"), Some("2024-01-15 09:00:00")]);
    assert!(row_constraints_match(&constraints, &table, &row));
}

#[test]
fn cdc_cast_comparison_null_row_value_misses() {
    let table = fixture_table();
    let constraints = constraints_for(
        "users",
        vec![TableConstraint::CastComparison(
            "name".to_owned(),
            CastTarget::Int4,
            BinaryOp::Equal,
            LiteralValue::Integer(42),
        )],
    );
    let row = row(&[Some("1"), None, None]);
    assert!(!row_constraints_match(&constraints, &table, &row));
}

#[test]
fn cdc_cast_comparison_inequality_compares_numerically() {
    let table = fixture_table();
    let constraints = constraints_for(
        "users",
        vec![TableConstraint::CastComparison(
            "name".to_owned(),
            CastTarget::Int4,
            BinaryOp::GreaterThan,
            LiteralValue::Integer(100),
        )],
    );
    let row = row(&[Some("1"), Some("500"), None]);
    assert!(row_constraints_match(&constraints, &table, &row));
}

#[test]
fn every_constraint_of_the_relation_counts() {
    let table = fixture_table();
    let constraints = constraints_for(
        "users",
        vec![
            TableConstraint::AnyOf(
                "name".to_owned(),
                vec![
                    LiteralValue::String("alice".to_owned()),
                    LiteralValue::String("bob".to_owned()),
                ],
            ),
            TableConstraint::Comparison(
                "id".to_owned(),
                BinaryOp::LessThan,
                LiteralValue::Integer(10),
            ),
        ],
    );
    assert!(row_constraints_match(&constraints, &table, &row(&[Some("9"), Some("bob"), None])));
    assert!(!row_constraints_match(&constraints, &table, &row(&[Some("10"), Some("bob"), None])));
    assert!(!row_constraints_match(&constraints, &table, &row(&[Some("9"), Some("eve"), None])));
}

#[test]
fn constraints_on_another_relation_do_not_count() {
    let table = fixture_table();
    let constraints = constraints_for(
        "orders",
        vec![TableConstraint::Comparison(
            "id".to_owned(),
            BinaryOp::Equal,
            LiteralValue::Integer(7),
        )],
    );
    assert!(row_constraints_match(&constraints, &table, &row(&[Some("1"), None, None])));
}
