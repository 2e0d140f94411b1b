use pgcache_writer::catalog::ColumnMetadata;
use pgcache_writer::catalog::Row;
use pgcache_writer::catalog::TableMetadata;
use pgcache_writer::error::CacheError;
use pgcache_writer::sql::cache_delete_into;
use pgcache_writer::sql::cache_upsert_unconditional_into;
use pgcache_writer::sql::truncate_sql_build;
use std::collections::HashMap;

fn column(name: &str, position: u16, is_primary_key: bool) -> ColumnMetadata {
    ColumnMetadata {
        name: name.to_owned(),
        position,
        type_oid: 25,
        source_type_name: "text".to_owned(),
        cache_type_name: "text".to_owned(),
        is_primary_key,
        toastable: false,
    }
}

/// Every identifier hazard: a mixed-case name, a reserved word, a mixed-case
/// column, an embedded quote.
fn quoted_table() -> TableMetadata {
    TableMetadata {
        relation_oid: 4242,
        name: "Order".to_owned(),
        schema: "public".to_owned(),
        primary_key_columns: vec!["id".to_owned()],
        columns: vec![
            column("id", 1, true),
            column("user", 2, false),
            column("camelCase", 3, false),
            column("we\"ird", 4, false),
        ],
    }
}

fn row(cells: &[Option<&str>]) -> Row {
    cells.iter().map(|c| c.map(|t| t.to_owned())).collect()
}

#[test]
fn test_upsert_quotes_identifiers() {
    let table = quoted_table();
    let row = row(&[Some("1"), Some("alice"), Some("42"), None]);
    let mut buf = String::new();
    cache_upsert_unconditional_into(&mut buf, &table, &row);
    assert_eq!(
        buf,
        "INSERT INTO \"public\".\"Order\" (\"id\", \"user\", \"camelCase\", \"we\"\"ird\") \
         VALUES ('1', 'alice', '42', NULL) \
         ON CONFLICT (\"id\") \
         DO UPDATE SET \"user\" = EXCLUDED.\"user\", \
         \"camelCase\" = EXCLUDED.\"camelCase\", \
         \"we\"\"ird\" = EXCLUDED.\"we\"\"ird\""
    );
}

#[test]
fn test_delete_quotes_identifiers() {
    let table = quoted_table();
    let row = row(&[Some("1")]);
    let mut buf = String::new();
    cache_delete_into(&mut buf, &table, &row).expect("build delete");
    assert_eq!(buf, "DELETE FROM \"public\".\"Order\" WHERE \"id\" = '1'");
}

#[test]
fn literals_are_escaped_by_the_protocol_rules() {
    let table = quoted_table();
    let mut buf = String::new();
    cache_delete_into(&mut buf, &table, &row(&[Some("O'Neil")])).expect("build delete");
    assert_eq!(buf, "DELETE FROM \"public\".\"Order\" WHERE \"id\" = 'O''Neil'");
    let mut buf = String::new();
    cache_delete_into(&mut buf, &table, &row(&[Some("a\\b")])).expect("build delete");
    assert_eq!(buf, "DELETE FROM \"public\".\"Order\" WHERE \"id\" =  E'a\\\\b'");
}

#[test]
fn delete_without_a_key_cell_is_refused() {
    let table = quoted_table();
    let mut buf = String::new();
    let r = cache_delete_into(&mut buf, &table, &row(&[]));
    assert!(matches!(r, Err(CacheError::NoPrimaryKey)));
}

#[test]
fn truncate_names_the_known_relations() {
    let mut tables: HashMap<u32, TableMetadata> = HashMap::new();
    tables.insert(4242, quoted_table());
    assert_eq!(truncate_sql_build(&tables, &vec![7]), None);
    let sql = truncate_sql_build(&tables, &vec![7, 4242]).expect("one is known");
    assert!(sql.starts_with("TRUNCATE "), "{sql}");
    assert!(sql.contains("\"Order\""), "{sql}");
}
