//! The statements that maintain the shared cache tables.
use std::collections::HashMap;

use vstd::prelude::*;
use vstd::string::*;

use crate::catalog::cell_at;
use crate::catalog::name_contains;
use crate::catalog::name_in;
use crate::catalog::named_cell;
use crate::catalog::row_get;
use crate::catalog::ColumnMetadata;
use crate::catalog::Row;
use crate::catalog::RowView;
use crate::catalog::TableMetadata;
use crate::error::CacheError;
use crate::text::cell_rendered;
use crate::text::cell_sql;
use crate::text::identifier;
use crate::text::identifier_quote_into;
use crate::text::identifier_quoted;
use crate::text::identifiers;
use crate::text::identifiers_quoted;
use crate::text::joined;
use crate::text::list_append;

verus! {

broadcast use vstd::std_specs::hash::group_hash_axioms;

/// `"schema"."name"`.
pub open spec fn qualified(table: TableMetadata) -> Seq<char> {
    identifier(table.schema@) + "."@ + identifier(table.name@)
}

/// The relation's cache table, quoted and schema-qualified.
pub fn qualified_name(table: &TableMetadata) -> (name: String)
    ensures
        name@ == qualified(*table),
{
    let mut name = identifier_quoted(table.schema.as_str());
    name.append(".");
    identifier_quote_into(table.name.as_str(), &mut name);
    name
}

/// Quoted names of the columns the row has a cell for.
pub open spec fn present_names(columns: Seq<ColumnMetadata>, row: RowView) -> Seq<Seq<char>>
    decreases columns.len(),
{
    if columns.len() == 0 {
        Seq::empty()
    } else {
        let rest = present_names(columns.drop_last(), row);
        match cell_at(row, columns.last().index_spec()) {
            Some(_) => rest.push(identifier(columns.last().name@)),
            None => rest,
        }
    }
}

/// Cells of the columns the row has a cell for, as SQL.
pub open spec fn present_cells(columns: Seq<ColumnMetadata>, row: RowView) -> Seq<Seq<char>>
    decreases columns.len(),
{
    if columns.len() == 0 {
        Seq::empty()
    } else {
        let rest = present_cells(columns.drop_last(), row);
        match cell_at(row, columns.last().index_spec()) {
            Some(cell) => rest.push(cell_sql(cell)),
            None => rest,
        }
    }
}

/// `"c" = EXCLUDED."c"` for each column outside the key that the row has a
/// cell for.
pub open spec fn excluded_assignments(
    columns: Seq<ColumnMetadata>,
    pk: Seq<String>,
    row: RowView,
) -> Seq<Seq<char>>
    decreases columns.len(),
{
    if columns.len() == 0 {
        Seq::empty()
    } else {
        let rest = excluded_assignments(columns.drop_last(), pk, row);
        let name = columns.last().name@;
        if cell_at(row, columns.last().index_spec()) is None || name_in(pk, name) {
            rest
        } else {
            rest.push(identifier(name) + " = EXCLUDED."@ + identifier(name))
        }
    }
}

/// The tail of an upsert: assign the columns outside the key, or do nothing
/// when there is none to assign.
pub open spec fn on_conflict_tail(table: TableMetadata, row: RowView) -> Seq<char> {
    let assignments = excluded_assignments(table.columns@, table.primary_key_columns@, row);
    if assignments.len() == 0 {
        " DO NOTHING"@
    } else {
        " DO UPDATE SET "@ + joined(assignments, ", "@)
    }
}

/// Append the tail of an upsert. An empty `SET` list is not valid SQL, so a
/// table with no assignable column takes `DO NOTHING`.
pub fn cdc_on_conflict_tail_append(sql: &mut String, table: &TableMetadata, row: &Row)
    ensures
        final(sql)@ == old(sql)@ + on_conflict_tail(*table, row.deep_view()),
{
    let ghost cols = table.columns@;
    let ghost pk = table.primary_key_columns@;
    let ghost view = row.deep_view();
    let ghost start = sql@;
    let mut items: Vec<String> = Vec::new();
    let mut i: usize = 0;
    while i < table.columns.len()
        invariant
            i <= cols.len(),
            cols == table.columns@,
            pk == table.primary_key_columns@,
            view == row.deep_view(),
            items.deep_view() =~= excluded_assignments(cols.take(i as int), pk, view),
        decreases cols.len() - i,
    {
        let column = &table.columns[i];
        proof {
            assert(cols.take(i + 1).drop_last() =~= cols.take(i as int));
        }
        if row_get(row, column.index()).is_some() && !name_contains(
            &table.primary_key_columns,
            &column.name,
        ) {
            let mut item = identifier_quoted(column.name.as_str());
            item.append(" = EXCLUDED.");
            identifier_quote_into(column.name.as_str(), &mut item);
            let ghost before = items.deep_view();
            let ghost text = item@;
            items.push(item);
            proof {
                assert(items.deep_view() =~= before.push(text));
            }
        }
        i = i + 1;
    }
    proof {
        assert(cols.take(i as int) =~= cols);
    }
    if items.len() == 0 {
        sql.append(" DO NOTHING");
    } else {
        sql.append(" DO UPDATE SET ");
        list_append(sql, &items, ", ");
        proof {
            assert(sql@ =~= start + on_conflict_tail(*table, view));
        }
    }
}

/// An unconditional upsert of the row into its cache table.
pub open spec fn upsert_sql(table: TableMetadata, row: RowView) -> Seq<char> {
    "INSERT INTO "@ + qualified(table) + " ("@ + joined(present_names(table.columns@, row), ", "@)
        + ") VALUES ("@ + joined(present_cells(table.columns@, row), ", "@) + ") ON CONFLICT ("@
        + joined(identifiers(table.primary_key_columns@), ", "@) + ")"@ + on_conflict_tail(
        table,
        row,
    )
}

fn present_names_collect(table: &TableMetadata, row: &Row) -> (items: Vec<String>)
    ensures
        items.deep_view() == present_names(table.columns@, row.deep_view()),
{
    let ghost cols = table.columns@;
    let mut items: Vec<String> = Vec::new();
    let mut i: usize = 0;
    while i < table.columns.len()
        invariant
            i <= cols.len(),
            cols == table.columns@,
            items.deep_view() =~= present_names(cols.take(i as int), row.deep_view()),
        decreases cols.len() - i,
    {
        let column = &table.columns[i];
        proof {
            assert(cols.take(i + 1).drop_last() =~= cols.take(i as int));
        }
        if row_get(row, column.index()).is_some() {
            let ghost before = items.deep_view();
            items.push(identifier_quoted(column.name.as_str()));
            proof {
                assert(items.deep_view() =~= before.push(identifier(column.name@)));
            }
        }
        i = i + 1;
    }
    proof {
        assert(cols.take(i as int) =~= cols);
    }
    items
}

fn present_cells_collect(table: &TableMetadata, row: &Row) -> (items: Vec<String>)
    ensures
        items.deep_view() == present_cells(table.columns@, row.deep_view()),
{
    let ghost cols = table.columns@;
    let mut items: Vec<String> = Vec::new();
    let mut i: usize = 0;
    while i < table.columns.len()
        invariant
            i <= cols.len(),
            cols == table.columns@,
            items.deep_view() =~= present_cells(cols.take(i as int), row.deep_view()),
        decreases cols.len() - i,
    {
        let column = &table.columns[i];
        proof {
            assert(cols.take(i + 1).drop_last() =~= cols.take(i as int));
        }
        if let Some(cell) = row_get(row, column.index()) {
            let ghost before = items.deep_view();
            items.push(cell_rendered(cell));
            proof {
                assert(items.deep_view() =~= before.push(cell_sql(cell.deep_view())));
            }
        }
        i = i + 1;
    }
    proof {
        assert(cols.take(i as int) =~= cols);
    }
    items
}

/// Append an unconditional upsert of the row.
pub fn cache_upsert_unconditional_into(buf: &mut String, table: &TableMetadata, row: &Row)
    ensures
        final(buf)@ == old(buf)@ + upsert_sql(*table, row.deep_view()),
{
    let mut sql = "INSERT INTO ".to_owned();
    sql.append(qualified_name(table).as_str());
    sql.append(" (");
    list_append(&mut sql, &present_names_collect(table, row), ", ");
    sql.append(") VALUES (");
    list_append(&mut sql, &present_cells_collect(table, row), ", ");
    sql.append(") ON CONFLICT (");
    list_append(&mut sql, &identifiers_quoted(&table.primary_key_columns), ", ");
    sql.append(")");
    cdc_on_conflict_tail_append(&mut sql, table, row);
    buf.append(sql.as_str());
}

/// `"k" = <cell>` for each key column the row has a cell for.
pub open spec fn pk_conditions(
    columns: Seq<ColumnMetadata>,
    pk: Seq<String>,
    row: RowView,
) -> Seq<Seq<char>>
    decreases pk.len(),
{
    if pk.len() == 0 {
        Seq::empty()
    } else {
        let rest = pk_conditions(columns, pk.drop_last(), row);
        match named_cell(columns, row, pk.last()@) {
            Some(cell) => rest.push(identifier(pk.last()@) + " = "@ + cell_sql(cell)),
            None => rest,
        }
    }
}

/// The head of a delete from the relation's cache table.
pub open spec fn delete_head(table: TableMetadata) -> Seq<char> {
    "DELETE FROM "@ + qualified(table) + " WHERE "@
}

/// A delete of the row's key from its cache table.
pub open spec fn delete_sql(table: TableMetadata, row: RowView) -> Seq<char> {
    delete_head(table) + joined(
        pk_conditions(table.columns@, table.primary_key_columns@, row),
        " AND "@,
    )
}

/// Whether the row carries a cell of the relation's key.
pub open spec fn has_pk_cell(table: TableMetadata, row: RowView) -> bool {
    pk_conditions(table.columns@, table.primary_key_columns@, row).len() > 0
}

/// Append a delete qualified by the row's key. A row with no key cell gives
/// [`CacheError::NoPrimaryKey`], and leaves the head of the statement behind.
pub fn cache_delete_into(buf: &mut String, table: &TableMetadata, row: &Row) -> (r: Result<
    (),
    CacheError,
>)
    ensures
        r is Ok <==> has_pk_cell(*table, row.deep_view()),
        r is Ok ==> final(buf)@ == old(buf)@ + delete_sql(*table, row.deep_view()),
        r is Err ==> r->Err_0 == CacheError::NoPrimaryKey && final(buf)@ == old(buf)@ + delete_head(
            *table,
        ),
{
    let ghost cols = table.columns@;
    let ghost pk = table.primary_key_columns@;
    let ghost view = row.deep_view();
    let mut head = "DELETE FROM ".to_owned();
    head.append(qualified_name(table).as_str());
    head.append(" WHERE ");
    let mut items: Vec<String> = Vec::new();
    let mut i: usize = 0;
    while i < table.primary_key_columns.len()
        invariant
            i <= pk.len(),
            cols == table.columns@,
            pk == table.primary_key_columns@,
            view == row.deep_view(),
            items.deep_view() =~= pk_conditions(cols, pk.take(i as int), view),
        decreases pk.len() - i,
    {
        let pk_column = &table.primary_key_columns[i];
        proof {
            assert(pk.take(i + 1).drop_last() =~= pk.take(i as int));
        }
        if let Some(cell) = table.named_cell_get(row, pk_column) {
            let mut item = identifier_quoted(pk_column.as_str());
            item.append(" = ");
            item.append(cell_rendered(cell).as_str());
            let ghost before = items.deep_view();
            let ghost text = item@;
            items.push(item);
            proof {
                assert(items.deep_view() =~= before.push(text));
            }
        }
        i = i + 1;
    }
    proof {
        assert(pk.take(i as int) =~= pk);
    }
    if items.len() == 0 {
        buf.append(head.as_str());
        return Err(CacheError::NoPrimaryKey);
    }
    list_append(&mut head, &items, " AND ");
    buf.append(head.as_str());
    Ok(())
}

/// The cache tables of the known relations among `oids`, in order.
pub open spec fn known_tables(tables: Map<u32, TableMetadata>, oids: Seq<u32>) -> Seq<Seq<char>>
    decreases oids.len(),
{
    if oids.len() == 0 {
        Seq::empty()
    } else {
        let rest = known_tables(tables, oids.drop_last());
        if tables.contains_key(oids.last()) {
            rest.push(qualified(tables[oids.last()]))
        } else {
            rest
        }
    }
}

/// `TRUNCATE` of the known relations' cache tables; `None` when none is known.
pub open spec fn truncate_sql(tables: Map<u32, TableMetadata>, oids: Seq<u32>) -> Option<
    Seq<char>,
> {
    let names = known_tables(tables, oids);
    if names.len() == 0 {
        None
    } else {
        Some("TRUNCATE "@ + joined(names, ", "@))
    }
}

/// Build the `TRUNCATE` of the known relations' cache tables.
pub fn truncate_sql_build(tables: &HashMap<u32, TableMetadata>, oids: &Vec<u32>) -> (sql: Option<
    String,
>)
    ensures
        match sql {
            Some(s) => truncate_sql(tables@, oids@) == Some(s@),
            None => truncate_sql(tables@, oids@) is None,
        },
{
    let mut items: Vec<String> = Vec::new();
    let mut i: usize = 0;
    while i < oids.len()
        invariant
            i <= oids.len(),
            items.deep_view() =~= known_tables(tables@, oids@.take(i as int)),
        decreases oids.len() - i,
    {
        proof {
            assert(oids@.take(i + 1).drop_last() =~= oids@.take(i as int));
        }
        if let Some(table) = tables.get(&oids[i]) {
            let ghost before = items.deep_view();
            items.push(qualified_name(table));
            proof {
                assert(items.deep_view() =~= before.push(qualified(*table)));
            }
        }
        i = i + 1;
    }
    proof {
        assert(oids@.take(i as int) =~= oids@);
    }
    if items.len() == 0 {
        return None;
    }
    let mut sql = "TRUNCATE ".to_owned();
    list_append(&mut sql, &items, ", ");
    Some(sql)
}

} // verus!
