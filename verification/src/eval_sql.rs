//! The statements that ask the cache database about rows: which cached queries
//! a row belongs to, and which columns an UPDATE changed.

use vstd::prelude::*;
use vstd::string::*;

use crate::catalog::cell_at;
use crate::catalog::lemma_name_in;
use crate::catalog::name_contains;
use crate::catalog::name_in;
use crate::catalog::named_cell;
use crate::catalog::row_get;
use crate::catalog::ColumnMetadata;
use crate::catalog::Row;
use crate::catalog::RowView;
use crate::catalog::TableMetadata;
use crate::error::CacheError;
use crate::frame::with_all_distinct;
use crate::invalidation::ColumnChange;
use crate::invalidation::RowChanges;
use crate::query::TemplatePiece;
use crate::query::UpdateQueries;
use crate::query::UpdateQuery;
use crate::segment::row_refs_view;
use crate::text::cell_append;
use crate::text::cell_rendered;
use crate::text::cell_sql;
use crate::text::decimal;
use crate::text::decimal_append;
use crate::text::joined;
use crate::text::list_append;
use crate::toast::cell_or_null;

verus! {

broadcast use vstd::std_specs::hash::group_hash_axioms;

/// Column that carries a row's ordinal within its statement.
pub const BATCH_IDX_COLUMN: &'static str = "pgcache_idx";

/// Alias prefix of the column that tells whether the old value sorts first.
pub const OLD_LESS_THAN_ALIAS_PREFIX: &'static str = "pgcache_lt_";

/// Alias prefix of the column that tells whether the old value is NULL.
pub const OLD_IS_NULL_ALIAS_PREFIX: &'static str = "pgcache_null_";

/// What is asked of one column of an UPDATE: whether it changed, and for an
/// ordering column also how the old value compares.
pub open spec fn change_item(name: Seq<char>, ordered: bool) -> Seq<char> {
    let changed = ", o."@ + name + " IS DISTINCT FROM v."@ + name + " AS "@ + name;
    if ordered {
        changed + ", o."@ + name + " < v."@ + name + " AS "@ + OLD_LESS_THAN_ALIAS_PREFIX@ + name
            + ", o."@ + name + " IS NULL AS "@ + OLD_IS_NULL_ALIAS_PREFIX@ + name
    } else {
        changed
    }
}

pub open spec fn change_items(columns: Seq<ColumnMetadata>, order_columns: Seq<String>) -> Seq<char>
    decreases columns.len(),
{
    if columns.len() == 0 {
        Seq::empty()
    } else {
        change_items(columns.drop_last(), order_columns) + change_item(
            columns.last().name@,
            name_in(order_columns, columns.last().name@),
        )
    }
}

/// The select list of a row-change statement.
pub open spec fn row_change_select(table: TableMetadata, order_columns: Seq<String>) -> Seq<char> {
    "SELECT v."@ + BATCH_IDX_COLUMN@ + change_items(table.columns@, order_columns)
}

/// Append the select list of a row-change statement. Columns that order a LIMIT
/// window are also compared with their old value.
pub fn row_change_select_into(buf: &mut String, table: &TableMetadata, order_columns: &Vec<String>)
    ensures
        final(buf)@ == old(buf)@ + row_change_select(*table, order_columns@),
{
    let ghost cols = table.columns@;
    let mut items = String::new();
    let mut i: usize = 0;
    while i < table.columns.len()
        invariant
            i <= cols.len(),
            cols == table.columns@,
            items@ =~= change_items(cols.take(i as int), order_columns@),
        decreases cols.len() - i,
    {
        proof {
            assert(cols.take(i + 1).drop_last() =~= cols.take(i as int));
        }
        let name = &table.columns[i].name;
        let mut item = ", o.".to_owned();
        item.append(name.as_str());
        item.append(" IS DISTINCT FROM v.");
        item.append(name.as_str());
        item.append(" AS ");
        item.append(name.as_str());
        if name_contains(order_columns, name) {
            item.append(", o.");
            item.append(name.as_str());
            item.append(" < v.");
            item.append(name.as_str());
            item.append(" AS ");
            item.append(OLD_LESS_THAN_ALIAS_PREFIX);
            item.append(name.as_str());
            item.append(", o.");
            item.append(name.as_str());
            item.append(" IS NULL AS ");
            item.append(OLD_IS_NULL_ALIAS_PREFIX);
            item.append(name.as_str());
        }
        items.append(item.as_str());
        i = i + 1;
    }
    proof {
        assert(cols.take(i as int) =~= cols);
    }
    let mut select = "SELECT v.".to_owned();
    select.append(BATCH_IDX_COLUMN);
    select.append(items.as_str());
    buf.append(select.as_str());
}

pub open spec fn pk_join_conditions(pk: Seq<String>) -> Seq<Seq<char>> {
    Seq::new(pk.len(), |i: int| "o."@ + pk[i]@ + " = v."@ + pk[i]@)
}

/// The join of the compared rows with the cache table, by primary key.
pub open spec fn row_change_join_on(table: TableMetadata) -> Seq<char> {
    " JOIN "@ + table.schema@ + "."@ + table.name@ + " o ON "@ + joined(
        pk_join_conditions(table.primary_key_columns@),
        " AND "@,
    )
}

/// Append the join of the compared rows with the cache table.
pub fn row_change_join_on_into(buf: &mut String, table: &TableMetadata)
    ensures
        final(buf)@ == old(buf)@ + row_change_join_on(*table),
{
    let ghost pk = table.primary_key_columns@;
    let mut items: Vec<String> = Vec::new();
    let mut i: usize = 0;
    while i < table.primary_key_columns.len()
        invariant
            i <= pk.len(),
            pk == table.primary_key_columns@,
            items.deep_view() =~= pk_join_conditions(pk.take(i as int)),
        decreases pk.len() - i,
    {
        let name = &table.primary_key_columns[i];
        let mut item = "o.".to_owned();
        item.append(name.as_str());
        item.append(" = v.");
        item.append(name.as_str());
        let ghost before = items.deep_view();
        let ghost text = item@;
        items.push(item);
        proof {
            assert(items.deep_view() =~= before.push(text));
            assert(pk_join_conditions(pk.take(i + 1)) =~= pk_join_conditions(
                pk.take(i as int),
            ).push(text));
        }
        i = i + 1;
    }
    proof {
        assert(pk.take(i as int) =~= pk);
    }
    let mut sql = " JOIN ".to_owned();
    sql.append(table.schema.as_str());
    sql.append(".");
    sql.append(table.name.as_str());
    sql.append(" o ON ");
    list_append(&mut sql, &items, " AND ");
    buf.append(sql.as_str());
}

pub open spec fn unnest_items(columns: Seq<ColumnMetadata>) -> Seq<char>
    decreases columns.len(),
{
    if columns.len() == 0 {
        Seq::empty()
    } else {
        unnest_items(columns.drop_last()) + (", unnest($"@ + decimal(columns.len() + 1)
            + "::text[])::"@ + columns.last().cache_type_name@ + " AS "@ + columns.last().name@)
    }
}

/// The prepared row-change statement of a relation: the rows come as parameter
/// arrays, so one statement serves any number of rows.
pub open spec fn row_change_prepared(table: TableMetadata, order_columns: Seq<String>) -> Seq<
    char,
> {
    row_change_select(table, order_columns) + " FROM (SELECT unnest($1::int4[]) AS "@
        + BATCH_IDX_COLUMN@ + unnest_items(table.columns@) + ") AS v"@ + row_change_join_on(table)
}

/// Build the prepared row-change statement of a relation.
pub fn row_change_prepared_sql(table: &TableMetadata, order_columns: &Vec<String>) -> (sql: String)
    requires
        table.columns@.len() < u64::MAX,
    ensures
        sql@ == row_change_prepared(*table, order_columns@),
{
    let ghost cols = table.columns@;
    let mut items = String::new();
    let mut i: usize = 0;
    while i < table.columns.len()
        invariant
            i <= cols.len() < u64::MAX,
            cols == table.columns@,
            items@ =~= unnest_items(cols.take(i as int)),
        decreases cols.len() - i,
    {
        proof {
            assert(cols.take(i + 1).drop_last() =~= cols.take(i as int));
        }
        let column = &table.columns[i];
        let mut item = ", unnest($".to_owned();
        decimal_append(&mut item, i as u64 + 2);
        item.append("::text[])::");
        item.append(column.cache_type_name.as_str());
        item.append(" AS ");
        item.append(column.name.as_str());
        items.append(item.as_str());
        i = i + 1;
    }
    proof {
        assert(cols.take(i as int) =~= cols);
    }
    let mut sql = String::new();
    row_change_select_into(&mut sql, table, order_columns);
    proof {
        assert(sql@ =~= row_change_select(*table, order_columns@));
    }
    sql.append(" FROM (SELECT unnest($1::int4[]) AS ");
    sql.append(BATCH_IDX_COLUMN);
    sql.append(items.as_str());
    sql.append(") AS v");
    row_change_join_on_into(&mut sql, table);
    sql
}

pub open spec fn typed_cells(columns: Seq<ColumnMetadata>, row: RowView) -> Seq<char>
    decreases columns.len(),
{
    if columns.len() == 0 {
        Seq::empty()
    } else {
        typed_cells(columns.drop_last(), row) + (", "@ + cell_sql(
            cell_or_null(row, columns.last().index_spec()),
        ) + "::"@ + columns.last().cache_type_name@)
    }
}

/// A row inlined into a statement: its ordinal and its typed cells.
pub open spec fn values_row(columns: Seq<ColumnMetadata>, row: RowView, ordinal: nat) -> Seq<char> {
    "("@ + decimal(ordinal) + typed_cells(columns, row) + ")"@
}

pub open spec fn values_rows(columns: Seq<ColumnMetadata>, rows: Seq<RowView>) -> Seq<Seq<char>> {
    Seq::new(rows.len(), |i: int| values_row(columns, rows[i], i as nat))
}

fn values_row_build(table: &TableMetadata, row: &Row, ordinal: u64) -> (item: String)
    ensures
        item@ == values_row(table.columns@, row.deep_view(), ordinal as nat),
{
    let ghost cols = table.columns@;
    let mut cells = String::new();
    let mut i: usize = 0;
    while i < table.columns.len()
        invariant
            i <= cols.len(),
            cols == table.columns@,
            cells@ =~= typed_cells(cols.take(i as int), row.deep_view()),
        decreases cols.len() - i,
    {
        proof {
            assert(cols.take(i + 1).drop_last() =~= cols.take(i as int));
        }
        let column = &table.columns[i];
        let mut item = ", ".to_owned();
        match row_get(row, column.index()) {
            Some(cell) => cell_append(&mut item, cell),
            None => item.append("NULL"),
        }
        item.append("::");
        item.append(column.cache_type_name.as_str());
        cells.append(item.as_str());
        i = i + 1;
    }
    proof {
        assert(cols.take(i as int) =~= cols);
    }
    let mut item = "(".to_owned();
    decimal_append(&mut item, ordinal);
    item.append(cells.as_str());
    item.append(")");
    item
}

fn values_rows_build(table: &TableMetadata, rows: &Vec<&Row>) -> (items: Vec<String>)
    ensures
        items.deep_view() == values_rows(table.columns@, row_refs_view(rows@)),
{
    let ghost views = row_refs_view(rows@);
    let mut items: Vec<String> = Vec::new();
    let mut i: usize = 0;
    while i < rows.len()
        invariant
            i <= rows.len(),
            views == row_refs_view(rows@),
            items.deep_view() =~= values_rows(table.columns@, views.take(i as int)),
        decreases rows.len() - i,
    {
        let item = values_row_build(table, rows[i], i as u64);
        let ghost before = items.deep_view();
        let ghost text = item@;
        items.push(item);
        proof {
            assert(items.deep_view() =~= before.push(text));
            assert(values_rows(table.columns@, views.take(i + 1)) =~= values_rows(
                table.columns@,
                views.take(i as int),
            ).push(text));
        }
        i = i + 1;
    }
    proof {
        assert(views.take(i as int) =~= views);
    }
    items
}

pub open spec fn name_items(columns: Seq<ColumnMetadata>) -> Seq<char>
    decreases columns.len(),
{
    if columns.len() == 0 {
        Seq::empty()
    } else {
        name_items(columns.drop_last()) + (", "@ + columns.last().name@)
    }
}

/// The inlined row-change statement for a chunk of rows.
pub open spec fn row_change_inline(
    table: TableMetadata,
    order_columns: Seq<String>,
    rows: Seq<RowView>,
) -> Seq<char> {
    row_change_select(table, order_columns) + " FROM (VALUES "@ + joined(
        values_rows(table.columns@, rows),
        ", "@,
    ) + ") AS v("@ + BATCH_IDX_COLUMN@ + name_items(table.columns@) + ")"@ + row_change_join_on(
        table,
    )
}

/// Build the inlined row-change statement for a chunk of rows.
pub fn row_change_inline_sql(
    table: &TableMetadata,
    order_columns: &Vec<String>,
    rows: &Vec<&Row>,
) -> (sql: String)
    ensures
        sql@ == row_change_inline(*table, order_columns@, row_refs_view(rows@)),
{
    let ghost cols = table.columns@;
    let mut names = String::new();
    let mut i: usize = 0;
    while i < table.columns.len()
        invariant
            i <= cols.len(),
            cols == table.columns@,
            names@ =~= name_items(cols.take(i as int)),
        decreases cols.len() - i,
    {
        proof {
            assert(cols.take(i + 1).drop_last() =~= cols.take(i as int));
        }
        let mut item = ", ".to_owned();
        item.append(table.columns[i].name.as_str());
        names.append(item.as_str());
        i = i + 1;
    }
    proof {
        assert(cols.take(i as int) =~= cols);
    }
    let mut sql = String::new();
    row_change_select_into(&mut sql, table, order_columns);
    proof {
        assert(sql@ =~= row_change_select(*table, order_columns@));
    }
    sql.append(" FROM (VALUES ");
    list_append(&mut sql, &values_rows_build(table, rows), ", ");
    sql.append(") AS v(");
    sql.append(BATCH_IDX_COLUMN);
    sql.append(names.as_str());
    sql.append(")");
    row_change_join_on_into(&mut sql, table);
    sql
}

/// `c IS DISTINCT FROM <cell> AS c` for each column the row has a cell for.
pub open spec fn distinct_items(columns: Seq<ColumnMetadata>, row: RowView) -> Seq<Seq<char>>
    decreases columns.len(),
{
    if columns.len() == 0 {
        Seq::empty()
    } else {
        let rest = distinct_items(columns.drop_last(), row);
        let name = columns.last().name@;
        match cell_at(row, columns.last().index_spec()) {
            Some(cell) => rest.push(
                name + " IS DISTINCT FROM "@ + cell_sql(cell) + " AS "@ + name,
            ),
            None => rest,
        }
    }
}

/// `k = <cell>` for each key column the row has a cell for.
pub open spec fn plain_pk_conditions(
    columns: Seq<ColumnMetadata>,
    pk: Seq<String>,
    row: RowView,
) -> Seq<Seq<char>>
    decreases pk.len(),
{
    if pk.len() == 0 {
        Seq::empty()
    } else {
        let rest = plain_pk_conditions(columns, pk.drop_last(), row);
        match named_cell(columns, row, pk.last()@) {
            Some(cell) => rest.push(pk.last()@ + " = "@ + cell_sql(cell)),
            None => rest,
        }
    }
}

/// The statement that compares one row with its cached image.
pub open spec fn row_changes_query(table: TableMetadata, row: RowView) -> Seq<char> {
    "SELECT "@ + joined(distinct_items(table.columns@, row), ", "@) + " FROM "@ + table.schema@
        + "."@ + table.name@ + " WHERE "@ + joined(
        plain_pk_conditions(table.columns@, table.primary_key_columns@, row),
        " AND "@,
    )
}

/// Build the statement that compares one row with its cached image. A row with
/// no key cell gives [`CacheError::NoPrimaryKey`].
pub fn query_row_changes_sql(table: &TableMetadata, row: &Row) -> (sql: Result<String, CacheError>)
    ensures
        sql is Ok <==> plain_pk_conditions(
            table.columns@,
            table.primary_key_columns@,
            row.deep_view(),
        ).len() > 0,
        sql matches Ok(s) ==> s@ == row_changes_query(*table, row.deep_view()),
        sql matches Err(e) ==> e == CacheError::NoPrimaryKey,
{
    let ghost cols = table.columns@;
    let ghost pk = table.primary_key_columns@;
    let ghost view = row.deep_view();
    let mut items: Vec<String> = Vec::new();
    let mut i: usize = 0;
    while i < table.columns.len()
        invariant
            i <= cols.len(),
            cols == table.columns@,
            view == row.deep_view(),
            items.deep_view() =~= distinct_items(cols.take(i as int), view),
        decreases cols.len() - i,
    {
        proof {
            assert(cols.take(i + 1).drop_last() =~= cols.take(i as int));
        }
        let column = &table.columns[i];
        if let Some(cell) = row_get(row, column.index()) {
            let mut item = column.name.clone();
            item.append(" IS DISTINCT FROM ");
            item.append(cell_rendered(cell).as_str());
            item.append(" AS ");
            item.append(column.name.as_str());
            let ghost before = items.deep_view();
            let ghost text = item@;
            items.push(item);
            proof {
                assert(items.deep_view() =~= before.push(text));
            }
        }
        i = i + 1;
    }
    let mut conditions: Vec<String> = Vec::new();
    let mut k: usize = 0;
    while k < table.primary_key_columns.len()
        invariant
            k <= pk.len(),
            cols == table.columns@,
            pk == table.primary_key_columns@,
            view == row.deep_view(),
            conditions.deep_view() =~= plain_pk_conditions(cols, pk.take(k as int), view),
        decreases pk.len() - k,
    {
        proof {
            assert(pk.take(k + 1).drop_last() =~= pk.take(k as int));
        }
        let name = &table.primary_key_columns[k];
        if let Some(cell) = table.named_cell_get(row, name) {
            let mut item = name.clone();
            item.append(" = ");
            item.append(cell_rendered(cell).as_str());
            let ghost before = conditions.deep_view();
            let ghost text = item@;
            conditions.push(item);
            proof {
                assert(conditions.deep_view() =~= before.push(text));
            }
        }
        k = k + 1;
    }
    proof {
        assert(cols.take(i as int) =~= cols);
        assert(pk.take(k as int) =~= pk);
    }
    if conditions.len() == 0 {
        return Err(CacheError::NoPrimaryKey);
    }
    let mut sql = "SELECT ".to_owned();
    list_append(&mut sql, &items, ", ");
    sql.append(" FROM ");
    sql.append(table.schema.as_str());
    sql.append(".");
    sql.append(table.name.as_str());
    sql.append(" WHERE ");
    list_append(&mut sql, &conditions, " AND ");
    Ok(sql)
}

/// The value of a [`ColumnChange`].
pub struct ChangeView {
    pub column: Seq<char>,
    pub changed: bool,
    pub old_less: Option<bool>,
    pub old_null: Option<bool>,
}

impl View for ColumnChange {
    type V = ChangeView;

    open spec fn view(&self) -> ChangeView {
        ChangeView {
            column: self.column@,
            changed: self.changed,
            old_less: self.old_less,
            old_null: self.old_null,
        }
    }
}

pub open spec fn row_changes_view(changes: Seq<ColumnChange>) -> Seq<ChangeView> {
    Seq::new(changes.len(), |i: int| changes[i]@)
}

/// The boolean of a PostgreSQL boolean in text form.
pub open spec fn pg_bool(text: Option<Seq<char>>) -> Option<bool> {
    match text {
        Some(t) => if t == "t"@ {
            Some(true)
        } else if t == "f"@ {
            Some(false)
        } else {
            None
        },
        None => None,
    }
}

/// The boolean of a PostgreSQL boolean in text form.
pub fn pg_bool_text(text: &Option<String>) -> (value: Option<bool>)
    ensures
        value == pg_bool(text.deep_view()),
{
    match text {
        Some(t) => if *t == "t".to_owned() {
            Some(true)
        } else if *t == "f".to_owned() {
            Some(false)
        } else {
            None
        },
        None => None,
    }
}

/// Whether `text` starts with `prefix`.
pub open spec fn starts_with(text: Seq<char>, prefix: Seq<char>) -> bool {
    prefix.len() <= text.len() && text.take(prefix.len() as int) == prefix
}

/// `text` without its first characters, as many as `prefix` has, when it
/// starts with it.
fn prefix_strip(text: &String, prefix: &str) -> (rest: Option<String>)
    ensures
        match rest {
            Some(r) => starts_with(text@, prefix@) && r@ == text@.skip(prefix@.len() as int),
            None => !starts_with(text@, prefix@),
        },
{
    let n: usize = prefix.unicode_len();
    let m: usize = text.as_str().unicode_len();
    if n > m {
        return None;
    }
    let head = text.as_str().substring_char(0, n).to_owned();
    assert(head@ =~= text@.take(n as int));
    if head == prefix.to_owned() {
        let rest = text.as_str().substring_char(n, m).to_owned();
        assert(rest@ =~= text@.skip(n as int));
        Some(rest)
    } else {
        None
    }
}

/// A change list with an ordering answer for a column that is already in it.
pub open spec fn ordering_noted(
    changes: Seq<ChangeView>,
    column: Seq<char>,
    less: bool,
    value: Option<bool>,
) -> Seq<ChangeView> {
    Seq::new(
        changes.len(),
        |i: int|
            if changes[i].column == column {
                if less {
                    ChangeView { old_less: value, ..changes[i] }
                } else {
                    ChangeView { old_null: value, ..changes[i] }
                }
            } else {
                changes[i]
            },
    )
}

/// A change list with one more column of a row-change statement's result. The
/// alias tells what was asked; a change that is NULL counts as none.
pub open spec fn column_folded(
    changes: Seq<ChangeView>,
    alias: Seq<char>,
    value: Option<bool>,
) -> Seq<ChangeView> {
    if starts_with(alias, OLD_LESS_THAN_ALIAS_PREFIX@) {
        ordering_noted(changes, alias.skip(OLD_LESS_THAN_ALIAS_PREFIX@.len() as int), true, value)
    } else if starts_with(alias, OLD_IS_NULL_ALIAS_PREFIX@) {
        ordering_noted(changes, alias.skip(OLD_IS_NULL_ALIAS_PREFIX@.len() as int), false, value)
    } else {
        changes.push(
            ChangeView {
                column: alias,
                changed: value == Some(true),
                old_less: None,
                old_null: None,
            },
        )
    }
}

fn ordering_note(changes: &mut RowChanges, column: &String, less: bool, value: Option<bool>)
    ensures
        row_changes_view(final(changes)@) == ordering_noted(
            row_changes_view(old(changes)@),
            column@,
            less,
            value,
        ),
{
    let ghost start = row_changes_view(changes@);
    let ghost goal = ordering_noted(start, column@, less, value);
    let mut i: usize = 0;
    while i < changes.len()
        invariant
            i <= changes.len(),
            changes@.len() == start.len(),
            goal == ordering_noted(start, column@, less, value),
            forall|k: int|
                0 <= k < start.len() ==> (#[trigger] changes@[k])@ == if k < i {
                    goal[k]
                } else {
                    start[k]
                },
        decreases changes.len() - i,
    {
        assert(changes@[i as int]@ == start[i as int]);
        if changes[i].column == *column {
            let ghost before = changes@;
            if less {
                changes[i].old_less = value;
            } else {
                changes[i].old_null = value;
            }
            proof {
                assert(changes@[i as int]@ == goal[i as int]);
                assert forall|k: int| 0 <= k < start.len() && k != i implies changes@[k]
                    == #[trigger] before[k] by {}
            }
        }
        i = i + 1;
    }
    proof {
        assert(row_changes_view(changes@) =~= goal);
    }
}

/// Add one column of a row-change statement's result.
pub fn row_change_column_fold(changes: &mut RowChanges, alias: &String, value: Option<bool>)
    ensures
        row_changes_view(final(changes)@) == column_folded(
            row_changes_view(old(changes)@),
            alias@,
            value,
        ),
{
    if let Some(column) = prefix_strip(alias, OLD_LESS_THAN_ALIAS_PREFIX) {
        ordering_note(changes, &column, true, value);
    } else if let Some(column) = prefix_strip(alias, OLD_IS_NULL_ALIAS_PREFIX) {
        ordering_note(changes, &column, false, value);
    } else {
        let ghost before = row_changes_view(changes@);
        let changed = match value {
            Some(true) => true,
            _ => false,
        };
        let change = ColumnChange {
            column: alias.clone(),
            changed,
            old_less: None,
            old_null: None,
        };
        let ghost added = change@;
        changes.push(change);
        proof {
            assert(row_changes_view(changes@) =~= before.push(added));
        }
    }
}

/// The changes in one result row: the columns' names, and their values.
pub open spec fn changes_folded(names: Seq<Seq<char>>, cells: RowView, from: int, to: int) -> Seq<
    ChangeView,
>
    decreases to - from,
{
    if to <= from {
        Seq::empty()
    } else {
        column_folded(
            changes_folded(names, cells, from, to - 1),
            names[to - 1],
            pg_bool(cell_or_null(cells, to - 1)),
        )
    }
}

/// Read the changes of one result row, from its column `from` on.
pub fn row_changes_read(names: &Vec<String>, cells: &Row, from: usize) -> (changes: RowChanges)
    requires
        from <= names@.len(),
    ensures
        row_changes_view(changes@) == changes_folded(
            names.deep_view(),
            cells.deep_view(),
            from as int,
            names@.len() as int,
        ),
{
    let mut changes: RowChanges = Vec::new();
    let mut i: usize = from;
    proof {
        assert(row_changes_view(changes@) =~= Seq::<ChangeView>::empty());
    }
    while i < names.len()
        invariant
            from <= i <= names.len(),
            row_changes_view(changes@) == changes_folded(
                names.deep_view(),
                cells.deep_view(),
                from as int,
                i as int,
            ),
        decreases names.len() - i,
    {
        let value = match row_get(cells, i) {
            Some(cell) => pg_bool_text(cell),
            None => None,
        };
        row_change_column_fold(&mut changes, &names[i], value);
        i = i + 1;
    }
    changes
}

/// A template with a row's cells in its places.
pub open spec fn rendered(pieces: Seq<TemplatePiece>, row: RowView) -> Seq<char>
    decreases pieces.len(),
{
    if pieces.len() == 0 {
        Seq::empty()
    } else {
        rendered(pieces.drop_last(), row) + match pieces.last() {
            TemplatePiece::Text(text) => text@,
            TemplatePiece::Cell(i) => cell_sql(cell_or_null(row, i as int)),
        }
    }
}

/// `EXISTS (…)` for each FROM occurrence of the relation, with the row in its
/// place.
pub open spec fn occurrence_tests(occurrences: Seq<Vec<TemplatePiece>>, row: RowView) -> Seq<
    Seq<char>,
> {
    Seq::new(
        occurrences.len(),
        |i: int| "EXISTS ("@ + rendered(occurrences[i]@, row) + ")"@,
    )
}

/// Whether the row belongs to the query's result, as SQL: it can stand in for
/// any occurrence of its relation.
pub open spec fn membership_predicate(q: UpdateQuery, row: RowView) -> Seq<char> {
    joined(occurrence_tests(q.occurrences@, row), " OR "@)
}

fn template_render(pieces: &Vec<TemplatePiece>, row: &Row) -> (text: String)
    ensures
        text@ == rendered(pieces@, row.deep_view()),
{
    let mut text = String::new();
    let mut i: usize = 0;
    while i < pieces.len()
        invariant
            i <= pieces.len(),
            text@ =~= rendered(pieces@.take(i as int), row.deep_view()),
        decreases pieces.len() - i,
    {
        proof {
            assert(pieces@.take(i + 1).drop_last() =~= pieces@.take(i as int));
        }
        match &pieces[i] {
            TemplatePiece::Text(t) => text.append(t.as_str()),
            TemplatePiece::Cell(at) => match row_get(row, *at) {
                Some(cell) => cell_append(&mut text, cell),
                None => text.append("NULL"),
            },
        }
        i = i + 1;
    }
    proof {
        assert(pieces@.take(i as int) =~= pieces@);
    }
    text
}

/// Append the query's membership test of the row. A query that is no SELECT
/// gives [`CacheError::InvalidQuery`].
pub fn cache_predicate_into(buf: &mut String, q: &UpdateQuery, row: &Row) -> (r: Result<
    (),
    CacheError,
>)
    ensures
        r is Ok <==> q.occurrences@.len() > 0,
        r is Ok ==> final(buf)@ == old(buf)@ + membership_predicate(*q, row.deep_view()),
        r matches Err(e) ==> e == CacheError::InvalidQuery && final(buf)@ == old(buf)@,
{
    if q.occurrences.len() == 0 {
        return Err(CacheError::InvalidQuery);
    }
    let ghost all = q.occurrences@;
    let mut items: Vec<String> = Vec::new();
    let mut i: usize = 0;
    while i < q.occurrences.len()
        invariant
            i <= all.len(),
            all == q.occurrences@,
            items.deep_view() =~= occurrence_tests(all.take(i as int), row.deep_view()),
        decreases all.len() - i,
    {
        let mut item = "EXISTS (".to_owned();
        item.append(template_render(&q.occurrences[i], row).as_str());
        item.append(")");
        let ghost before = items.deep_view();
        let ghost text = item@;
        items.push(item);
        proof {
            assert(items.deep_view() =~= before.push(text));
            assert(occurrence_tests(all.take(i + 1), row.deep_view()) =~= occurrence_tests(
                all.take(i as int),
                row.deep_view(),
            ).push(text));
        }
        i = i + 1;
    }
    proof {
        assert(all.take(i as int) =~= all);
    }
    list_append(buf, &items, " OR ");
    Ok(())
}

/// The position of the query with the given fingerprint.
pub open spec fn query_position(queries: Seq<UpdateQuery>, fingerprint: u64) -> Option<int>
    decreases queries.len(),
{
    if queries.len() == 0 {
        None
    } else {
        match query_position(queries.drop_last(), fingerprint) {
            Some(i) => Some(i),
            None => if queries.last().fingerprint == fingerprint {
                Some(queries.len() - 1)
            } else {
                None
            },
        }
    }
}

/// The query with the given fingerprint, by reference.
pub fn query_find(queries: &Vec<UpdateQuery>, fingerprint: u64) -> (found: Option<&UpdateQuery>)
    ensures
        match found {
            Some(q) => query_position(queries@, fingerprint) matches Some(i) && 0 <= i
                < queries@.len() && queries@[i] == *q && q.fingerprint == fingerprint,
            None => query_position(queries@, fingerprint) is None,
        },
{
    let mut i: usize = 0;
    proof {
        assert(queries@.take(0) =~= Seq::<UpdateQuery>::empty());
    }
    while i < queries.len()
        invariant
            i <= queries.len(),
            query_position(queries@.take(i as int), fingerprint) is None,
        decreases queries.len() - i,
    {
        proof {
            assert(queries@.take(i + 1).drop_last() =~= queries@.take(i as int));
        }
        if queries[i].fingerprint == fingerprint {
            proof {
                lemma_query_position_prefix(queries@, fingerprint, i + 1);
            }
            return Some(&queries[i]);
        }
        i = i + 1;
    }
    proof {
        assert(queries@.take(i as int) =~= queries@);
    }
    None
}

proof fn lemma_query_position_prefix(queries: Seq<UpdateQuery>, fingerprint: u64, k: int)
    requires
        0 <= k <= queries.len(),
        query_position(queries.take(k), fingerprint) is Some,
    ensures
        query_position(queries, fingerprint) == query_position(queries.take(k), fingerprint),
    decreases queries.len() - k,
{
    if k < queries.len() {
        assert(queries.take(k + 1).drop_last() =~= queries.take(k));
        lemma_query_position_prefix(queries, fingerprint, k + 1);
    } else {
        assert(queries.take(k) =~= queries);
    }
}

/// The membership tests of the queries, each in parentheses; `None` when one
/// of them cannot be asked.
pub open spec fn membership_tests(
    queries: Seq<UpdateQuery>,
    fingerprints: Seq<u64>,
    row: RowView,
) -> Option<Seq<Seq<char>>>
    decreases fingerprints.len(),
{
    if fingerprints.len() == 0 {
        Some(Seq::empty())
    } else {
        match (
            membership_tests(queries, fingerprints.drop_last(), row),
            query_position(queries, fingerprints.last()),
        ) {
            (Some(rest), Some(i)) => if queries[i].occurrences@.len() > 0 {
                Some(rest.push("("@ + membership_predicate(queries[i], row) + ")"@))
            } else {
                None
            },
            _ => None,
        }
    }
}

/// One statement that asks several queries about a row. With `any` it asks
/// whether one of them holds it, otherwise for each of them.
pub open spec fn membership_select(
    queries: Seq<UpdateQuery>,
    fingerprints: Seq<u64>,
    row: RowView,
    any: bool,
) -> Option<Seq<char>> {
    match membership_tests(queries, fingerprints, row) {
        Some(tests) => Some(
            "SELECT "@ + joined(
                tests,
                if any {
                    " OR "@
                } else {
                    ", "@
                },
            ),
        ),
        None => None,
    }
}

proof fn lemma_tests_prefix_missing(
    queries: Seq<UpdateQuery>,
    fingerprints: Seq<u64>,
    row: RowView,
    k: int,
)
    requires
        0 <= k <= fingerprints.len(),
        membership_tests(queries, fingerprints.take(k), row) is None,
    ensures
        membership_tests(queries, fingerprints, row) is None,
    decreases fingerprints.len() - k,
{
    if k < fingerprints.len() {
        assert(fingerprints.take(k + 1).drop_last() =~= fingerprints.take(k));
        lemma_tests_prefix_missing(queries, fingerprints, row, k + 1);
    } else {
        assert(fingerprints.take(k) =~= fingerprints);
    }
}

/// Build one statement that asks several queries about a row. A query that is
/// no SELECT, or unknown, gives [`CacheError::InvalidQuery`].
pub fn membership_select_sql(
    queries: &Vec<UpdateQuery>,
    fingerprints: &Vec<u64>,
    row: &Row,
    any: bool,
) -> (sql: Result<String, CacheError>)
    ensures
        match sql {
            Ok(s) => membership_select(queries@, fingerprints@, row.deep_view(), any) == Some(s@),
            Err(e) => e == CacheError::InvalidQuery && membership_select(
                queries@,
                fingerprints@,
                row.deep_view(),
                any,
            ) is None,
        },
{
    let ghost view = row.deep_view();
    let mut items: Vec<String> = Vec::new();
    let mut i: usize = 0;
    proof {
        assert(fingerprints@.take(0) =~= Seq::<u64>::empty());
        assert(items.deep_view() =~= Seq::<Seq<char>>::empty());
    }
    while i < fingerprints.len()
        invariant
            i <= fingerprints.len(),
            view == row.deep_view(),
            membership_tests(queries@, fingerprints@.take(i as int), view) == Some(
                items.deep_view(),
            ),
        decreases fingerprints.len() - i,
    {
        proof {
            assert(fingerprints@.take(i + 1).drop_last() =~= fingerprints@.take(i as int));
        }
        match query_find(queries, fingerprints[i]) {
            Some(q) => {
                let mut item = "(".to_owned();
                match cache_predicate_into(&mut item, q, row) {
                    Ok(_) => {},
                    Err(e) => {
                        proof {
                            lemma_tests_prefix_missing(queries@, fingerprints@, view, i + 1);
                        }
                        return Err(e);
                    },
                }
                item.append(")");
                let ghost before = items.deep_view();
                let ghost text = item@;
                items.push(item);
                proof {
                    assert(items.deep_view() =~= before.push(text));
                }
            },
            None => {
                proof {
                    lemma_tests_prefix_missing(queries@, fingerprints@, view, i + 1);
                }
                return Err(CacheError::InvalidQuery);
            },
        }
        i = i + 1;
    }
    proof {
        assert(fingerprints@.take(i as int) =~= fingerprints@);
    }
    let mut sql = "SELECT ".to_owned();
    if any {
        list_append(&mut sql, &items, " OR ");
    } else {
        list_append(&mut sql, &items, ", ");
    }
    Ok(sql)
}

/// One arm of an inlined membership statement.
pub open spec fn inline_arm(q: UpdateQuery, ordinal: nat, values: Seq<char>) -> Seq<char> {
    q.batch_head@ + decimal(ordinal) + q.batch_middle@ + values + q.batch_tail@
}

pub open spec fn inline_arms(
    queries: Seq<UpdateQuery>,
    fingerprints: Seq<u64>,
    values: Seq<char>,
) -> Option<Seq<Seq<char>>>
    decreases fingerprints.len(),
{
    if fingerprints.len() == 0 {
        Some(Seq::empty())
    } else {
        match (
            inline_arms(queries, fingerprints.drop_last(), values),
            query_position(queries, fingerprints.last()),
        ) {
            (Some(rest), Some(i)) => Some(
                rest.push(inline_arm(queries[i], (fingerprints.len() - 1) as nat, values)),
            ),
            _ => None,
        }
    }
}

proof fn lemma_arms_prefix_missing(
    queries: Seq<UpdateQuery>,
    fingerprints: Seq<u64>,
    values: Seq<char>,
    k: int,
)
    requires
        0 <= k <= fingerprints.len(),
        inline_arms(queries, fingerprints.take(k), values) is None,
    ensures
        inline_arms(queries, fingerprints, values) is None,
    decreases fingerprints.len() - k,
{
    if k < fingerprints.len() {
        assert(fingerprints.take(k + 1).drop_last() =~= fingerprints.take(k));
        lemma_arms_prefix_missing(queries, fingerprints, values, k + 1);
    } else {
        assert(fingerprints.take(k) =~= fingerprints);
    }
}

/// The inlined statement that asks several queries about several rows: one arm
/// per query, each reporting its ordinal and the matching rows' ordinals.
pub open spec fn membership_inline(
    queries: Seq<UpdateQuery>,
    fingerprints: Seq<u64>,
    columns: Seq<ColumnMetadata>,
    rows: Seq<RowView>,
) -> Option<Seq<char>> {
    match inline_arms(queries, fingerprints, joined(values_rows(columns, rows), ", "@)) {
        Some(arms) => Some(joined(arms, " UNION ALL "@)),
        None => None,
    }
}

/// Build the inlined statement that asks several queries about several rows.
pub fn membership_inline_sql(
    queries: &Vec<UpdateQuery>,
    fingerprints: &Vec<u64>,
    table: &TableMetadata,
    rows: &Vec<&Row>,
) -> (sql: Result<String, CacheError>)
    ensures
        match sql {
            Ok(s) => membership_inline(
                queries@,
                fingerprints@,
                table.columns@,
                row_refs_view(rows@),
            ) == Some(s@),
            Err(e) => e == CacheError::InvalidQuery && membership_inline(
                queries@,
                fingerprints@,
                table.columns@,
                row_refs_view(rows@),
            ) is None,
        },
{
    let mut values = String::new();
    list_append(&mut values, &values_rows_build(table, rows), ", ");
    let ghost values_v = joined(values_rows(table.columns@, row_refs_view(rows@)), ", "@);
    let mut arms: Vec<String> = Vec::new();
    let mut i: usize = 0;
    proof {
        assert(values@ =~= values_v);
        assert(fingerprints@.take(0) =~= Seq::<u64>::empty());
        assert(arms.deep_view() =~= Seq::<Seq<char>>::empty());
    }
    while i < fingerprints.len()
        invariant
            i <= fingerprints.len(),
            values@ == values_v,
            values_v == joined(values_rows(table.columns@, row_refs_view(rows@)), ", "@),
            inline_arms(queries@, fingerprints@.take(i as int), values_v) == Some(
                arms.deep_view(),
            ),
        decreases fingerprints.len() - i,
    {
        proof {
            assert(fingerprints@.take(i + 1).drop_last() =~= fingerprints@.take(i as int));
        }
        match query_find(queries, fingerprints[i]) {
            Some(q) => {
                let mut arm = q.batch_head.clone();
                decimal_append(&mut arm, i as u64);
                arm.append(q.batch_middle.as_str());
                arm.append(values.as_str());
                arm.append(q.batch_tail.as_str());
                let ghost before = arms.deep_view();
                let ghost text = arm@;
                arms.push(arm);
                proof {
                    assert(arms.deep_view() =~= before.push(text));
                }
            },
            None => {
                proof {
                    lemma_arms_prefix_missing(queries@, fingerprints@, values_v, i + 1);
                }
                return Err(CacheError::InvalidQuery);
            },
        }
        i = i + 1;
    }
    proof {
        assert(fingerprints@.take(i as int) =~= fingerprints@);
    }
    let mut sql = String::new();
    list_append(&mut sql, &arms, " UNION ALL ");
    proof {
        assert(sql@ =~= joined(arms.deep_view(), " UNION ALL "@));
    }
    Ok(sql)
}

/// The columns that order the LIMIT windows of a relation's queries, each once,
/// in order of first occurrence.
pub open spec fn order_columns(queries: Seq<UpdateQuery>) -> Seq<Seq<char>>
    decreases queries.len(),
{
    if queries.len() == 0 {
        Seq::empty()
    } else {
        with_all_distinct(
            order_columns(queries.drop_last()),
            queries.last().limit_window_columns.deep_view(),
        )
    }
}

fn names_insert(list: &mut Vec<String>, names: &Vec<String>)
    ensures
        final(list).deep_view() == with_all_distinct(old(list).deep_view(), names.deep_view()),
{
    let ghost start = list.deep_view();
    let ghost all = names.deep_view();
    let mut i: usize = 0;
    proof {
        assert(all.take(0) =~= Seq::<Seq<char>>::empty());
    }
    while i < names.len()
        invariant
            i <= names.len(),
            all == names.deep_view(),
            list.deep_view() == with_all_distinct(start, all.take(i as int)),
        decreases names.len() - i,
    {
        let ghost before = list.deep_view();
        proof {
            assert(all.take(i as int + 1).drop_last() =~= all.take(i as int));
            lemma_name_in(*list, names@[i as int]@);
        }
        if !name_contains(list, &names[i]) {
            list.push(names[i].clone());
            proof {
                assert(list.deep_view() =~= before.push(all[i as int]));
            }
        }
        i = i + 1;
    }
    proof {
        assert(all.take(i as int) =~= all);
    }
}

/// The columns that order the LIMIT windows of a relation's queries.
pub fn relation_order_columns(queries: Option<&UpdateQueries>) -> (columns: Vec<String>)
    ensures
        columns.deep_view() == (match queries {
            Some(u) => order_columns(u.queries@),
            None => Seq::<Seq<char>>::empty(),
        }),
{
    let mut columns: Vec<String> = Vec::new();
    proof {
        assert(columns.deep_view() =~= Seq::<Seq<char>>::empty());
    }
    if let Some(u) = queries {
        let list = &u.queries;
        let mut i: usize = 0;
        while i < list.len()
            invariant
                i <= list.len(),
                list == u.queries,
                columns.deep_view() == order_columns(list@.take(i as int)),
            decreases list.len() - i,
        {
            proof {
                assert(list@.take(i as int + 1).drop_last() =~= list@.take(i as int));
            }
            names_insert(&mut columns, &list[i].limit_window_columns);
            i = i + 1;
        }
        proof {
            assert(list@.take(i as int) =~= list@);
        }
    }
    columns
}

} // verus!
