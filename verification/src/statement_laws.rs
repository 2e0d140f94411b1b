//! What the statements that maintain the cache tables do to a stored row, and
//! what the publication lists.
//!
//! A stored row is given by the value of each of its columns.
use vstd::prelude::*;

use crate::catalog::cell_at;
use crate::catalog::name_in;
use crate::catalog::named_cell;
use crate::catalog::ColumnMetadata;
use crate::catalog::RowView;
use crate::catalog::TableMetadata;
use crate::sql::delete_sql;
use crate::sql::excluded_assignments;
use crate::sql::has_pk_cell;
use crate::sql::known_tables;
use crate::sql::on_conflict_tail;
use crate::sql::pk_conditions;
use crate::sql::present_cells;
use crate::sql::present_names;
use crate::sql::truncate_sql;
use crate::sql::upsert_sql;
use crate::text::cell_sql;
use crate::text::identifier;
use crate::text::identifiers;
use crate::text::joined;

verus! {

/// A column and a value for it.
pub type NamedCell = (Seq<char>, Option<Seq<char>>);

/// A delete: from which table, and under which conditions, all of which must
/// hold.
pub struct DeleteStatement {
    pub schema: Seq<char>,
    pub name: Seq<char>,
    pub conditions: Seq<NamedCell>,
}

/// A delete as SQL.
pub open spec fn delete_text(d: DeleteStatement) -> Seq<char> {
    "DELETE FROM "@ + identifier(d.schema) + "."@ + identifier(d.name) + " WHERE "@ + joined(
        d.conditions.map_values(|c: NamedCell| identifier(c.0) + " = "@ + cell_sql(c.1)),
        " AND "@,
    )
}

/// Whether a delete removes a stored row. Nothing equals NULL.
pub open spec fn removes(
    d: DeleteStatement,
    stored: spec_fn(Seq<char>) -> Option<Seq<char>>,
) -> bool {
    forall|i: int|
        0 <= i < d.conditions.len() ==> (#[trigger] d.conditions[i]).1 is Some && stored(
            d.conditions[i].0,
        ) == d.conditions[i].1
}

/// Whether a stored row has the key of a row, as far as the row carries it.
pub open spec fn has_key_of(
    table: TableMetadata,
    row: RowView,
    stored: spec_fn(Seq<char>) -> Option<Seq<char>>,
) -> bool {
    forall|k: int|
        0 <= k < table.primary_key_columns@.len() ==> match named_cell(
            table.columns@,
            row,
            (#[trigger] table.primary_key_columns@[k])@,
        ) {
            Some(Some(value)) => stored(table.primary_key_columns@[k]@) == Some(value),
            Some(None) => false,
            None => true,
        }
}

/// The conditions that a row's key makes.
pub open spec fn key_conditions(columns: Seq<ColumnMetadata>, pk: Seq<String>, row: RowView) -> Seq<
    NamedCell,
> {
    pk.filter(|k: String| named_cell(columns, row, k@) is Some).map_values(
        |k: String| (k@, named_cell(columns, row, k@)->0),
    )
}

proof fn lemma_pk_conditions(columns: Seq<ColumnMetadata>, pk: Seq<String>, row: RowView)
    ensures
        pk_conditions(columns, pk, row) == key_conditions(columns, pk, row).map_values(
            |c: NamedCell| identifier(c.0) + " = "@ + cell_sql(c.1),
        ),
    decreases pk.len(),
{
    reveal(Seq::filter);
    let texts = key_conditions(columns, pk, row).map_values(
        |c: NamedCell| identifier(c.0) + " = "@ + cell_sql(c.1),
    );
    if pk.len() > 0 {
        lemma_pk_conditions(columns, pk.drop_last(), row);
    }
    assert(pk_conditions(columns, pk, row) =~= texts);
}

/// The delete of a row removes from its relation's cache table exactly the
/// stored rows that have its key: those that agree with it in every key column
/// that it carries. A row that differs in one of them stays.
pub proof fn delete_removes_exactly_the_rows_with_the_key(table: TableMetadata, row: RowView)
    ensures
        exists|d: DeleteStatement|
            {
                &&& delete_sql(table, row) == #[trigger] delete_text(d)
                &&& d.schema == table.schema@
                &&& d.name == table.name@
                &&& has_pk_cell(table, row) == (d.conditions.len() > 0)
                &&& forall|stored: spec_fn(Seq<char>) -> Option<Seq<char>>| #[trigger]
                    removes(d, stored) <==> has_key_of(table, row, stored)
            },
        has_pk_cell(table, row) <==> exists|k: int|
            0 <= k < table.primary_key_columns@.len() && named_cell(
                table.columns@,
                row,
                (#[trigger] table.primary_key_columns@[k])@,
            ) is Some,
{
    let pk = table.primary_key_columns@;
    let conditions = key_conditions(table.columns@, pk, row);
    let d = DeleteStatement { schema: table.schema@, name: table.name@, conditions };
    lemma_pk_conditions(table.columns@, pk, row);
    let has = |k: String| named_cell(table.columns@, row, k@) is Some;
    let kept = pk.filter(has);
    pk.filter_lemma(has);
    assert(delete_sql(table, row) =~= delete_text(d));
    assert forall|stored: spec_fn(Seq<char>) -> Option<Seq<char>>| #[trigger]
        removes(d, stored) <==> has_key_of(table, row, stored) by {
        if removes(d, stored) {
            assert forall|k: int| 0 <= k < pk.len() implies match named_cell(
                table.columns@,
                row,
                (#[trigger] pk[k])@,
            ) {
                Some(Some(value)) => stored(pk[k]@) == Some(value),
                Some(None) => false,
                None => true,
            } by {
                if has(pk[k]) {
                    assert(kept.contains(pk[k]));
                    let j = choose|j: int| 0 <= j < kept.len() && kept[j] == pk[k];
                    assert(d.conditions[j] == (
                        pk[k]@,
                        named_cell(table.columns@, row, pk[k]@)->0,
                    ));
                }
            }
        }
        if has_key_of(table, row, stored) {
            assert forall|i: int| 0 <= i < d.conditions.len() implies (
            #[trigger] d.conditions[i]).1 is Some && stored(d.conditions[i].0)
                == d.conditions[i].1 by {
                assert(has(kept[i]));
                lemma_filter_from(pk, has, i);
                let k = choose|k: int| 0 <= k < pk.len() && pk[k] == kept[i];
                assert(d.conditions[i] == (pk[k]@, named_cell(table.columns@, row, pk[k]@)->0));
            }
        }
    }
    if conditions.len() > 0 {
        lemma_filter_from(pk, has, 0);
        let k = choose|k: int| 0 <= k < pk.len() && pk[k] == kept[0];
        assert(has(kept[0]));
        assert(named_cell(table.columns@, row, pk[k]@) is Some);
    }
    if exists|k: int|
        0 <= k < pk.len() && named_cell(table.columns@, row, (#[trigger] pk[k])@) is Some {
        let k = choose|k: int|
            0 <= k < pk.len() && named_cell(table.columns@, row, (#[trigger] pk[k])@) is Some;
        assert(has(pk[k]));
        assert(kept.contains(pk[k]));
    }
}

proof fn lemma_filter_from<A>(s: Seq<A>, pred: spec_fn(A) -> bool, i: int)
    requires
        0 <= i < s.filter(pred).len(),
    ensures
        s.contains(s.filter(pred)[i]),
    decreases s.len(),
{
    reveal(Seq::filter);
    let short = s.drop_last();
    if i < short.filter(pred).len() {
        lemma_filter_from(short, pred, i);
        let k = choose|k: int| 0 <= k < short.len() && short[k] == short.filter(pred)[i];
        assert(s[k] == s.filter(pred)[i]);
    } else {
        assert(s[s.len() - 1] == s.filter(pred)[i]);
    }
}

/// An upsert: into which table, which cells, what makes a stored row the same
/// one, and which of its columns are then assigned.
pub struct UpsertStatement {
    pub schema: Seq<char>,
    pub name: Seq<char>,
    pub cells: Seq<NamedCell>,
    pub key: Seq<Seq<char>>,
    pub assigned: Seq<Seq<char>>,
}

/// An upsert as SQL.
pub open spec fn upsert_text(u: UpsertStatement) -> Seq<char> {
    "INSERT INTO "@ + identifier(u.schema) + "."@ + identifier(u.name) + " ("@ + joined(
        u.cells.map_values(|c: NamedCell| identifier(c.0)),
        ", "@,
    ) + ") VALUES ("@ + joined(u.cells.map_values(|c: NamedCell| cell_sql(c.1)), ", "@)
        + ") ON CONFLICT ("@ + joined(u.key.map_values(|k: Seq<char>| identifier(k)), ", "@) + ")"@
        + (if u.assigned.len() == 0 {
        " DO NOTHING"@
    } else {
        " DO UPDATE SET "@ + joined(
            u.assigned.map_values(
                |c: Seq<char>| identifier(c) + " = EXCLUDED."@ + identifier(c),
            ),
            ", "@,
        )
    })
}

/// The value that an upsert carries for a column; NULL for one it does not
/// mention.
pub open spec fn carried(cells: Seq<NamedCell>, column: Seq<char>) -> Option<Seq<char>> {
    if exists|i: int| 0 <= i < cells.len() && (#[trigger] cells[i]).0 == column {
        cells[choose|i: int| 0 <= i < cells.len() && (#[trigger] cells[i]).0 == column].1
    } else {
        None
    }
}

/// The value of a column after an upsert. `stored` is the row that was there
/// with the same key, if one was.
pub open spec fn upserted(
    u: UpsertStatement,
    stored: Option<spec_fn(Seq<char>) -> Option<Seq<char>>>,
    column: Seq<char>,
) -> Option<Seq<char>> {
    match stored {
        None => carried(u.cells, column),
        Some(old) => if u.assigned.contains(column) {
            carried(u.cells, column)
        } else {
            old(column)
        },
    }
}

/// The cells of the columns that a row has one for.
pub open spec fn row_named_cells(columns: Seq<ColumnMetadata>, row: RowView) -> Seq<NamedCell> {
    columns.filter(|c: ColumnMetadata| cell_at(row, c.index_spec()) is Some).map_values(
        |c: ColumnMetadata| (c.name@, cell_at(row, c.index_spec())->0),
    )
}

/// The columns outside the key that a row has a cell for.
pub open spec fn row_assigned(columns: Seq<ColumnMetadata>, pk: Seq<String>, row: RowView) -> Seq<
    Seq<char>,
> {
    columns.filter(
        |c: ColumnMetadata| cell_at(row, c.index_spec()) is Some && !name_in(pk, c.name@),
    ).map_values(|c: ColumnMetadata| c.name@)
}

proof fn lemma_present(columns: Seq<ColumnMetadata>, pk: Seq<String>, row: RowView)
    ensures
        present_names(columns, row) == row_named_cells(columns, row).map_values(
            |c: NamedCell| identifier(c.0),
        ),
        present_cells(columns, row) == row_named_cells(columns, row).map_values(
            |c: NamedCell| cell_sql(c.1),
        ),
        excluded_assignments(columns, pk, row) == row_assigned(columns, pk, row).map_values(
            |c: Seq<char>| identifier(c) + " = EXCLUDED."@ + identifier(c),
        ),
    decreases columns.len(),
{
    reveal(Seq::filter);
    if columns.len() > 0 {
        lemma_present(columns.drop_last(), pk, row);
    }
    assert(present_names(columns, row) =~= row_named_cells(columns, row).map_values(
        |c: NamedCell| identifier(c.0),
    ));
    assert(present_cells(columns, row) =~= row_named_cells(columns, row).map_values(
        |c: NamedCell| cell_sql(c.1),
    ));
    assert(excluded_assignments(columns, pk, row) =~= row_assigned(columns, pk, row).map_values(
        |c: Seq<char>| identifier(c) + " = EXCLUDED."@ + identifier(c),
    ));
}

/// The columns of a relation have names of their own.
pub open spec fn names_distinct(columns: Seq<ColumnMetadata>) -> bool {
    forall|i: int, j: int|
        0 <= i < j < columns.len() ==> (#[trigger] columns[i]).name@ != (
        #[trigger] columns[j]).name@
}

/// After the upsert of a row, its relation's cache table holds the row: every
/// column that the row has a cell for has that cell's value, whether a row with
/// its key was there or not. Columns that the row has no cell for keep what the
/// row that was there had.
pub proof fn upsert_makes_the_table_hold_the_row(
    table: TableMetadata,
    row: RowView,
    stored: Option<spec_fn(Seq<char>) -> Option<Seq<char>>>,
    i: int,
)
    requires
        names_distinct(table.columns@),
        0 <= i < table.columns@.len(),
        stored matches Some(old) ==> forall|k: int|
            0 <= k < table.columns@.len() && name_in(
                table.primary_key_columns@,
                (#[trigger] table.columns@[k]).name@,
            ) && cell_at(row, table.columns@[k].index_spec()) is Some ==> old(
                table.columns@[k].name@,
            ) == cell_at(row, table.columns@[k].index_spec())->0,
    ensures
        exists|u: UpsertStatement|
            {
                let column = table.columns@[i];
                &&& upsert_sql(table, row) == #[trigger] upsert_text(u)
                &&& u.schema == table.schema@
                &&& u.name == table.name@
                &&& u.key == table.primary_key_columns@.map_values(|k: String| k@)
                &&& match cell_at(row, column.index_spec()) {
                    Some(cell) => upserted(u, stored, column.name@) == cell,
                    None => stored matches Some(old) ==> upserted(u, stored, column.name@) == old(
                        column.name@,
                    ),
                }
            },
{
    let columns = table.columns@;
    let pk = table.primary_key_columns@;
    let u = UpsertStatement {
        schema: table.schema@,
        name: table.name@,
        cells: row_named_cells(columns, row),
        key: pk.map_values(|k: String| k@),
        assigned: row_assigned(columns, pk, row),
    };
    lemma_present(columns, pk, row);
    assert(identifiers(pk) =~= u.key.map_values(|k: Seq<char>| identifier(k)));
    assert(on_conflict_tail(table, row) =~= (if u.assigned.len() == 0 {
        " DO NOTHING"@
    } else {
        " DO UPDATE SET "@ + joined(
            u.assigned.map_values(
                |c: Seq<char>| identifier(c) + " = EXCLUDED."@ + identifier(c),
            ),
            ", "@,
        )
    }));
    assert(upsert_sql(table, row) =~= upsert_text(u));
    let column = columns[i];
    let has = |c: ColumnMetadata| cell_at(row, c.index_spec()) is Some;
    let sets = |c: ColumnMetadata| cell_at(row, c.index_spec()) is Some && !name_in(pk, c.name@);
    columns.filter_lemma(has);
    columns.filter_lemma(sets);
    assert(u.cells.len() == columns.filter(has).len());
    assert(u.assigned.len() == columns.filter(sets).len());
    if has(column) {
        let kept = columns.filter(has);
        assert(kept.contains(column));
        let j = choose|j: int| 0 <= j < kept.len() && kept[j] == column;
        assert(u.cells[j].0 == column.name@);
        let m = choose|m: int| 0 <= m < u.cells.len() && (#[trigger] u.cells[m]).0 == column.name@;
        lemma_filter_from(columns, has, m);
        let k = choose|k: int| 0 <= k < columns.len() && columns[k] == kept[m];
        if k < i {
            assert(columns[k].name@ != columns[i].name@);
        } else if k > i {
            assert(columns[i].name@ != columns[k].name@);
        }
        assert(carried(u.cells, column.name@) == cell_at(row, column.index_spec())->0);
    }
    if sets(column) {
        let kept = columns.filter(sets);
        assert(kept.contains(column));
        let j = choose|j: int| 0 <= j < kept.len() && kept[j] == column;
        assert(u.assigned[j] == column.name@);
    } else if u.assigned.contains(column.name@) {
        let kept = columns.filter(sets);
        let m = choose|m: int| 0 <= m < u.assigned.len() && u.assigned[m] == column.name@;
        assert(sets(kept[m]));
        lemma_filter_from(columns, sets, m);
        let k = choose|k: int| 0 <= k < columns.len() && columns[k] == kept[m];
        if k < i {
            assert(columns[k].name@ != columns[i].name@);
        } else if k > i {
            assert(columns[i].name@ != columns[k].name@);
        }
    }
    assert(upsert_sql(table, row) == upsert_text(u));
}

/// A TRUNCATE names the cache table of every known relation among those
/// truncated, in order, and nothing else; without one there is none.
pub proof fn truncate_names_every_known_table(tables: Map<u32, TableMetadata>, oids: Seq<u32>)
    ensures
        ({
            let names = oids.filter(|oid: u32| tables.contains_key(oid)).map_values(
                |oid: u32|
                    identifier(tables[oid].schema@) + "."@ + identifier(tables[oid].name@),
            );
            truncate_sql(tables, oids) == if names.len() == 0 {
                None
            } else {
                Some("TRUNCATE "@ + joined(names, ", "@))
            }
        }),
{
    lemma_known_tables(tables, oids);
}

proof fn lemma_known_tables(tables: Map<u32, TableMetadata>, oids: Seq<u32>)
    ensures
        known_tables(tables, oids) == oids.filter(
            |oid: u32| tables.contains_key(oid),
        ).map_values(
            |oid: u32| identifier(tables[oid].schema@) + "."@ + identifier(tables[oid].name@),
        ),
    decreases oids.len(),
{
    reveal(Seq::filter);
    if oids.len() > 0 {
        lemma_known_tables(tables, oids.drop_last());
    }
    assert(known_tables(tables, oids) =~= oids.filter(
        |oid: u32| tables.contains_key(oid),
    ).map_values(
        |oid: u32| identifier(tables[oid].schema@) + "."@ + identifier(tables[oid].name@),
    ));
}

} // verus!
