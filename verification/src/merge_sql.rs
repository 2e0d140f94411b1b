//! The statements that drain a staging table.
//!
//! A drain goes window by window: a window is a range of heap blocks, so that
//! a statement over it is complete whatever plan runs it.
use vstd::prelude::*;
use vstd::string::*;

use crate::catalog::ColumnMetadata;
use crate::catalog::TableMetadata;
use crate::text::decimal;
use crate::text::decimal_append;
use crate::text::identifier;
use crate::text::identifier_quoted;
use crate::text::identifiers;
use crate::text::identifiers_quoted;
use crate::text::joined;
use crate::text::list_append;

verus! {

/// What the statements that merge into one cache table have in common.
pub struct MergePlan {
    pub schema: String,
    pub name: String,
    /// The columns, quoted, in order.
    pub columns_csv: String,
    /// The key columns, quoted, in parentheses.
    pub pk_columns_paren: String,
    /// What happens to a row that is already there: it is stamped anew, and
    /// keeps its values.
    pub conflict: String,
}

/// The mathematical value of a [`MergePlan`].
pub struct MergePlanView {
    pub schema: Seq<char>,
    pub name: Seq<char>,
    pub columns_csv: Seq<char>,
    pub pk_columns_paren: Seq<char>,
    pub conflict: Seq<char>,
}

impl View for MergePlan {
    type V = MergePlanView;

    open spec fn view(&self) -> MergePlanView {
        MergePlanView {
            schema: self.schema@,
            name: self.name@,
            columns_csv: self.columns_csv@,
            pk_columns_paren: self.pk_columns_paren@,
            conflict: self.conflict@,
        }
    }
}

/// The names of the columns as double-quoted SQL identifiers.
pub open spec fn column_identifiers(columns: Seq<ColumnMetadata>) -> Seq<Seq<char>> {
    Seq::new(columns.len(), |i: int| identifier(columns[i].name@))
}

/// A list in parentheses.
pub open spec fn parenthesized(items: Seq<Seq<char>>) -> Seq<char> {
    "("@ + joined(items, ","@) + ")"@
}

/// Each column assigned the value that the insert carries.
pub open spec fn excluded_assignments(columns: Seq<Seq<char>>) -> Seq<Seq<char>> {
    Seq::new(columns.len(), |i: int| columns[i] + " = EXCLUDED."@ + columns[i])
}

/// What happens to a row that is already there.
pub open spec fn conflict_sql(pk: Seq<Seq<char>>) -> Seq<char> {
    "ON CONFLICT "@ + parenthesized(pk) + " DO UPDATE SET "@ + joined(
        excluded_assignments(pk),
        ", "@,
    )
}

/// The plan for a relation's cache table.
pub open spec fn merge_plan(table: TableMetadata) -> MergePlanView {
    MergePlanView {
        schema: table.schema@,
        name: table.name@,
        columns_csv: joined(column_identifiers(table.columns@), ","@),
        pk_columns_paren: parenthesized(identifiers(table.primary_key_columns@)),
        conflict: conflict_sql(identifiers(table.primary_key_columns@)),
    }
}

/// The condition that selects the heap blocks from `lo` up to `hi`.
pub open spec fn window_sql(lo: nat, hi: nat) -> Seq<char> {
    " WHERE ctid >= '("@ + decimal(lo) + ",0)'::tid AND ctid < '("@ + decimal(hi) + ",0)'::tid"@
}

/// The statement that empties the heap blocks from `lo` up to `hi`.
pub open spec fn discard_text(staging: Seq<char>, lo: nat, hi: nat) -> Seq<char> {
    "DELETE FROM pgcache_stage."@ + staging + window_sql(lo, hi)
}

/// The filter as a WHERE clause.
pub open spec fn where_clause(filter: Option<Seq<char>>) -> Seq<char> {
    match filter {
        Some(predicate) => " WHERE "@ + predicate,
        None => Seq::empty(),
    }
}

/// The statement that merges the heap blocks from `lo` up to `hi`, and counts
/// the rows it drained. The filter holds rows back from the cache table, not
/// from being drained.
pub open spec fn chunk_text(
    plan: MergePlanView,
    staging: Seq<char>,
    generation: nat,
    lo: nat,
    hi: nat,
    filter: Option<Seq<char>>,
) -> Seq<char> {
    "SET LOCAL mem.query_generation = "@ + decimal(generation) + "; WITH d AS ("@ + discard_text(
        staging,
        lo,
        hi,
    ) + " RETURNING "@ + plan.columns_csv + "), i AS (INSERT INTO "@ + identifier(plan.schema)
        + "."@ + identifier(plan.name) + " ("@ + plan.columns_csv + ") SELECT DISTINCT ON "@
        + plan.pk_columns_paren + " "@ + plan.columns_csv + " FROM d"@ + where_clause(filter)
        + " "@ + plan.conflict + ") SELECT count(*) FROM d"@
}

/// The statement that counts a staging table's heap blocks.
pub open spec fn staging_blocks_text(staging: Seq<char>) -> Seq<char> {
    "SELECT (pg_relation_size('pgcache_stage."@ + staging
        + "') / current_setting('block_size')::bigint)::bigint"@
}

/// Append the condition that selects the heap blocks from `lo` up to `hi`.
fn window_append(sql: &mut String, lo_block: u32, hi_block: u32)
    ensures
        final(sql)@ == old(sql)@ + window_sql(lo_block as nat, hi_block as nat),
{
    let ghost start = sql@;
    sql.append(" WHERE ctid >= '(");
    decimal_append(sql, lo_block as u64);
    sql.append(",0)'::tid AND ctid < '(");
    decimal_append(sql, hi_block as u64);
    sql.append(",0)'::tid");
    proof {
        assert(sql@ =~= start + window_sql(lo_block as nat, hi_block as nat));
    }
}

/// The statement that empties the heap blocks of a staging table from
/// `lo_block` up to `hi_block`.
pub fn discard_sql(staging: &str, lo_block: u32, hi_block: u32) -> (sql: String)
    ensures
        sql@ == discard_text(staging@, lo_block as nat, hi_block as nat),
{
    let mut sql = "DELETE FROM pgcache_stage.".to_owned();
    sql.append(staging);
    window_append(&mut sql, lo_block, hi_block);
    sql
}

/// The statement that counts a staging table's heap blocks.
pub fn staging_blocks_sql(staging: &str) -> (sql: String)
    ensures
        sql@ == staging_blocks_text(staging@),
{
    let mut sql = "SELECT (pg_relation_size('pgcache_stage.".to_owned();
    sql.append(staging);
    sql.append("') / current_setting('block_size')::bigint)::bigint");
    sql
}

fn parenthesized_build(items: &Vec<String>) -> (sql: String)
    ensures
        sql@ == parenthesized(items.deep_view()),
{
    let mut sql = "(".to_owned();
    list_append(&mut sql, items, ",");
    sql.append(")");
    sql
}

impl MergePlan {
    /// The plan for a relation's cache table.
    pub fn build(table: &TableMetadata) -> (plan: MergePlan)
        ensures
            plan@ == merge_plan(*table),
    {
        let mut columns: Vec<String> = Vec::new();
        let mut i: usize = 0;
        proof {
            assert(columns.deep_view() =~= column_identifiers(table.columns@).take(0));
        }
        while i < table.columns.len()
            invariant
                i <= table.columns.len(),
                columns.deep_view() == column_identifiers(table.columns@).take(i as int),
            decreases table.columns.len() - i,
        {
            let ghost before = columns.deep_view();
            columns.push(identifier_quoted(table.columns[i].name.as_str()));
            proof {
                assert(columns.deep_view() =~= before.push(
                    column_identifiers(table.columns@)[i as int],
                ));
                assert(columns.deep_view() =~= column_identifiers(table.columns@).take(
                    i as int + 1,
                ));
            }
            i = i + 1;
        }
        proof {
            assert(columns.deep_view() =~= column_identifiers(table.columns@));
        }
        let mut columns_csv = String::new();
        list_append(&mut columns_csv, &columns, ",");
        let pk = identifiers_quoted(&table.primary_key_columns);
        let pk_columns_paren = parenthesized_build(&pk);
        let conflict = MergePlan::conflict_build(&pk, &pk_columns_paren);
        proof {
            let csv = joined(columns.deep_view(), ","@);
            assert(Seq::<char>::empty() + csv =~= csv);
        }
        MergePlan {
            schema: table.schema.clone(),
            name: table.name.clone(),
            columns_csv,
            pk_columns_paren,
            conflict,
        }
    }

    fn conflict_build(pk: &Vec<String>, pk_columns_paren: &String) -> (sql: String)
        requires
            pk_columns_paren@ == parenthesized(pk.deep_view()),
        ensures
            sql@ == conflict_sql(pk.deep_view()),
    {
        let ghost columns = pk.deep_view();
        let mut assignments: Vec<String> = Vec::new();
        let mut i: usize = 0;
        proof {
            assert(assignments.deep_view() =~= excluded_assignments(columns).take(0));
        }
        while i < pk.len()
            invariant
                i <= pk.len(),
                columns == pk.deep_view(),
                assignments.deep_view() == excluded_assignments(columns).take(i as int),
            decreases pk.len() - i,
        {
            let ghost before = assignments.deep_view();
            let mut item = pk[i].clone();
            item.append(" = EXCLUDED.");
            item.append(pk[i].as_str());
            assignments.push(item);
            proof {
                assert(assignments.deep_view() =~= before.push(
                    excluded_assignments(columns)[i as int],
                ));
                assert(assignments.deep_view() =~= excluded_assignments(columns).take(
                    i as int + 1,
                ));
            }
            i = i + 1;
        }
        proof {
            assert(assignments.deep_view() =~= excluded_assignments(columns));
        }
        let mut sql = "ON CONFLICT ".to_owned();
        sql.append(pk_columns_paren.as_str());
        sql.append(" DO UPDATE SET ");
        list_append(&mut sql, &assignments, ", ");
        sql
    }

    /// The statement that merges the heap blocks of a staging table from
    /// `lo_block` up to `hi_block`.
    pub fn chunk_sql(
        &self,
        staging: &str,
        generation: u64,
        lo_block: u32,
        hi_block: u32,
        filter: Option<&String>,
    ) -> (sql: String)
        ensures
            sql@ == chunk_text(
                self@,
                staging@,
                generation as nat,
                lo_block as nat,
                hi_block as nat,
                match filter {
                    Some(f) => Some(f@),
                    None => None,
                },
            ),
    {
        let mut sql = "SET LOCAL mem.query_generation = ".to_owned();
        decimal_append(&mut sql, generation);
        sql.append("; WITH d AS (");
        let drain = discard_sql(staging, lo_block, hi_block);
        sql.append(drain.as_str());
        sql.append(" RETURNING ");
        sql.append(self.columns_csv.as_str());
        sql.append("), i AS (INSERT INTO ");
        let schema = identifier_quoted(self.schema.as_str());
        sql.append(schema.as_str());
        sql.append(".");
        let name = identifier_quoted(self.name.as_str());
        sql.append(name.as_str());
        sql.append(" (");
        sql.append(self.columns_csv.as_str());
        sql.append(") SELECT DISTINCT ON ");
        sql.append(self.pk_columns_paren.as_str());
        sql.append(" ");
        sql.append(self.columns_csv.as_str());
        sql.append(" FROM d");
        let ghost so_far = sql@;
        match filter {
            Some(predicate) => {
                sql.append(" WHERE ");
                sql.append(predicate.as_str());
                proof {
                    assert(sql@ =~= so_far + (" WHERE "@ + predicate@));
                }
            },
            None => {
                proof {
                    assert(sql@ =~= so_far + Seq::<char>::empty());
                }
            },
        }
        sql.append(" ");
        sql.append(self.conflict.as_str());
        sql.append(") SELECT count(*) FROM d");
        sql
    }
}

} // verus!
