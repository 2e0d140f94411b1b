//! Which cached queries a row change invalidates.
//!
//! In-place maintenance keeps a cached result right as long as a change cannot
//! add rows that the cache tables do not hold. These checks decide, per query,
//! whether a change might.
use vstd::prelude::*;
use vstd::string::*;

use crate::catalog::lemma_name_in;
use crate::catalog::name_contains;
use crate::catalog::name_in;
use crate::catalog::named_cell;
use crate::catalog::Row;
use crate::catalog::RowView;
use crate::catalog::TableMetadata;
use crate::query::constraint_column;
use crate::query::constraint_column_get;
use crate::query::constraint_holds;
use crate::query::constraint_text_holds;
use crate::query::constraint_text_holds_exec;
use crate::query::constraints_of;
use crate::query::has_join_column;
use crate::query::row_constraints_match;
use crate::query::row_matches;
use crate::query::SubqueryKind;
use crate::query::TableConstraint;
use crate::query::UpdateQueries;
use crate::query::UpdateQuery;
use crate::query::UpdateQuerySource;

verus! {

/// Whether a row appeared (or took new values) or went away.
#[derive(Clone, Copy, Debug, PartialEq, Eq, Structural)]
pub enum CdcOperation {
    Upsert,
    Delete,
}

/// What an UPDATE did to one column.
#[derive(Clone, Debug)]
pub struct ColumnChange {
    pub column: String,
    pub changed: bool,
    /// Whether the old value sorts before the new one, where that was asked.
    pub old_less: Option<bool>,
    /// Whether the old value is NULL, where that was asked.
    pub old_null: Option<bool>,
}

/// What an UPDATE of a cached row changed.
pub type RowChanges = Vec<ColumnChange>;

/// Whether `column` changed, if the comparison covered it.
pub open spec fn change_of(changes: Seq<ColumnChange>, column: Seq<char>) -> Option<bool>
    decreases changes.len(),
{
    if changes.len() == 0 {
        None
    } else if changes[0].column@ == column {
        Some(changes[0].changed)
    } else {
        change_of(changes.drop_first(), column)
    }
}

/// Whether `column` changed; a column outside the comparison did not.
pub open spec fn did_change(changes: Seq<ColumnChange>, column: Seq<char>) -> bool {
    change_of(changes, column) == Some(true)
}

/// Whether `column` changed, if the comparison covered it.
pub fn change_get(changes: &RowChanges, column: &String) -> (changed: Option<bool>)
    ensures
        changed == change_of(changes@, column@),
{
    let mut i: usize = 0;
    proof {
        assert(changes@.skip(0) =~= changes@);
    }
    while i < changes.len()
        invariant
            i <= changes.len(),
            change_of(changes@, column@) == change_of(changes@.skip(i as int), column@),
        decreases changes.len() - i,
    {
        proof {
            assert(changes@.skip(i as int).drop_first() =~= changes@.skip(i + 1));
        }
        if changes[i].column == *column {
            return Some(changes[i].changed);
        }
        i = i + 1;
    }
    None
}

/// Whether some column of `columns` changed.
pub open spec fn any_changed(changes: Seq<ColumnChange>, columns: Seq<String>) -> bool {
    exists|i: int| 0 <= i < columns.len() && did_change(changes, (#[trigger] columns[i])@)
}

fn any_changed_exec(changes: &RowChanges, columns: &Vec<String>) -> (any: bool)
    ensures
        any == any_changed(changes@, columns@),
{
    let mut i: usize = 0;
    while i < columns.len()
        invariant
            i <= columns.len(),
            forall|j: int| 0 <= j < i ==> !did_change(changes@, (#[trigger] columns@[j])@),
        decreases columns.len() - i,
    {
        if let Some(true) = change_get(changes, &columns[i]) {
            assert(did_change(changes@, columns@[i as int]@));
            return true;
        }
        i = i + 1;
    }
    false
}

/// Whether the query constrains the relation.
pub open spec fn is_constrained(q: UpdateQuery, table: TableMetadata) -> bool {
    constraints_of(q.constraints.table_constraints@, table.name@) is Some
}

/// Whether a row keeps its place in every join: its key did not change (an
/// empty key image), and the relation is joined, through key columns only.
pub open spec fn join_unchanged(
    q: UpdateQuery,
    table: TableMetadata,
    key: Option<RowView>,
) -> bool {
    &&& key matches Some(k) && k.len() == 0
    &&& has_join_column(q.constraints, table.name@)
    &&& forall|i: int|
        0 <= i < q.constraints.join_columns@.len() && (
        #[trigger] q.constraints.join_columns@[i]).table@ == table.name@ ==> name_in(
            table.primary_key_columns@,
            q.constraints.join_columns@[i].column@,
        )
}

/// Whether a row keeps its place in every join.
pub fn join_membership_unchanged(
    q: &UpdateQuery,
    table: &TableMetadata,
    key: Option<&Row>,
) -> (unchanged: bool)
    ensures
        unchanged == join_unchanged(
            *q,
            *table,
            match key {
                Some(k) => Some(k.deep_view()),
                None => None,
            },
        ),
{
    match key {
        None => {
            return false;
        },
        Some(k) => {
            if k.len() != 0 {
                return false;
            }
        },
    }
    let joins = &q.constraints.join_columns;
    let mut joined_here = false;
    let mut i: usize = 0;
    while i < joins.len()
        invariant
            i <= joins.len(),
            joins == q.constraints.join_columns,
            joined_here <==> exists|j: int|
                0 <= j < i && (#[trigger] joins@[j]).table@ == table.name@,
            forall|j: int|
                0 <= j < i && (#[trigger] joins@[j]).table@ == table.name@ ==> name_in(
                    table.primary_key_columns@,
                    joins@[j].column@,
                ),
        decreases joins.len() - i,
    {
        if joins[i].table == table.name {
            assert(joins@[i as int].table@ == table.name@);
            joined_here = true;
            if !name_contains(&table.primary_key_columns, &joins[i].column) {
                return false;
            }
        }
        i = i + 1;
    }
    joined_here
}

/// Whether the row bears on the query through this relation.
pub open spec fn row_relevant(
    q: UpdateQuery,
    table: TableMetadata,
    row: RowView,
    key: Option<RowView>,
) -> bool {
    if is_constrained(q, table) {
        row_matches(q.constraints, table, row)
    } else {
        !join_unchanged(q, table, key)
    }
}

/// Whether a change of a row that is not cached can add to the query's result
/// beyond what the cache tables hold.
///
/// Inner joins can only lose rows by a DELETE, which matters to a LIMIT window
/// alone. A subquery's change matters when it can grow the outer result. The
/// terminal side of an outer join never does, another optional side may.
pub open spec fn uncached_invalidates(
    q: UpdateQuery,
    table: TableMetadata,
    row: RowView,
    key: Option<RowView>,
    operation: CdcOperation,
) -> bool {
    match q.source {
        UpdateQuerySource::FromClause => match operation {
            CdcOperation::Delete => q.has_limit,
            CdcOperation::Upsert => !q.is_single_table && row_relevant(q, table, row, key),
        },
        UpdateQuerySource::Subquery(kind) => row_relevant(q, table, row, key) && match kind {
            SubqueryKind::Scalar => true,
            SubqueryKind::Inclusion => operation == CdcOperation::Upsert,
            SubqueryKind::Exclusion => operation == CdcOperation::Delete,
        },
        UpdateQuerySource::OuterJoinTerminal => false,
        UpdateQuerySource::OuterJoinOptional => row_matches(q.constraints, table, row),
    }
}

/// Whether the row bears on the query through this relation.
fn row_relevant_exec(
    q: &UpdateQuery,
    table: &TableMetadata,
    row: &Row,
    key: Option<&Row>,
) -> (relevant: bool)
    ensures
        relevant == row_relevant(
            *q,
            *table,
            row.deep_view(),
            match key {
                Some(k) => Some(k.deep_view()),
                None => None,
            },
        ),
{
    if q.constraints.table_find(&table.name).is_some() {
        row_constraints_match(&q.constraints, table, row)
    } else {
        !join_membership_unchanged(q, table, key)
    }
}

/// Whether a change of a row that is not cached invalidates the query.
pub fn row_uncached_invalidation_check(
    q: &UpdateQuery,
    table: &TableMetadata,
    row: &Row,
    key: Option<&Row>,
    operation: CdcOperation,
) -> (invalidate: bool)
    ensures
        invalidate == uncached_invalidates(
            *q,
            *table,
            row.deep_view(),
            match key {
                Some(k) => Some(k.deep_view()),
                None => None,
            },
            operation,
        ),
{
    match q.source {
        UpdateQuerySource::FromClause => {
            if q.has_limit && operation == CdcOperation::Delete {
                return true;
            }
            if operation == CdcOperation::Delete {
                return false;
            }
            if q.is_single_table {
                return false;
            }
            row_relevant_exec(q, table, row, key)
        },
        UpdateQuerySource::Subquery(kind) => {
            if !row_relevant_exec(q, table, row, key) {
                return false;
            }
            match (kind, operation) {
                (SubqueryKind::Scalar, _) => true,
                (SubqueryKind::Inclusion, CdcOperation::Upsert) => true,
                (SubqueryKind::Inclusion, CdcOperation::Delete) => false,
                (SubqueryKind::Exclusion, CdcOperation::Upsert) => false,
                (SubqueryKind::Exclusion, CdcOperation::Delete) => true,
            }
        },
        UpdateQuerySource::OuterJoinTerminal => false,
        UpdateQuerySource::OuterJoinOptional => row_constraints_match(&q.constraints, table, row),
    }
}

/// Whether an UPDATE changed a column through which the relation is joined.
pub open spec fn join_changed(
    q: UpdateQuery,
    table: TableMetadata,
    changes: Seq<ColumnChange>,
) -> bool {
    exists|i: int|
        0 <= i < q.constraints.join_columns@.len() && (
        #[trigger] q.constraints.join_columns@[i]).table@ == table.name@ && did_change(
            changes,
            q.constraints.join_columns@[i].column@,
        )
}

/// Whether an UPDATE may have moved the row across the query's LIMIT window:
/// a window column changed, and the row is inside the query's predicate or
/// cannot be shown to have been outside it.
pub open spec fn window_invalidates(
    q: UpdateQuery,
    table: TableMetadata,
    row: RowView,
    changes: Seq<ColumnChange>,
) -> bool {
    &&& q.has_limit
    &&& q.source == UpdateQuerySource::FromClause
    &&& any_changed(changes, q.limit_window_columns@)
    &&& any_changed(changes, q.predicate_columns@) || row_matches(q.constraints, table, row)
}

/// Whether an UPDATE of a cached row invalidates the query.
pub open spec fn cached_invalidates(
    q: UpdateQuery,
    table: TableMetadata,
    row: RowView,
    changes: Seq<ColumnChange>,
) -> bool {
    ||| q.source is Subquery
    ||| q.source == UpdateQuerySource::OuterJoinOptional
    ||| window_invalidates(q, table, row, changes)
    ||| join_changed(q, table, changes) && row_matches(q.constraints, table, row)
}

/// Whether an earlier column through which the query joins the relation
/// changed.
pub open spec fn join_changed_before(
    q: UpdateQuery,
    table: TableMetadata,
    changes: Seq<ColumnChange>,
    i: int,
) -> bool {
    exists|j: int|
        0 <= j < i && (#[trigger] q.constraints.join_columns@[j]).table@ == table.name@
            && did_change(changes, q.constraints.join_columns@[j].column@)
}

/// Whether the comparison covers every column that decides whether an UPDATE
/// of a cached row invalidates the query: a column through which the query
/// joins the relation, unless something before it decides already.
pub open spec fn joins_covered(
    q: UpdateQuery,
    table: TableMetadata,
    row: RowView,
    changes: Seq<ColumnChange>,
) -> bool {
    ||| q.source is Subquery
    ||| q.source == UpdateQuerySource::OuterJoinOptional
    ||| window_invalidates(q, table, row, changes)
    ||| forall|i: int|
        0 <= i < q.constraints.join_columns@.len() && (
        #[trigger] q.constraints.join_columns@[i]).table@ == table.name@ ==> {
            ||| change_of(changes, q.constraints.join_columns@[i].column@) is Some
            ||| row_matches(q.constraints, table, row) && join_changed_before(
                q,
                table,
                changes,
                i,
            )
        }
}

fn window_invalidates_exec(
    q: &UpdateQuery,
    table: &TableMetadata,
    row: &Row,
    changes: &RowChanges,
) -> (invalidate: bool)
    ensures
        invalidate == window_invalidates(*q, *table, row.deep_view(), changes@),
{
    q.has_limit && q.source == UpdateQuerySource::FromClause && any_changed_exec(
        changes,
        &q.limit_window_columns,
    ) && (any_changed_exec(changes, &q.predicate_columns) || row_constraints_match(
        &q.constraints,
        table,
        row,
    ))
}

/// Whether an UPDATE of a cached row invalidates the query.
pub fn row_cached_invalidation_check(
    q: &UpdateQuery,
    table: &TableMetadata,
    row: &Row,
    changes: &RowChanges,
) -> (invalidate: bool)
    requires
        joins_covered(*q, *table, row.deep_view(), changes@),
    ensures
        invalidate == cached_invalidates(*q, *table, row.deep_view(), changes@),
{
    match q.source {
        UpdateQuerySource::Subquery(_) => {
            return true;
        },
        UpdateQuerySource::OuterJoinOptional => {
            return true;
        },
        UpdateQuerySource::FromClause => {
            if window_invalidates_exec(q, table, row, changes) {
                return true;
            }
        },
        UpdateQuerySource::OuterJoinTerminal => {},
    }
    let joins = &q.constraints.join_columns;
    let mut i: usize = 0;
    while i < joins.len()
        invariant
            i <= joins.len(),
            joins == q.constraints.join_columns,
            forall|j: int|
                0 <= j < i && (#[trigger] joins@[j]).table@ == table.name@ && did_change(
                    changes@,
                    joins@[j].column@,
                ) ==> !row_matches(q.constraints, *table, row.deep_view()),
        decreases joins.len() - i,
    {
        if joins[i].table == table.name {
            if let Some(true) = change_get(changes, &joins[i].column) {
                if row_constraints_match(&q.constraints, table, row) {
                    assert(did_change(changes@, joins@[i as int].column@));
                    return true;
                }
            }
        }
        i = i + 1;
    }
    false
}

/// Whether the query must be invalidated by an UPDATE whose image lacks
/// `toasted_columns`, whatever its membership: the row may or may not be
/// cached, and what changed is unknown.
pub open spec fn toast_structural(
    q: UpdateQuery,
    table: TableMetadata,
    row: RowView,
    key: RowView,
    toasted_columns: Seq<Seq<char>>,
) -> bool {
    ||| exists|i: int|
        0 <= i < q.predicate_columns@.len() && toasted_columns.contains(
            (#[trigger] q.predicate_columns@[i])@,
        )
    ||| q.source is Subquery
    ||| q.source == UpdateQuerySource::OuterJoinOptional
    ||| q.has_limit
    ||| !q.is_single_table && row_relevant(q, table, row, Some(key))
}

/// Whether the query must be invalidated by an UPDATE with an incomplete
/// image, whatever its membership.
pub fn toast_fallback_structural_invalidate(
    q: &UpdateQuery,
    table: &TableMetadata,
    row: &Row,
    key: &Row,
    toasted_columns: &Vec<String>,
) -> (invalidate: bool)
    ensures
        invalidate == toast_structural(
            *q,
            *table,
            row.deep_view(),
            key.deep_view(),
            toasted_columns.deep_view(),
        ),
{
    let mut i: usize = 0;
    while i < q.predicate_columns.len()
        invariant
            i <= q.predicate_columns.len(),
            forall|j: int|
                0 <= j < i ==> !toasted_columns.deep_view().contains(
                    (#[trigger] q.predicate_columns@[j])@,
                ),
        decreases q.predicate_columns.len() - i,
    {
        proof {
            lemma_name_in(*toasted_columns, q.predicate_columns@[i as int]@);
        }
        if name_contains(toasted_columns, &q.predicate_columns[i]) {
            assert(toasted_columns.deep_view().contains(q.predicate_columns@[i as int]@));
            return true;
        }
        i = i + 1;
    }
    match q.source {
        UpdateQuerySource::Subquery(_) => true,
        UpdateQuerySource::OuterJoinOptional => true,
        UpdateQuerySource::FromClause | UpdateQuerySource::OuterJoinTerminal => {
            if q.has_limit {
                return true;
            }
            if q.is_single_table {
                return false;
            }
            row_relevant_exec(q, table, row, Some(key))
        },
    }
}

/// Whether the change invalidates the query: the cached rule when the row is
/// cached (`changes` says how it changed), the uncached rule otherwise.
pub open spec fn invalidates(
    q: UpdateQuery,
    table: TableMetadata,
    changes: Option<Seq<ColumnChange>>,
    row: RowView,
    key: Option<RowView>,
    operation: CdcOperation,
) -> bool {
    match changes {
        Some(c) => cached_invalidates(q, table, row, c),
        None => uncached_invalidates(q, table, row, key, operation),
    }
}

/// Queries whose conditions on the relation the row meets.
pub open spec fn is_candidate(q: UpdateQuery, table: TableMetadata, row: RowView) -> bool {
    row_matches(q.constraints, table, row)
}

/// Queries that a change can invalidate whether or not the row meets their
/// conditions.
pub open spec fn is_always_checked(q: UpdateQuery) -> bool {
    q.source is Subquery || q.source == UpdateQuerySource::OuterJoinOptional
}

/// Queries with a LIMIT window over the relation.
pub open spec fn is_windowed(q: UpdateQuery) -> bool {
    q.has_limit && q.source == UpdateQuerySource::FromClause
}

/// Whether an UPDATE changed a predicate column of some windowed query.
pub open spec fn limit_predicate_changed(
    queries: Seq<UpdateQuery>,
    changes: Seq<ColumnChange>,
) -> bool {
    exists|i: int|
        0 <= i < queries.len() && is_windowed(#[trigger] queries[i]) && any_changed(
            changes,
            queries[i].predicate_columns@,
        )
}

/// Whether windowed queries must be examined though the row meets none of
/// their conditions: always on a DELETE, and on an UPDATE of a column that
/// one of their predicates reads.
pub open spec fn windows_examined(
    queries: Seq<UpdateQuery>,
    changes: Option<Seq<ColumnChange>>,
    operation: CdcOperation,
) -> bool {
    match (operation, changes) {
        (CdcOperation::Delete, _) => true,
        (CdcOperation::Upsert, Some(c)) => limit_predicate_changed(queries, c),
        (CdcOperation::Upsert, None) => false,
    }
}

/// The queries a change examines: those whose conditions the row meets, and
/// those that may be invalidated regardless.
pub open spec fn is_examined(
    q: UpdateQuery,
    queries: Seq<UpdateQuery>,
    table: TableMetadata,
    changes: Option<Seq<ColumnChange>>,
    row: RowView,
    operation: CdcOperation,
) -> bool {
    ||| is_candidate(q, table, row)
    ||| is_always_checked(q)
    ||| is_windowed(q) && windows_examined(queries, changes, operation)
}

/// The fingerprints of the queries over the relation that the change
/// invalidates, in order.
pub open spec fn invalidated(
    queries: Seq<UpdateQuery>,
    table: TableMetadata,
    changes: Option<Seq<ColumnChange>>,
    row: RowView,
    key: Option<RowView>,
    operation: CdcOperation,
) -> Seq<u64>
    decreases queries.len(),
{
    if queries.len() == 0 {
        Seq::empty()
    } else {
        let rest = invalidated(queries.drop_last(), table, changes, row, key, operation);
        if invalidates(queries.last(), table, changes, row, key, operation) {
            rest.push(queries.last().fingerprint)
        } else {
            rest
        }
    }
}

/// Examining only the narrowed set loses nothing: a query outside it is never
/// invalidated. In particular a query over one relation without a LIMIT, joined
/// to nothing, never is.
pub proof fn narrowing_is_lossless(
    q: UpdateQuery,
    queries: Seq<UpdateQuery>,
    table: TableMetadata,
    changes: Option<Seq<ColumnChange>>,
    row: RowView,
    key: Option<RowView>,
    operation: CdcOperation,
)
    requires
        queries.contains(q),
        invalidates(q, table, changes, row, key, operation),
        operation == CdcOperation::Delete ==> changes is None,
    ensures
        is_examined(q, queries, table, changes, row, operation),
{
    if changes is Some && window_invalidates(q, table, row, changes->0) && !row_matches(
        q.constraints,
        table,
        row,
    ) {
        let i = choose|i: int| 0 <= i < queries.len() && queries[i] == q;
        assert(is_windowed(queries[i]));
        assert(limit_predicate_changed(queries, changes->0));
    }
}

/// An UPDATE can invalidate the query at all: what `change_dependent` records.
pub open spec fn update_invalidation_possible(q: UpdateQuery, table: TableMetadata) -> bool {
    match q.source {
        UpdateQuerySource::Subquery(_) => true,
        UpdateQuerySource::OuterJoinOptional => true,
        UpdateQuerySource::FromClause => q.has_limit || !q.is_single_table || has_join_column(
            q.constraints,
            table.name@,
        ),
        UpdateQuerySource::OuterJoinTerminal => has_join_column(q.constraints, table.name@),
    }
}

/// Skipping the invalidation check when no query is change-dependent loses
/// nothing: an INSERT or UPDATE that invalidates a query finds it recorded as
/// change-dependent.
pub proof fn change_dependence_is_sound(
    q: UpdateQuery,
    table: TableMetadata,
    changes: Option<Seq<ColumnChange>>,
    row: RowView,
    key: Option<RowView>,
)
    requires
        update_invalidation_possible(q, table) ==> q.change_dependent,
        invalidates(q, table, changes, row, key, CdcOperation::Upsert),
    ensures
        q.change_dependent,
{
}

/// A query over a single relation is not invalidated by a row change that
/// in-place maintenance alone keeps it right under: by a row that is not cached
/// and comes in, whatever its LIMIT; without a LIMIT by a row that goes; and
/// without a LIMIT and joins by an UPDATE of a cached row.
pub proof fn single_table_never_invalidated(
    q: UpdateQuery,
    table: TableMetadata,
    changes: Option<Seq<ColumnChange>>,
    row: RowView,
    key: Option<RowView>,
    operation: CdcOperation,
)
    requires
        q.source == UpdateQuerySource::FromClause,
        q.is_single_table,
        match changes {
            None => operation == CdcOperation::Upsert || !q.has_limit,
            Some(_) => !q.has_limit && !has_join_column(q.constraints, table.name@),
        },
    ensures
        !invalidates(q, table, changes, row, key, operation),
{
}

/// A subquery change that can only shrink the outer result leaves the query
/// alone: a row joining an exclusion set, or leaving an inclusion set.
pub proof fn contracting_subquery_change_is_skipped(
    q: UpdateQuery,
    table: TableMetadata,
    row: RowView,
    key: Option<RowView>,
)
    ensures
        q.source == UpdateQuerySource::Subquery(SubqueryKind::Exclusion) ==> !uncached_invalidates(
            q,
            table,
            row,
            key,
            CdcOperation::Upsert,
        ),
        q.source == UpdateQuerySource::Subquery(SubqueryKind::Inclusion) ==> !uncached_invalidates(
            q,
            table,
            row,
            key,
            CdcOperation::Delete,
        ),
{
}

/// The structural check for an incomplete image covers both regular checks: a
/// query it spares would be spared whether the row is cached or not, whatever
/// columns changed, as long as an unchanged key is compared as unchanged and a
/// query over one relation joins nothing.
pub proof fn toast_structural_covers_both_checks(
    q: UpdateQuery,
    table: TableMetadata,
    changes: Seq<ColumnChange>,
    row: RowView,
    key: RowView,
    toasted_columns: Seq<Seq<char>>,
)
    requires
        !toast_structural(q, table, row, key, toasted_columns),
        q.is_single_table ==> !has_join_column(q.constraints, table.name@),
        key.len() == 0 ==> forall|c: Seq<char>|
            name_in(table.primary_key_columns@, c) ==> !#[trigger] did_change(changes, c),
    ensures
        !uncached_invalidates(q, table, row, Some(key), CdcOperation::Upsert),
        !cached_invalidates(q, table, row, changes),
{
    if q.is_single_table {
        assert(!join_changed(q, table, changes));
    } else if join_changed(q, table, changes) {
        let i = choose|i: int|
            0 <= i < q.constraints.join_columns@.len() && (
            #[trigger] q.constraints.join_columns@[i]).table@ == table.name@ && did_change(
                changes,
                q.constraints.join_columns@[i].column@,
            );
        if !is_constrained(q, table) {
            assert(join_unchanged(q, table, Some(key)));
            assert(name_in(table.primary_key_columns@, q.constraints.join_columns@[i].column@));
            assert(false);
        }
    }
}

/// Whether the comparison covers every column that decides which queries an
/// UPDATE of a cached row invalidates.
pub open spec fn all_joins_covered(
    queries: Seq<UpdateQuery>,
    table: TableMetadata,
    row: RowView,
    changes: Seq<ColumnChange>,
) -> bool {
    forall|i: int|
        0 <= i < queries.len() && is_examined(
            #[trigger] queries[i],
            queries,
            table,
            Some(changes),
            row,
            CdcOperation::Upsert,
        ) ==> joins_covered(queries[i], table, row, changes)
}

fn joins_covered_exec(
    q: &UpdateQuery,
    table: &TableMetadata,
    row: &Row,
    changes: &RowChanges,
) -> (all: bool)
    ensures
        all == joins_covered(*q, *table, row.deep_view(), changes@),
{
    match q.source {
        UpdateQuerySource::Subquery(_) => {
            return true;
        },
        UpdateQuerySource::OuterJoinOptional => {
            return true;
        },
        UpdateQuerySource::FromClause => {
            if window_invalidates_exec(q, table, row, changes) {
                return true;
            }
        },
        UpdateQuerySource::OuterJoinTerminal => {},
    }
    let matches = row_constraints_match(&q.constraints, table, row);
    let joins = &q.constraints.join_columns;
    let mut i: usize = 0;
    while i < joins.len()
        invariant
            i <= joins.len(),
            joins == q.constraints.join_columns,
            matches == row_matches(q.constraints, *table, row.deep_view()),
            !is_always_checked(*q),
            !window_invalidates(*q, *table, row.deep_view(), changes@),
            forall|j: int|
                0 <= j < i && (#[trigger] joins@[j]).table@ == table.name@ ==> change_of(
                    changes@,
                    joins@[j].column@,
                ) is Some && !(matches && did_change(changes@, joins@[j].column@)),
        decreases joins.len() - i,
    {
        if joins[i].table == table.name {
            match change_get(changes, &joins[i].column) {
                None => {
                    assert(joins@[i as int].table@ == table.name@);
                    assert(matches ==> !join_changed_before(*q, *table, changes@, i as int));
                    return false;
                },
                Some(changed) => {
                    if changed && matches {
                        proof {
                            assert(did_change(changes@, joins@[i as int].column@));
                            assert forall|k: int| i < k implies join_changed_before(
                                *q,
                                *table,
                                changes@,
                                k,
                            ) by {
                                assert(joins@[i as int].table@ == table.name@);
                            }
                        }
                        return true;
                    }
                },
            }
        }
        i = i + 1;
    }
    true
}

/// Whether the comparison covers every column that decides which queries an
/// UPDATE of a cached row invalidates.
pub fn row_changes_complete(
    queries: &UpdateQueries,
    table: &TableMetadata,
    row: &Row,
    changes: &RowChanges,
) -> (all: bool)
    ensures
        all == all_joins_covered(queries.queries@, *table, row.deep_view(), changes@),
{
    let list = &queries.queries;
    let expand_limit = limit_predicate_changed_exec(list, changes);
    let mut i: usize = 0;
    while i < list.len()
        invariant
            i <= list.len(),
            list == queries.queries,
            expand_limit == limit_predicate_changed(list@, changes@),
            forall|j: int|
                0 <= j < i && is_examined(
                    #[trigger] list@[j],
                    list@,
                    *table,
                    Some(changes@),
                    row.deep_view(),
                    CdcOperation::Upsert,
                ) ==> joins_covered(list@[j], *table, row.deep_view(), changes@),
        decreases list.len() - i,
    {
        let q = &list[i];
        if query_is_examined(q, table, row, expand_limit) && !joins_covered_exec(
            q,
            table,
            row,
            changes,
        ) {
            assert(!joins_covered(list@[i as int], *table, row.deep_view(), changes@));
            return false;
        }
        i = i + 1;
    }
    true
}

/// Whether a change examines the query, given whether it examines windowed
/// queries whose conditions the row does not meet.
fn query_is_examined(q: &UpdateQuery, table: &TableMetadata, row: &Row, expand_limit: bool) -> (
    examined: bool)
    ensures
        examined == (is_candidate(*q, *table, row.deep_view()) || is_always_checked(*q)
            || is_windowed(*q) && expand_limit),
{
    row_constraints_match(&q.constraints, table, row) || (match q.source {
        UpdateQuerySource::Subquery(_) => true,
        UpdateQuerySource::OuterJoinOptional => true,
        UpdateQuerySource::FromClause => q.has_limit && expand_limit,
        UpdateQuerySource::OuterJoinTerminal => false,
    })
}

fn limit_predicate_changed_exec(queries: &Vec<UpdateQuery>, changes: &RowChanges) -> (changed: bool)
    ensures
        changed == limit_predicate_changed(queries@, changes@),
{
    let mut i: usize = 0;
    while i < queries.len()
        invariant
            i <= queries.len(),
            forall|j: int|
                0 <= j < i ==> !(is_windowed(#[trigger] queries@[j]) && any_changed(
                    changes@,
                    queries@[j].predicate_columns@,
                )),
        decreases queries.len() - i,
    {
        let q = &queries[i];
        if q.has_limit && q.source == UpdateQuerySource::FromClause && any_changed_exec(
            changes,
            &q.predicate_columns,
        ) {
            assert(is_windowed(queries@[i as int]));
            return true;
        }
        i = i + 1;
    }
    false
}

/// The queries whose conditions on the relation the row meets, in order.
pub open spec fn candidates(
    queries: Seq<UpdateQuery>,
    table: TableMetadata,
    row: RowView,
) -> Seq<u64>
    decreases queries.len(),
{
    if queries.len() == 0 {
        Seq::empty()
    } else {
        let rest = candidates(queries.drop_last(), table, row);
        if is_candidate(queries.last(), table, row) {
            rest.push(queries.last().fingerprint)
        } else {
            rest
        }
    }
}

/// Collect the queries whose conditions on the relation the row meets.
pub fn eval_candidates(queries: &UpdateQueries, table: &TableMetadata, row: &Row) -> (fps: Vec<
    u64,
>)
    ensures
        fps@ == candidates(queries.queries@, *table, row.deep_view()),
{
    let list = &queries.queries;
    let mut fps: Vec<u64> = Vec::new();
    let mut i: usize = 0;
    while i < list.len()
        invariant
            i <= list.len(),
            list == queries.queries,
            fps@ =~= candidates(list@.take(i as int), *table, row.deep_view()),
        decreases list.len() - i,
    {
        proof {
            assert(list@.take(i + 1).drop_last() =~= list@.take(i as int));
        }
        if row_constraints_match(&list[i].constraints, table, row) {
            fps.push(list[i].fingerprint);
        }
        i = i + 1;
    }
    proof {
        assert(list@.take(i as int) =~= list@);
    }
    fps
}

/// The fingerprints of the queries over the relation that the change
/// invalidates. Only the queries that the change can concern are examined.
pub fn update_queries_check_invalidate(
    queries: &UpdateQueries,
    table: &TableMetadata,
    changes: Option<&RowChanges>,
    row: &Row,
    key: Option<&Row>,
    operation: CdcOperation,
) -> (fps: Vec<u64>)
    requires
        operation == CdcOperation::Delete ==> changes is None,
        changes matches Some(c) ==> all_joins_covered(
            queries.queries@,
            *table,
            row.deep_view(),
            c@,
        ),
    ensures
        fps@ == invalidated(
            queries.queries@,
            *table,
            match changes {
                Some(c) => Some(c@),
                None => None,
            },
            row.deep_view(),
            match key {
                Some(k) => Some(k.deep_view()),
                None => None,
            },
            operation,
        ),
{
    let list = &queries.queries;
    let ghost view = row.deep_view();
    let ghost changes_v: Option<Seq<ColumnChange>> = match changes {
        Some(c) => Some(c@),
        None => None,
    };
    let ghost key_v: Option<RowView> = match key {
        Some(k) => Some(k.deep_view()),
        None => None,
    };
    let expand_limit = match (operation, changes) {
        (CdcOperation::Delete, _) => true,
        (CdcOperation::Upsert, Some(c)) => limit_predicate_changed_exec(list, c),
        (CdcOperation::Upsert, None) => false,
    };
    let mut fps: Vec<u64> = Vec::new();
    let mut i: usize = 0;
    while i < list.len()
        invariant
            i <= list.len(),
            list == queries.queries,
            view == row.deep_view(),
            operation == CdcOperation::Delete ==> changes is None,
            changes_v == (match changes {
                Some(c) => Some(c@),
                None => None::<Seq<ColumnChange>>,
            }),
            key_v == (match key {
                Some(k) => Some(k.deep_view()),
                None => None::<RowView>,
            }),
            expand_limit == windows_examined(list@, changes_v, operation),
            changes matches Some(c) ==> all_joins_covered(list@, *table, view, c@),
            fps@ =~= invalidated(
                list@.take(i as int),
                *table,
                changes_v,
                view,
                key_v,
                operation,
            ),
        decreases list.len() - i,
    {
        let q = &list[i];
        let examined = query_is_examined(q, table, row, expand_limit);
        proof {
            assert(examined == is_examined(*q, list@, *table, changes_v, view, operation));
            if invalidates(*q, *table, changes_v, view, key_v, operation) {
                assert(list@[i as int] == *q);
                narrowing_is_lossless(*q, list@, *table, changes_v, view, key_v, operation);
            }
        }
        let invalidate = examined && (match changes {
            Some(c) => row_cached_invalidation_check(q, table, row, c),
            None => row_uncached_invalidation_check(q, table, row, key, operation),
        });
        proof {
            assert(invalidate == invalidates(*q, *table, changes_v, view, key_v, operation));
            assert(list@.take(i + 1).drop_last() =~= list@.take(i as int));
        }
        if invalidate {
            fps.push(q.fingerprint);
        }
        i = i + 1;
    }
    proof {
        assert(list@.take(i as int) =~= list@);
    }
    fps
}

/// Whether a removed row may have met the constraint. Its image may lack the
/// constrained cell: with `pk_only` only the key cells are those of the removed
/// row, and a NULL may stand for a cell that was left out.
pub open spec fn constraint_may_hold(
    c: TableConstraint,
    table: TableMetadata,
    row: RowView,
    pk_only: bool,
) -> bool {
    match named_cell(table.columns@, row, constraint_column(c)) {
        Some(Some(text)) => pk_only && !name_in(
            table.primary_key_columns@,
            constraint_column(c),
        ) || constraint_text_holds(c, text),
        _ => true,
    }
}

/// Whether a removed row may have met every constraint of the list.
pub open spec fn all_may_hold(
    list: Seq<TableConstraint>,
    table: TableMetadata,
    row: RowView,
    pk_only: bool,
) -> bool {
    forall|i: int| 0 <= i < list.len() ==> constraint_may_hold(#[trigger] list[i], table, row, pk_only)
}

/// Whether a removed row may have met the query's conditions on its relation.
pub open spec fn may_have_matched(
    q: UpdateQuery,
    table: TableMetadata,
    row: RowView,
    pk_only: bool,
) -> bool {
    match constraints_of(q.constraints.table_constraints@, table.name@) {
        None => true,
        Some(list) => all_may_hold(list, table, row, pk_only),
    }
}

/// The queries whose conditions a removed row may have met, in order.
pub open spec fn removed_candidates(
    queries: Seq<UpdateQuery>,
    table: TableMetadata,
    row: RowView,
    pk_only: bool,
) -> Seq<u64>
    decreases queries.len(),
{
    if queries.len() == 0 {
        Seq::empty()
    } else {
        let rest = removed_candidates(queries.drop_last(), table, row, pk_only);
        if may_have_matched(queries.last(), table, row, pk_only) {
            rest.push(queries.last().fingerprint)
        } else {
            rest
        }
    }
}

fn all_may_hold_exec(
    list: &Vec<TableConstraint>,
    table: &TableMetadata,
    row: &Row,
    pk_only: bool,
) -> (all: bool)
    ensures
        all == all_may_hold(list@, *table, row.deep_view(), pk_only),
{
    let mut i: usize = 0;
    while i < list.len()
        invariant
            i <= list.len(),
            forall|j: int|
                0 <= j < i ==> constraint_may_hold(
                    #[trigger] list@[j],
                    *table,
                    row.deep_view(),
                    pk_only,
                ),
        decreases list.len() - i,
    {
        let column = constraint_column_get(&list[i]);
        let may = match table.named_cell_get(row, column) {
            Some(Some(text)) => (pk_only && !name_contains(&table.primary_key_columns, column))
                || constraint_text_holds_exec(&list[i], text),
            _ => true,
        };
        if !may {
            assert(!constraint_may_hold(list@[i as int], *table, row.deep_view(), pk_only));
            return false;
        }
        i = i + 1;
    }
    true
}

/// Collect the queries whose conditions a removed row may have met.
pub fn removed_candidates_collect(
    queries: &UpdateQueries,
    table: &TableMetadata,
    row: &Row,
    pk_only: bool,
) -> (fps: Vec<u64>)
    ensures
        fps@ == removed_candidates(queries.queries@, *table, row.deep_view(), pk_only),
{
    let list = &queries.queries;
    let mut fps: Vec<u64> = Vec::new();
    let mut i: usize = 0;
    while i < list.len()
        invariant
            i <= list.len(),
            list == queries.queries,
            fps@ =~= removed_candidates(list@.take(i as int), *table, row.deep_view(), pk_only),
        decreases list.len() - i,
    {
        proof {
            assert(list@.take(i + 1).drop_last() =~= list@.take(i as int));
        }
        let q = &list[i];
        let may = match q.constraints.table_find(&table.name) {
            None => true,
            Some(at) => all_may_hold_exec(
                &q.constraints.table_constraints[at].constraints,
                table,
                row,
                pk_only,
            ),
        };
        if may {
            fps.push(q.fingerprint);
        }
        i = i + 1;
    }
    proof {
        assert(list@.take(i as int) =~= list@);
    }
    fps
}

/// Whether `image` is what is left of the full row `full`: each of its cells is
/// NULL or that of the full row, at least where it is read.
pub open spec fn is_remnant(
    table: TableMetadata,
    image: RowView,
    full: RowView,
    pk_only: bool,
) -> bool {
    forall|name: Seq<char>|
        #![trigger named_cell(table.columns@, image, name)]
        (!pk_only || name_in(table.primary_key_columns@, name)) ==> (named_cell(
            table.columns@,
            image,
            name,
        ) matches Some(Some(text)) ==> named_cell(table.columns@, full, name) == Some(Some(text)))
}

/// A query whose conditions the full removed row met is always found, however
/// little of the row is left.
pub proof fn removed_candidates_never_miss(
    q: UpdateQuery,
    table: TableMetadata,
    image: RowView,
    full: RowView,
    pk_only: bool,
)
    requires
        is_remnant(table, image, full, pk_only),
        row_matches(q.constraints, table, full),
    ensures
        may_have_matched(q, table, image, pk_only),
{
    match constraints_of(q.constraints.table_constraints@, table.name@) {
        None => {},
        Some(list) => {
            assert forall|i: int| 0 <= i < list.len() implies constraint_may_hold(
                #[trigger] list[i],
                table,
                image,
                pk_only,
            ) by {
                assert(constraint_holds(list[i], table.columns@, full));
                let name = constraint_column(list[i]);
                assert(named_cell(table.columns@, image, name) == named_cell(
                    table.columns@,
                    image,
                    name,
                ));
            }
        },
    }
}

} // verus!
