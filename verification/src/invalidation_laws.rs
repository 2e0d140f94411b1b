//! What invalidation is for: whenever a change can add to a query's result
//! something that the cache tables do not hold, the query is invalidated.
//!
//! The rest of a query is modelled by how its other rows, numbered here, are
//! linked with the rows of the changed relation.
use vstd::prelude::*;

use crate::catalog::name_in;
use crate::catalog::named_cell;
use crate::catalog::RowView;
use crate::catalog::TableMetadata;
use crate::handlers::toast_asked;
use crate::handlers::toast_flagged;
use crate::invalidation::cached_invalidates;
use crate::invalidation::candidates;
use crate::invalidation::change_of;
use crate::invalidation::did_change;
use crate::invalidation::invalidated;
use crate::invalidation::invalidates;
use crate::invalidation::may_have_matched;
use crate::invalidation::removed_candidates;
use crate::invalidation::toast_structural;
use crate::invalidation::uncached_invalidates;
use crate::invalidation::CdcOperation;
use crate::invalidation::ColumnChange;
use crate::query::constraint_column;
use crate::query::constraint_text_holds;
use crate::query::constraints_of;
use crate::query::matches_locally;
use crate::query::row_matches;
use crate::query::SubqueryKind;
use crate::query::UpdateEvalStrategy;
use crate::query::UpdateQuery;
use crate::query::UpdateQuerySource;

verus! {

/// Whether a row of the rest of the query is linked with some row of the
/// relation.
pub open spec fn is_linked(
    link: spec_fn(int, RowView) -> bool,
    rows: Set<RowView>,
    other: int,
) -> bool {
    exists|r: RowView| rows.contains(r) && #[trigger] link(other, r)
}

/// Whether a row of the rest of the query is in its result, by what its
/// subquery over the relation gives: for IN and EXISTS it is when it is linked
/// with a row of it, for NOT IN and NOT EXISTS when it is not, and a value of
/// the subquery decides in whatever way.
pub open spec fn outer_holds(
    kind: SubqueryKind,
    link: spec_fn(int, RowView) -> bool,
    value: spec_fn(int, Set<RowView>) -> bool,
    rows: Set<RowView>,
    other: int,
) -> bool {
    match kind {
        SubqueryKind::Inclusion => is_linked(link, rows, other),
        SubqueryKind::Exclusion => !is_linked(link, rows, other),
        SubqueryKind::Scalar => value(other, rows),
    }
}

/// A subquery sees a row only if it meets the conditions on the relation: other
/// rows are linked with nothing, and make no difference to a value.
pub open spec fn sees_matching_rows_only(
    q: UpdateQuery,
    table: TableMetadata,
    link: spec_fn(int, RowView) -> bool,
    value: spec_fn(int, Set<RowView>) -> bool,
) -> bool {
    &&& forall|other: int, r: RowView| #[trigger]
        link(other, r) ==> row_matches(q.constraints, table, r)
    &&& forall|other: int, rows: Set<RowView>, r: RowView|
        !row_matches(q.constraints, table, r) ==> #[trigger] value(other, rows.insert(r)) == value(
            other,
            rows,
        )
}

/// An INSERT that lets a query's result grow through a subquery invalidates the
/// query.
pub proof fn insert_that_grows_a_subquery_result_invalidates(
    q: UpdateQuery,
    table: TableMetadata,
    kind: SubqueryKind,
    link: spec_fn(int, RowView) -> bool,
    value: spec_fn(int, Set<RowView>) -> bool,
    rows: Set<RowView>,
    row: RowView,
    other: int,
)
    requires
        q.source == UpdateQuerySource::Subquery(kind),
        sees_matching_rows_only(q, table, link, value),
        !outer_holds(kind, link, value, rows, other),
        outer_holds(kind, link, value, rows.insert(row), other),
    ensures
        uncached_invalidates(q, table, row, None, CdcOperation::Upsert),
{
    match kind {
        SubqueryKind::Inclusion => {
            let r = choose|r: RowView|
                rows.insert(row).contains(r) && #[trigger] link(other, r);
            if rows.contains(r) {
                assert(is_linked(link, rows, other));
            }
            assert(r == row);
        },
        SubqueryKind::Exclusion => {
            let r = choose|r: RowView| rows.contains(r) && #[trigger] link(other, r);
            assert(rows.insert(row).contains(r) && link(other, r));
        },
        SubqueryKind::Scalar => {
            assert(row_matches(q.constraints, table, row));
        },
    }
}

/// A DELETE that lets a query's result grow through a subquery invalidates the
/// query.
pub proof fn delete_that_grows_a_subquery_result_invalidates(
    q: UpdateQuery,
    table: TableMetadata,
    kind: SubqueryKind,
    link: spec_fn(int, RowView) -> bool,
    value: spec_fn(int, Set<RowView>) -> bool,
    rows: Set<RowView>,
    row: RowView,
    other: int,
)
    requires
        q.source == UpdateQuerySource::Subquery(kind),
        sees_matching_rows_only(q, table, link, value),
        !rows.contains(row),
        !outer_holds(kind, link, value, rows.insert(row), other),
        outer_holds(kind, link, value, rows, other),
    ensures
        uncached_invalidates(q, table, row, None, CdcOperation::Delete),
{
    match kind {
        SubqueryKind::Inclusion => {
            let r = choose|r: RowView| rows.contains(r) && #[trigger] link(other, r);
            assert(rows.insert(row).contains(r) && link(other, r));
        },
        SubqueryKind::Exclusion => {
            let r = choose|r: RowView|
                rows.insert(row).contains(r) && #[trigger] link(other, r);
            if rows.contains(r) {
                assert(is_linked(link, rows, other));
            }
            assert(r == row);
        },
        SubqueryKind::Scalar => {
            assert(row_matches(q.constraints, table, row));
        },
    }
}

/// An UPDATE of a cached row of a relation inside a subquery, of whatever kind,
/// invalidates the query, and so does one of an optional side of an outer join
/// that other relations depend on: what the row linked before is not known, so
/// that every such UPDATE may let the result grow.
pub proof fn update_inside_a_subquery_invalidates(
    q: UpdateQuery,
    table: TableMetadata,
    row: RowView,
    key: Option<RowView>,
    changes: Seq<ColumnChange>,
)
    requires
        q.source is Subquery || q.source == UpdateQuerySource::OuterJoinOptional,
    ensures
        cached_invalidates(q, table, row, changes),
        invalidates(q, table, Some(changes), row, key, CdcOperation::Upsert),
{
}

/// An INSERT of a row that joins with rows of other relations invalidates the
/// query: those may not be cached. A query over the relation alone needs
/// nothing but the row, which is written.
pub proof fn insert_that_joins_invalidates(
    q: UpdateQuery,
    table: TableMetadata,
    link: spec_fn(int, RowView) -> bool,
    row: RowView,
    other: int,
)
    requires
        q.source == UpdateQuerySource::FromClause,
        !q.is_single_table,
        forall|o: int, r: RowView| #[trigger]
            link(o, r) ==> row_matches(q.constraints, table, r),
        link(other, row),
    ensures
        uncached_invalidates(q, table, row, None, CdcOperation::Upsert),
{
}

/// A change of a row on an optional side of an outer join that other relations
/// depend on invalidates the query, if the row meets its conditions.
pub proof fn optional_side_that_matters_invalidates(
    q: UpdateQuery,
    table: TableMetadata,
    row: RowView,
    key: Option<RowView>,
    operation: CdcOperation,
)
    requires
        q.source == UpdateQuerySource::OuterJoinOptional,
    ensures
        uncached_invalidates(q, table, row, key, operation) == row_matches(
            q.constraints,
            table,
            row,
        ),
{
}

/// A change on the terminal side of an outer join invalidates nothing unless it
/// moves a cached row to other partners.
pub proof fn terminal_side_invalidates_only_by_its_joins(
    q: UpdateQuery,
    table: TableMetadata,
    row: RowView,
    key: Option<RowView>,
    operation: CdcOperation,
    changes: Seq<ColumnChange>,
)
    requires
        q.source == UpdateQuerySource::OuterJoinTerminal,
    ensures
        !uncached_invalidates(q, table, row, key, operation),
        (forall|i: int|
            0 <= i < q.constraints.join_columns@.len() && (
            #[trigger] q.constraints.join_columns@[i]).table@ == table.name@ ==> !did_change(
                changes,
                q.constraints.join_columns@[i].column@,
            )) ==> !cached_invalidates(q, table, row, changes),
{
}

/// A row that does not meet the conditions on its relation invalidates nothing
/// by coming in, and nothing through a subquery or an outer join by going.
pub proof fn row_outside_the_conditions_invalidates_nothing(
    q: UpdateQuery,
    table: TableMetadata,
    row: RowView,
    key: Option<RowView>,
)
    requires
        !row_matches(q.constraints, table, row),
    ensures
        !uncached_invalidates(q, table, row, key, CdcOperation::Upsert),
        !(q.source == UpdateQuerySource::FromClause) ==> !uncached_invalidates(
            q,
            table,
            row,
            key,
            CdcOperation::Delete,
        ),
{
}

/// A DELETE refills a LIMIT window of the relation's query, and invalidates no
/// other query that reads the relation in its FROM clause: an inner join only
/// loses rows by it.
pub proof fn delete_invalidates_windows_only(
    q: UpdateQuery,
    table: TableMetadata,
    row: RowView,
    key: Option<RowView>,
)
    requires
        q.source == UpdateQuerySource::FromClause,
    ensures
        uncached_invalidates(q, table, row, key, CdcOperation::Delete) == q.has_limit,
{
}

/// Whether two versions of a row agree in a column.
pub open spec fn agree_in(
    table: TableMetadata,
    old: RowView,
    new: RowView,
    column: Seq<char>,
) -> bool {
    named_cell(table.columns@, old, column) == named_cell(table.columns@, new, column)
}

/// Whether two versions of a row agree in every column through which the query
/// joins the relation.
pub open spec fn agree_in_joins(
    q: UpdateQuery,
    table: TableMetadata,
    old: RowView,
    new: RowView,
) -> bool {
    forall|i: int|
        0 <= i < q.constraints.join_columns@.len() && (
        #[trigger] q.constraints.join_columns@[i]).table@ == table.name@ ==> agree_in(
            table,
            old,
            new,
            q.constraints.join_columns@[i].column@,
        )
}

/// Whether a link goes by the columns through which the query joins the
/// relation, and the conditions on it.
pub open spec fn links_by_joins(
    q: UpdateQuery,
    table: TableMetadata,
    link: spec_fn(int, RowView) -> bool,
) -> bool {
    &&& forall|o: int, r: RowView| #[trigger]
        link(o, r) ==> row_matches(q.constraints, table, r)
    &&& forall|o: int, old: RowView, new: RowView|
        agree_in_joins(q, table, old, new) && row_matches(q.constraints, table, old)
            && row_matches(q.constraints, table, new) ==> #[trigger] link(o, old)
            == #[trigger] link(o, new)
}

/// An UPDATE of a cached row that links it with a row of another relation that
/// it was not linked with invalidates the query: that row may not be cached.
/// The comparison is told every column that differs, and the old version met
/// the query's conditions.
pub proof fn update_that_joins_anew_invalidates(
    q: UpdateQuery,
    table: TableMetadata,
    link: spec_fn(int, RowView) -> bool,
    old: RowView,
    new: RowView,
    changes: Seq<ColumnChange>,
    other: int,
)
    requires
        links_by_joins(q, table, link),
        row_matches(q.constraints, table, old),
        !link(other, old),
        link(other, new),
        forall|i: int|
            0 <= i < q.constraints.join_columns@.len() && (
            #[trigger] q.constraints.join_columns@[i]).table@ == table.name@ && !agree_in(
                table,
                old,
                new,
                q.constraints.join_columns@[i].column@,
            ) ==> did_change(changes, q.constraints.join_columns@[i].column@),
    ensures
        cached_invalidates(q, table, new, changes),
{
    assert(row_matches(q.constraints, table, new));
    assert(!agree_in_joins(q, table, old, new));
    let i = choose|i: int|
        0 <= i < q.constraints.join_columns@.len() && (
        #[trigger] q.constraints.join_columns@[i]).table@ == table.name@ && !agree_in(
            table,
            old,
            new,
            q.constraints.join_columns@[i].column@,
        );
    assert(did_change(changes, q.constraints.join_columns@[i].column@));
}

/// An UPDATE of a row that is not cached, in a relation that the query puts no
/// conditions on, invalidates the query if it links the row with a row of
/// another relation that it was not linked with. With an unchanged key its two
/// versions agree in the key columns.
pub proof fn uncached_update_that_joins_anew_invalidates(
    q: UpdateQuery,
    table: TableMetadata,
    link: spec_fn(int, RowView) -> bool,
    old: RowView,
    new: RowView,
    key: RowView,
    other: int,
)
    requires
        q.source == UpdateQuerySource::FromClause && !q.is_single_table || q.source
            == UpdateQuerySource::Subquery(SubqueryKind::Inclusion),
        constraints_of(q.constraints.table_constraints@, table.name@) is None,
        links_by_joins(q, table, link),
        !link(other, old),
        link(other, new),
        key.len() == 0 ==> forall|k: int|
            0 <= k < table.primary_key_columns@.len() ==> agree_in(
                table,
                old,
                new,
                (#[trigger] table.primary_key_columns@[k])@,
            ),
    ensures
        uncached_invalidates(q, table, new, Some(key), CdcOperation::Upsert),
{
    if crate::invalidation::join_unchanged(q, table, Some(key)) {
        assert forall|i: int|
            0 <= i < q.constraints.join_columns@.len() && (
            #[trigger] q.constraints.join_columns@[i]).table@ == table.name@ implies agree_in(
            table,
            old,
            new,
            q.constraints.join_columns@[i].column@,
        ) by {
            let c = q.constraints.join_columns@[i].column@;
            assert(name_in(table.primary_key_columns@, c));
            let k = choose|k: int|
                0 <= k < table.primary_key_columns@.len() && (
                #[trigger] table.primary_key_columns@[k])@ == c;
            assert(agree_in(table, old, new, table.primary_key_columns@[k]@));
        }
        assert(agree_in_joins(q, table, old, new));
        assert(row_matches(q.constraints, table, old));
        assert(row_matches(q.constraints, table, new));
        assert(link(other, old) == link(other, new));
    }
}

/// An UPDATE of a row that is not cached, and that the query's conditions on
/// the relation accept, invalidates a query that joins it or includes it.
pub proof fn uncached_update_that_matches_invalidates(
    q: UpdateQuery,
    table: TableMetadata,
    row: RowView,
    key: Option<RowView>,
)
    requires
        q.source == UpdateQuerySource::FromClause && !q.is_single_table || q.source
            == UpdateQuerySource::Subquery(SubqueryKind::Inclusion) || q.source
            == UpdateQuerySource::Subquery(SubqueryKind::Scalar),
        constraints_of(q.constraints.table_constraints@, table.name@) is Some,
        row_matches(q.constraints, table, row),
    ensures
        uncached_invalidates(q, table, row, key, CdcOperation::Upsert),
{
}

/// An UPDATE that moves a cached row within a LIMIT window's order invalidates
/// the window's query, if the row was or is in the region that the query's
/// predicate leaves: another row may then belong in the window.
pub proof fn update_that_moves_in_a_window_invalidates(
    q: UpdateQuery,
    table: TableMetadata,
    accepts: spec_fn(RowView) -> bool,
    old: RowView,
    new: RowView,
    changes: Seq<ColumnChange>,
    w: int,
)
    requires
        q.source == UpdateQuerySource::FromClause,
        q.has_limit,
        0 <= w < q.limit_window_columns@.len(),
        did_change(changes, q.limit_window_columns@[w]@),
        accepts(new) ==> row_matches(q.constraints, table, new),
        (forall|i: int|
            0 <= i < q.predicate_columns@.len() ==> !did_change(
                changes,
                (#[trigger] q.predicate_columns@[i])@,
            )) ==> accepts(old) == accepts(new),
        accepts(old) || accepts(new),
    ensures
        cached_invalidates(q, table, new, changes),
{
}

/// An UPDATE that changes neither a join column nor a column of a LIMIT window
/// leaves a query over the FROM clause alone.
pub proof fn update_that_moves_nothing_is_skipped(
    q: UpdateQuery,
    table: TableMetadata,
    row: RowView,
    changes: Seq<ColumnChange>,
)
    requires
        q.source == UpdateQuerySource::FromClause,
        forall|i: int|
            0 <= i < q.constraints.join_columns@.len() && (
            #[trigger] q.constraints.join_columns@[i]).table@ == table.name@ ==> !did_change(
                changes,
                q.constraints.join_columns@[i].column@,
            ),
        forall|i: int|
            0 <= i < q.limit_window_columns@.len() ==> !did_change(
                changes,
                (#[trigger] q.limit_window_columns@[i])@,
            ),
    ensures
        !cached_invalidates(q, table, row, changes),
{
}

/// A column counts as changed exactly if the comparison's first word on it says
/// so.
pub proof fn change_is_what_the_comparison_says(
    changes: Seq<ColumnChange>,
    column: Seq<char>,
    at: int,
)
    requires
        0 <= at < changes.len(),
        changes[at].column@ == column,
        forall|j: int| 0 <= j < at ==> (#[trigger] changes[j]).column@ != column,
    ensures
        change_of(changes, column) == Some(changes[at].changed),
        did_change(changes, column) == changes[at].changed,
    decreases changes.len(),
{
    if at > 0 {
        assert(changes[0].column@ != column);
        let rest = changes.drop_first();
        assert forall|j: int| 0 <= j < at - 1 implies (#[trigger] rest[j]).column@ != column by {
            assert(changes[j + 1].column@ != column);
        }
        change_is_what_the_comparison_says(rest, column, at - 1);
    }
}

/// A column that the comparison does not mention did not change.
pub proof fn unmentioned_column_did_not_change(changes: Seq<ColumnChange>, column: Seq<char>)
    requires
        forall|j: int| 0 <= j < changes.len() ==> (#[trigger] changes[j]).column@ != column,
    ensures
        change_of(changes, column) is None,
        !did_change(changes, column),
    decreases changes.len(),
{
    if changes.len() > 0 {
        assert(changes[0].column@ != column);
        let rest = changes.drop_first();
        assert forall|j: int| 0 <= j < rest.len() implies (#[trigger] rest[j]).column@
            != column by {
            assert(changes[j + 1].column@ != column);
        }
        unmentioned_column_did_not_change(rest, column);
    }
}

/// With known changes the row is judged as a cached one, else as one that is
/// not.
pub proof fn known_changes_mean_a_cached_row(
    q: UpdateQuery,
    table: TableMetadata,
    changes: Option<Seq<ColumnChange>>,
    row: RowView,
    key: Option<RowView>,
    operation: CdcOperation,
)
    ensures
        invalidates(q, table, changes, row, key, operation) == match changes {
            Some(c) => cached_invalidates(q, table, row, c),
            None => uncached_invalidates(q, table, row, key, operation),
        },
{
}

/// Exactly the queries that a change invalidates are listed.
pub proof fn invalidated_queries_are_listed(
    queries: Seq<UpdateQuery>,
    table: TableMetadata,
    changes: Option<Seq<ColumnChange>>,
    row: RowView,
    key: Option<RowView>,
    operation: CdcOperation,
    fp: u64,
)
    ensures
        invalidated(queries, table, changes, row, key, operation).contains(fp) <==> exists|i: int|
            0 <= i < queries.len() && (#[trigger] queries[i]).fingerprint == fp && invalidates(
                queries[i],
                table,
                changes,
                row,
                key,
                operation,
            ),
    decreases queries.len(),
{
    if queries.len() > 0 {
        let short = queries.drop_last();
        let n = queries.len() - 1;
        invalidated_queries_are_listed(short, table, changes, row, key, operation, fp);
        let rest = invalidated(short, table, changes, row, key, operation);
        lemma_push_contains(rest, queries[n].fingerprint, fp);
        assert forall|i: int| 0 <= i < n implies short[i] == #[trigger] queries[i] by {}
        if exists|i: int|
            0 <= i < short.len() && (#[trigger] short[i]).fingerprint == fp && invalidates(
                short[i],
                table,
                changes,
                row,
                key,
                operation,
            ) {
            let i = choose|i: int|
                0 <= i < short.len() && (#[trigger] short[i]).fingerprint == fp && invalidates(
                    short[i],
                    table,
                    changes,
                    row,
                    key,
                    operation,
                );
            assert(queries[i].fingerprint == fp);
        }
    }
}

proof fn lemma_push_contains(list: Seq<u64>, item: u64, x: u64)
    ensures
        list.push(item).contains(x) <==> list.contains(x) || item == x,
{
    if list.contains(x) {
        let k = choose|k: int| 0 <= k < list.len() && list[k] == x;
        assert(list.push(item)[k] == x);
    }
    if item == x {
        assert(list.push(item)[list.len() as int] == x);
    }
    if list.push(item).contains(x) && item != x {
        let k = choose|k: int| 0 <= k < list.push(item).len() && list.push(item)[k] == x;
        assert(list[k] == x);
    }
}

/// Exactly the queries whose conditions a row meets are its candidates.
pub proof fn candidates_are_the_matching_queries(
    queries: Seq<UpdateQuery>,
    table: TableMetadata,
    row: RowView,
    fp: u64,
)
    ensures
        candidates(queries, table, row).contains(fp) <==> exists|i: int|
            0 <= i < queries.len() && (#[trigger] queries[i]).fingerprint == fp && row_matches(
                queries[i].constraints,
                table,
                row,
            ),
    decreases queries.len(),
{
    if queries.len() > 0 {
        let short = queries.drop_last();
        let n = queries.len() - 1;
        candidates_are_the_matching_queries(short, table, row, fp);
        lemma_push_contains(candidates(short, table, row), queries[n].fingerprint, fp);
        assert forall|i: int| 0 <= i < n implies short[i] == #[trigger] queries[i] by {}
        if exists|i: int|
            0 <= i < short.len() && (#[trigger] short[i]).fingerprint == fp && row_matches(
                short[i].constraints,
                table,
                row,
            ) {
            let i = choose|i: int|
                0 <= i < short.len() && (#[trigger] short[i]).fingerprint == fp && row_matches(
                    short[i].constraints,
                    table,
                    row,
                );
            assert(queries[i].fingerprint == fp);
        }
    }
}

/// Exactly the queries whose conditions a removed row may have met are found.
pub proof fn removed_candidates_are_the_possible_queries(
    queries: Seq<UpdateQuery>,
    table: TableMetadata,
    image: RowView,
    pk_only: bool,
    fp: u64,
)
    ensures
        removed_candidates(queries, table, image, pk_only).contains(fp) <==> exists|i: int|
            0 <= i < queries.len() && (#[trigger] queries[i]).fingerprint == fp
                && may_have_matched(queries[i], table, image, pk_only),
    decreases queries.len(),
{
    if queries.len() > 0 {
        let short = queries.drop_last();
        let n = queries.len() - 1;
        removed_candidates_are_the_possible_queries(short, table, image, pk_only, fp);
        lemma_push_contains(
            removed_candidates(short, table, image, pk_only),
            queries[n].fingerprint,
            fp,
        );
        assert forall|i: int| 0 <= i < n implies short[i] == #[trigger] queries[i] by {}
        if exists|i: int|
            0 <= i < short.len() && (#[trigger] short[i]).fingerprint == fp && may_have_matched(
                short[i],
                table,
                image,
                pk_only,
            ) {
            let i = choose|i: int|
                0 <= i < short.len() && (#[trigger] short[i]).fingerprint == fp
                    && may_have_matched(short[i], table, image, pk_only);
            assert(queries[i].fingerprint == fp);
        }
    }
}

/// A removed row that visibly fails a condition is known not to have been in
/// the query's result: a cell that is left, and that is the old version's, does
/// not meet it.
pub proof fn visibly_failing_row_is_no_candidate(
    q: UpdateQuery,
    table: TableMetadata,
    image: RowView,
    pk_only: bool,
    k: int,
)
    requires
        constraints_of(q.constraints.table_constraints@, table.name@) matches Some(list) && 0 <= k
            < list.len() && (named_cell(table.columns@, image, constraint_column(list[k])) matches Some(
            Some(text),
        ) && !constraint_text_holds(list[k], text)) && (!pk_only || name_in(
            table.primary_key_columns@,
            constraint_column(list[k]),
        )),
    ensures
        !may_have_matched(q, table, image, pk_only),
{
    let list = constraints_of(q.constraints.table_constraints@, table.name@)->0;
    assert(!crate::invalidation::constraint_may_hold(list[k], table, image, pk_only));
}

/// An incomplete image invalidates whatever its missing columns may decide: a
/// query whose predicate reads one of them, one with a LIMIT, and one that reads
/// the relation in a subquery or on an optional side.
pub proof fn incomplete_image_invalidates_what_it_may_decide(
    q: UpdateQuery,
    table: TableMetadata,
    row: RowView,
    key: RowView,
    missing: Seq<Seq<char>>,
)
    ensures
        (exists|i: int|
            0 <= i < q.predicate_columns@.len() && missing.contains(
                (#[trigger] q.predicate_columns@[i])@,
            )) ==> toast_structural(q, table, row, key, missing),
        q.has_limit ==> toast_structural(q, table, row, key, missing),
        q.source is Subquery || q.source == UpdateQuerySource::OuterJoinOptional
            ==> toast_structural(q, table, row, key, missing),
        !q.has_limit && q.is_single_table && !(q.source is Subquery) && q.source
            != UpdateQuerySource::OuterJoinOptional && (forall|i: int|
            0 <= i < q.predicate_columns@.len() ==> !missing.contains(
                (#[trigger] q.predicate_columns@[i])@,
            )) ==> !toast_structural(q, table, row, key, missing),
{
}

/// Of an UPDATE with an incomplete image, a query is flagged, asked about or
/// left alone: exactly those are left alone that are flagged already, or that
/// the image cannot concern and that do not hold the row.
pub proof fn incomplete_image_leaves_no_query_open(
    queries: Seq<UpdateQuery>,
    table: TableMetadata,
    row: RowView,
    key: RowView,
    missing: Seq<Seq<char>>,
    invalidations: Seq<u64>,
    recording: bool,
    i: int,
)
    requires
        0 <= i < queries.len(),
        !invalidations.contains(queries[i].fingerprint),
    ensures
        ({
            let q = queries[i];
            let flagged = toast_flagged(
                queries,
                table,
                row,
                key,
                missing,
                invalidations,
                recording,
            );
            let asked = toast_asked(queries, table, row, key, missing, invalidations, recording);
            let decided = recording || toast_structural(q, table, row, key, missing);
            &&& decided ==> flagged.contains(q.fingerprint)
            &&& !decided && q.eval_strategy == UpdateEvalStrategy::PgEval ==> asked.contains(
                q.fingerprint,
            )
            &&& !decided && q.eval_strategy == UpdateEvalStrategy::LocalEval && matches_locally(
                q,
                row,
            ) ==> flagged.contains(q.fingerprint)
        }),
    decreases queries.len(),
{
    let short = queries.drop_last();
    let last = queries.last().fingerprint;
    let flagged = toast_flagged(short, table, row, key, missing, invalidations, recording);
    let asked = toast_asked(short, table, row, key, missing, invalidations, recording);
    let fp = queries[i].fingerprint;
    lemma_push_contains(flagged, last, fp);
    lemma_push_contains(asked, last, fp);
    if i < short.len() {
        assert(short[i] == queries[i]);
        incomplete_image_leaves_no_query_open(
            short,
            table,
            row,
            key,
            missing,
            invalidations,
            recording,
            i,
        );
    }
}

} // verus!
