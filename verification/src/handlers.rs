//! What each kind of row event does.
//!
//! An event is handled in two parts. The first flags the queries that the
//! change invalidates, and says what has to be asked of the cache database.
//! Once that is answered, the second lists the steps that the event takes.
use vstd::prelude::*;

use crate::cache::CacheView;
use crate::catalog::Row;
use crate::catalog::RowView;
use crate::catalog::TableMetadata;
use crate::catalog::pk_body_render;
use crate::dispatch::deletion_tracked;
use crate::dispatch::membership_begun;
use crate::dispatch::membership_plan;
use crate::dispatch::relation_queries;
use crate::dispatch::row_key;
use crate::dispatch::EvalPlan;
use crate::error::CacheError;
use crate::frame::fingerprint_contains;
use crate::invalidation::all_joins_covered;
use crate::invalidation::row_changes_complete;
use crate::invalidation::toast_fallback_structural_invalidate;
use crate::invalidation::toast_structural;
use crate::invalidation::CdcOperation;
use crate::invalidation::ColumnChange;
use crate::invalidation::RowChanges;
use crate::prepared::PreparedStatements;
use crate::prepared::TextsView;
use crate::query::matches_locally;
use crate::query::update_query_matches_locally;
use crate::query::UpdateEvalStrategy;
use crate::query::UpdateQueries;
use crate::query::UpdateQuery;
use crate::row_ops::change_invalidates;
use crate::row_ops::core_flagged;
use crate::row_ops::core_memo_evicted;
use crate::row_ops::entered;
use crate::row_ops::removed_from;
use crate::row_ops::RowOp;
use crate::segment::batch_row_change;
use crate::segment::BatchView;
use crate::segment::SegmentMembership;
use crate::toast::source_image;
use crate::writer_core::CoreView;
use crate::writer_core::WriterCore;

verus! {

broadcast use vstd::std_specs::hash::group_hash_axioms;

/// The writer's CDC side.
pub struct WriterCdc {
    /// Everything up to this LSN has been applied.
    pub last_applied_lsn: u64,
    /// The statements that evaluations have prepared.
    pub statements: PreparedStatements,
}

/// The state after the queries that an inserted row invalidates were flagged.
pub open spec fn insert_checked(c: CoreView, oid: u32, row: RowView) -> CoreView {
    core_flagged(c, change_invalidates(c.cache, oid, None, row, None, CdcOperation::Upsert))
}

/// Whether the key that an updated row has now was deleted earlier in the
/// batch, so that what the cache database shows under it is out of date.
pub open spec fn key_deleted_in_batch(c: CoreView, oid: u32, row: RowView) -> bool {
    row_key(c.cache, oid, row) matches Some(k) && c.frame.batch_deleted_pks.contains(k)
}

/// What is known of an updated row's changed columns: `None` when the cache
/// database has yet to be asked, `Some(None)` when the row is not cached.
/// `answer` is what the database said, if it was asked.
pub open spec fn known_changes(
    c: CoreView,
    m: Map<u32, BatchView>,
    idx: usize,
    oid: u32,
    row: RowView,
    answer: Option<Option<Seq<ColumnChange>>>,
) -> Option<Option<Seq<ColumnChange>>> {
    if key_deleted_in_batch(c, oid, row) {
        Some(None)
    } else {
        match batch_row_change(m, oid, idx) {
            Some(known) => Some(known),
            None => answer,
        }
    }
}

/// Whether the invalidation of some query over the relation depends on what an
/// UPDATE changed.
pub open spec fn needs_changes(c: CacheView, oid: u32) -> bool {
    c.update_queries.contains_key(oid) && exists|i: int|
        0 <= i < c.update_queries[oid].len() && (
        #[trigger] c.update_queries[oid][i]).change_dependent
}

/// The state after the memos that an UPDATE may make stale were marked.
pub open spec fn update_memos(c: CoreView, oid: u32, key: RowView, row: RowView) -> CoreView {
    core_memo_evicted(
        core_memo_evicted(c, oid, entered(c.cache, oid, row)),
        oid,
        removed_from(c.cache, oid, source_image(key, row), true),
    )
}

/// The state after the queries that an UPDATE with known changes invalidates
/// were flagged, and the memos it may make stale marked.
pub open spec fn update_checked(
    c: CoreView,
    oid: u32,
    key: RowView,
    row: RowView,
    changes: Option<Seq<ColumnChange>>,
) -> CoreView {
    update_memos(
        core_flagged(
            c,
            change_invalidates(c.cache, oid, changes, row, Some(key), CdcOperation::Upsert),
        ),
        oid,
        key,
        row,
    )
}

/// What an UPDATE needs next.
pub enum UpdateStart {
    /// Nothing: its relation is not cached.
    Skip,
    /// What it changed has to be asked of the cache database.
    AskChanges,
    /// The row's membership is to be evaluated.
    Evaluate(EvalPlan),
}

/// The queries over the relation that an UPDATE with an incomplete image
/// invalidates without asking the cache database, in order.
pub open spec fn toast_flagged(
    queries: Seq<UpdateQuery>,
    table: TableMetadata,
    row: RowView,
    key: RowView,
    toasted: Seq<Seq<char>>,
    invalidations: Seq<u64>,
    recording: bool,
) -> Seq<u64>
    decreases queries.len(),
{
    if queries.len() == 0 {
        Seq::empty()
    } else {
        let rest = toast_flagged(
            queries.drop_last(),
            table,
            row,
            key,
            toasted,
            invalidations,
            recording,
        );
        let q = queries.last();
        if !invalidations.contains(q.fingerprint) && (recording || toast_structural(
            q,
            table,
            row,
            key,
            toasted,
        ) || q.eval_strategy == UpdateEvalStrategy::LocalEval && matches_locally(q, row)) {
            rest.push(q.fingerprint)
        } else {
            rest
        }
    }
}

/// The queries over the relation of which the cache database has to say
/// whether they hold the row with the incomplete image, in order.
pub open spec fn toast_asked(
    queries: Seq<UpdateQuery>,
    table: TableMetadata,
    row: RowView,
    key: RowView,
    toasted: Seq<Seq<char>>,
    invalidations: Seq<u64>,
    recording: bool,
) -> Seq<u64>
    decreases queries.len(),
{
    if queries.len() == 0 {
        Seq::empty()
    } else {
        let rest = toast_asked(
            queries.drop_last(),
            table,
            row,
            key,
            toasted,
            invalidations,
            recording,
        );
        let q = queries.last();
        if !invalidations.contains(q.fingerprint) && !recording && !toast_structural(
            q,
            table,
            row,
            key,
            toasted,
        ) && q.eval_strategy == UpdateEvalStrategy::PgEval {
            rest.push(q.fingerprint)
        } else {
            rest
        }
    }
}

/// What an UPDATE with an incomplete image invalidates.
pub struct ToastStart {
    /// Queries to flag.
    pub flagged: Vec<u64>,
    /// Queries to flag if the cache database says that they hold the row.
    pub asked: Vec<u64>,
}

/// The steps of an INSERT. A row that no query holds is still written when a
/// deletion of its key is tracked: a population that has not seen the row
/// would otherwise leave it out.
pub open spec fn insert_ops(matched: bool, tracks_deletion: bool) -> Seq<RowOp> {
    if matched {
        seq![RowOp::Upsert, RowOp::MemoEntered, RowOp::Cancel]
    } else if tracks_deletion {
        seq![RowOp::MemoEntered, RowOp::Cancel, RowOp::Upsert]
    } else {
        seq![RowOp::MemoEntered, RowOp::Cancel]
    }
}

/// The steps of an UPDATE. A row that left every query is written while
/// populations are in flight, and removed otherwise.
pub open spec fn update_ops(matched: bool, recording: bool, key_changed: bool) -> Seq<RowOp> {
    let main = if matched {
        seq![RowOp::Upsert, RowOp::Cancel, RowOp::DirtySource]
    } else if recording {
        seq![RowOp::Cancel, RowOp::Upsert, RowOp::DirtySource]
    } else {
        seq![RowOp::Delete { record: true }, RowOp::DirtySource]
    };
    if key_changed {
        main.push(RowOp::DeleteKey)
    } else {
        main
    }
}

/// The steps of an UPDATE with an incomplete image: the row is removed. It is
/// alive, so its key is not kept while populations are in flight.
pub open spec fn toast_ops(recording: bool, key_changed: bool) -> Seq<RowOp> {
    let main = seq![RowOp::DirtySource, RowOp::Delete { record: !recording }];
    if key_changed {
        main.push(RowOp::DeleteKey)
    } else {
        main
    }
}

/// The steps of a DELETE over a cached relation.
pub open spec fn delete_ops(known: bool) -> Seq<RowOp> {
    if known {
        seq![
            RowOp::Delete { record: true },
            RowOp::MemoRemoved,
            RowOp::DirtyRemoved,
            RowOp::FlagRemoved,
        ]
    } else {
        Seq::empty()
    }
}

/// The steps of a TRUNCATE.
pub open spec fn truncate_ops() -> Seq<RowOp> {
    seq![RowOp::TruncateWrite, RowOp::TruncateEvict]
}

impl WriterCdc {
    /// A CDC side that has applied nothing.
    pub fn new() -> (cdc: WriterCdc)
        ensures
            cdc.last_applied_lsn == 0,
            cdc.statements.wf(),
            cdc.statements@.membership.len() == 0,
            cdc.statements@.row_change.len() == 0,
            cdc.statements@.texts == TextsView::empty(),
    {
        WriterCdc { last_applied_lsn: 0, statements: PreparedStatements::new() }
    }

    /// Begin an INSERT: flag the queries it invalidates, then begin to
    /// evaluate the row's membership. `None` when its relation is not cached.
    pub fn handle_insert(
        &self,
        core: &mut WriterCore,
        oid: u32,
        row: &Row,
        membership: &SegmentMembership,
        idx: usize,
    ) -> (start: Option<EvalPlan>)
        ensures
            ({
                let checked = insert_checked(old(core)@, oid, row.deep_view());
                match start {
                    None => !old(core)@.cache.tables.contains_key(oid) && final(core)@ == old(
                        core,
                    )@,
                    Some(plan) => {
                        &&& old(core)@.cache.tables.contains_key(oid)
                        &&& final(core)@ == membership_begun(
                            checked,
                            membership@,
                            idx,
                            oid,
                            row.deep_view(),
                        )
                        &&& plan@ == membership_plan(
                            checked,
                            membership@,
                            idx,
                            oid,
                            row.deep_view(),
                        )
                    },
                }
            }),
    {
        if !core.cache.tables.contains_key(&oid) {
            return None;
        }
        core.change_flag(oid, None, row, None, CdcOperation::Upsert);
        Some(core.update_queries_execute_batch(membership, idx, oid, row))
    }

    fn key_deleted_in_batch(&self, core: &WriterCore, oid: u32, row: &Row) -> (deleted: bool)
        ensures
            deleted == key_deleted_in_batch(core@, oid, row.deep_view()),
    {
        match core.cache.tables.get(&oid) {
            Some(table) => match pk_body_render(table, row) {
                Some(key) => core.frame.batch_deleted_pks.contains(oid, &key),
                None => false,
            },
            None => false,
        }
    }

    /// Begin an UPDATE: find out what it changed, where that matters to some
    /// query, flag the queries it invalidates, mark the memos it may make
    /// stale, then begin to evaluate the row's membership. `answer` is what
    /// the cache database said of the changed columns, if it was asked.
    /// Changes that lack a column which decides whether some query is
    /// invalidated give [`CacheError::ColumnMissing`].
    pub fn handle_update(
        &self,
        core: &mut WriterCore,
        oid: u32,
        key: &Row,
        row: &Row,
        membership: &SegmentMembership,
        idx: usize,
        answer: Option<Option<&RowChanges>>,
    ) -> (start: Result<UpdateStart, CacheError>)
        ensures
            ({
                let c = old(core)@;
                let (k, r) = (key.deep_view(), row.deep_view());
                let answered = match answer {
                    Some(Some(a)) => Some(Some(a@)),
                    Some(None) => Some(None::<Seq<ColumnChange>>),
                    None => None,
                };
                let known = known_changes(c, membership@, idx, oid, r, answered);
                let queries = relation_queries(c.cache, oid);
                match start {
                    Ok(UpdateStart::Skip) => !c.cache.tables.contains_key(oid) && final(core)@
                        == c,
                    Ok(UpdateStart::AskChanges) => {
                        &&& c.cache.tables.contains_key(oid)
                        &&& needs_changes(c.cache, oid)
                        &&& known is None
                        &&& final(core)@ == c
                    },
                    Ok(UpdateStart::Evaluate(plan)) => {
                        let checked = if needs_changes(c.cache, oid) {
                            update_checked(c, oid, k, r, known->0)
                        } else {
                            update_memos(c, oid, k, r)
                        };
                        &&& c.cache.tables.contains_key(oid)
                        &&& needs_changes(c.cache, oid) ==> known is Some && (
                        known->0 matches Some(changes) ==> all_joins_covered(
                            queries,
                            c.cache.tables[oid],
                            r,
                            changes,
                        ))
                        &&& final(core)@ == membership_begun(checked, membership@, idx, oid, r)
                        &&& plan@ == membership_plan(checked, membership@, idx, oid, r)
                    },
                    Err(error) => {
                        &&& error == CacheError::ColumnMissing
                        &&& c.cache.tables.contains_key(oid)
                        &&& needs_changes(c.cache, oid)
                        &&& known matches Some(Some(changes)) && !all_joins_covered(
                            queries,
                            c.cache.tables[oid],
                            r,
                            changes,
                        )
                        &&& final(core)@ == c
                    },
                }
            }),
    {
        if !core.cache.tables.contains_key(&oid) {
            return Ok(UpdateStart::Skip);
        }
        let needed = match core.cache.update_queries.get(&oid) {
            Some(queries) => queries.needs_change_eval(),
            None => false,
        };
        proof {
            if core@.cache.update_queries.contains_key(oid) {
                assert(core@.cache.update_queries[oid]
                    == core.cache.update_queries@[oid].queries@);
            }
            assert(needed == needs_changes(core@.cache, oid));
        }
        if needed {
            let known = if self.key_deleted_in_batch(core, oid, row) {
                Some(None)
            } else {
                match membership.row_change(oid, idx) {
                    Some(known) => Some(known),
                    None => answer,
                }
            };
            match known {
                None => {
                    return Ok(UpdateStart::AskChanges);
                },
                Some(changes) => {
                    if let Some(c) = changes {
                        let complete = match (
                            core.cache.update_queries.get(&oid),
                            core.cache.tables.get(&oid),
                        ) {
                            (Some(queries), Some(table)) => row_changes_complete(
                                queries,
                                table,
                                row,
                                c,
                            ),
                            _ => true,
                        };
                        if !complete {
                            return Err(CacheError::ColumnMissing);
                        }
                    }
                    core.change_flag(oid, changes, row, Some(key), CdcOperation::Upsert);
                },
            }
        }
        core.memo_update_accumulate(oid, key, row);
        Ok(
            UpdateStart::Evaluate(core.update_queries_execute_batch(membership, idx, oid, row)),
        )
    }

    /// Begin an UPDATE whose missing values could not be recovered: which
    /// queries it invalidates. `None` when its relation is not cached. While
    /// populations are in flight over the relation, that is every query.
    pub fn handle_update_toast_fallback(
        &self,
        core: &WriterCore,
        oid: u32,
        key: &Row,
        row: &Row,
        toasted_columns: &Vec<String>,
    ) -> (start: Option<ToastStart>)
        ensures
            match start {
                None => !core@.cache.tables.contains_key(oid),
                Some(s) => {
                    &&& core@.cache.tables.contains_key(oid)
                    &&& s.flagged@ == toast_flagged(
                        relation_queries(core@.cache, oid),
                        core@.cache.tables[oid],
                        row.deep_view(),
                        key.deep_view(),
                        toasted_columns.deep_view(),
                        core@.frame.invalidations,
                        core@.keys.contains_key(oid),
                    )
                    &&& s.asked@ == toast_asked(
                        relation_queries(core@.cache, oid),
                        core@.cache.tables[oid],
                        row.deep_view(),
                        key.deep_view(),
                        toasted_columns.deep_view(),
                        core@.frame.invalidations,
                        core@.keys.contains_key(oid),
                    )
                },
            },
    {
        let table = match core.cache.tables.get(&oid) {
            Some(table) => table,
            None => {
                return None;
            },
        };
        let recording = core.deleted_keys.is_recording(oid);
        match core.cache.update_queries.get(&oid) {
            Some(queries) => {
                proof {
                    assert(queries.queries@ == relation_queries(core@.cache, oid));
                }
                Some(
                    self.toast_queries_sort(
                        core,
                        queries,
                        table,
                        key,
                        row,
                        toasted_columns,
                        recording,
                    ),
                )
            },
            None => {
                let none = ToastStart { flagged: Vec::new(), asked: Vec::new() };
                proof {
                    assert(none.flagged@ =~= Seq::<u64>::empty());
                    assert(none.asked@ =~= Seq::<u64>::empty());
                }
                Some(none)
            },
        }
    }

    fn toast_queries_sort(
        &self,
        core: &WriterCore,
        queries: &UpdateQueries,
        table: &TableMetadata,
        key: &Row,
        row: &Row,
        toasted_columns: &Vec<String>,
        recording: bool,
    ) -> (start: ToastStart)
        ensures
            start.flagged@ == toast_flagged(
                queries.queries@,
                *table,
                row.deep_view(),
                key.deep_view(),
                toasted_columns.deep_view(),
                core@.frame.invalidations,
                recording,
            ),
            start.asked@ == toast_asked(
                queries.queries@,
                *table,
                row.deep_view(),
                key.deep_view(),
                toasted_columns.deep_view(),
                core@.frame.invalidations,
                recording,
            ),
    {
        let list = &queries.queries;
        let mut flagged: Vec<u64> = Vec::new();
        let mut asked: Vec<u64> = Vec::new();
        let mut i: usize = 0;
        while i < list.len()
            invariant
                i <= list.len(),
                list == queries.queries,
                flagged@ =~= toast_flagged(
                    list@.take(i as int),
                    *table,
                    row.deep_view(),
                    key.deep_view(),
                    toasted_columns.deep_view(),
                    core@.frame.invalidations,
                    recording,
                ),
                asked@ =~= toast_asked(
                    list@.take(i as int),
                    *table,
                    row.deep_view(),
                    key.deep_view(),
                    toasted_columns.deep_view(),
                    core@.frame.invalidations,
                    recording,
                ),
            decreases list.len() - i,
        {
            proof {
                assert(list@.take(i + 1).drop_last() =~= list@.take(i as int));
            }
            let q = &list[i];
            if !fingerprint_contains(&core.frame.invalidations, q.fingerprint) {
                if recording || toast_fallback_structural_invalidate(
                    q,
                    table,
                    row,
                    key,
                    toasted_columns,
                ) {
                    flagged.push(q.fingerprint);
                } else {
                    match q.eval_strategy {
                        UpdateEvalStrategy::LocalEval => {
                            if update_query_matches_locally(q, row) {
                                flagged.push(q.fingerprint);
                            }
                        },
                        UpdateEvalStrategy::PgEval => {
                            asked.push(q.fingerprint);
                        },
                    }
                }
            }
            i = i + 1;
        }
        proof {
            assert(list@.take(i as int) =~= list@);
        }
        ToastStart { flagged, asked }
    }

    /// The steps of an INSERT whose row's membership is known.
    pub fn insert_finish(&self, core: &WriterCore, oid: u32, row: &Row, matched: bool) -> (ops: Vec<
        RowOp,
    >)
        ensures
            ops@ == insert_ops(matched, deletion_tracked(core@, oid, row.deep_view())),
    {
        let ops = if matched {
            vec![RowOp::Upsert, RowOp::MemoEntered, RowOp::Cancel]
        } else if core.deletion_is_tracked(oid, row) {
            vec![RowOp::MemoEntered, RowOp::Cancel, RowOp::Upsert]
        } else {
            vec![RowOp::MemoEntered, RowOp::Cancel]
        };
        proof {
            assert(ops@ =~= insert_ops(matched, deletion_tracked(core@, oid, row.deep_view())));
        }
        ops
    }

    /// The steps of an UPDATE whose row's membership is known.
    pub fn update_finish(&self, core: &WriterCore, oid: u32, key: &Row, matched: bool) -> (ops: Vec<
        RowOp,
    >)
        ensures
            ops@ == update_ops(matched, core@.keys.contains_key(oid), key@.len() > 0),
    {
        let mut ops = if matched {
            vec![RowOp::Upsert, RowOp::Cancel, RowOp::DirtySource]
        } else if core.deleted_keys.is_recording(oid) {
            vec![RowOp::Cancel, RowOp::Upsert, RowOp::DirtySource]
        } else {
            vec![RowOp::Delete { record: true }, RowOp::DirtySource]
        };
        if key.len() > 0 {
            ops.push(RowOp::DeleteKey);
        }
        proof {
            assert(ops@ =~= update_ops(matched, core@.keys.contains_key(oid), key@.len() > 0));
        }
        ops
    }

    /// The steps of an UPDATE with an incomplete image.
    pub fn toast_fallback_finish(&self, core: &WriterCore, oid: u32, key: &Row) -> (ops: Vec<RowOp>)
        ensures
            ops@ == toast_ops(core@.keys.contains_key(oid), key@.len() > 0),
    {
        let recording = core.deleted_keys.is_recording(oid);
        let mut ops = vec![RowOp::DirtySource, RowOp::Delete { record: !recording }];
        if key.len() > 0 {
            ops.push(RowOp::DeleteKey);
        }
        proof {
            assert(ops@ =~= toast_ops(core@.keys.contains_key(oid), key@.len() > 0));
        }
        ops
    }

    /// The steps of a DELETE: the row is removed, then the memos and the
    /// materialized results it may have been in are made stale, and the queries
    /// that its removal may let grow are flagged. None over a relation that is
    /// not cached.
    pub fn handle_delete(&self, core: &WriterCore, oid: u32) -> (ops: Vec<RowOp>)
        ensures
            ops@ == delete_ops(core@.cache.tables.contains_key(oid)),
    {
        let ops = if core.cache.tables.contains_key(&oid) {
            vec![
                RowOp::Delete { record: true },
                RowOp::MemoRemoved,
                RowOp::DirtyRemoved,
                RowOp::FlagRemoved,
            ]
        } else {
            Vec::new()
        };
        proof {
            assert(ops@ =~= delete_ops(core@.cache.tables.contains_key(oid)));
        }
        ops
    }

    /// The steps of a TRUNCATE: the cache tables are emptied, then the queries
    /// over them evicted, and the populations in flight over them will abort.
    pub fn handle_truncate(&self) -> (ops: Vec<RowOp>)
        ensures
            ops@ == truncate_ops(),
    {
        let ops = vec![RowOp::TruncateWrite, RowOp::TruncateEvict];
        proof {
            assert(ops@ =~= truncate_ops());
        }
        ops
    }
}

} // verus!
