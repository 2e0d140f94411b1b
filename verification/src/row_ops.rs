//! The operations a row event is made of. Each is applied in turn; one that
//! writes may fill the buffer, which is then sent before the next.
use vstd::prelude::*;

use crate::cache::tables_invalidated;
use crate::cache::CacheView;
use crate::catalog::Row;
use crate::catalog::RowView;
use crate::dispatch::core_dirtied;
use crate::dispatch::deletion_cancelled;
use crate::dispatch::frame_delete_failed;
use crate::dispatch::frame_deleted;
use crate::dispatch::frame_upserted;
use crate::dispatch::memo_accumulated;
use crate::dispatch::relation_queries;
use crate::error::CacheError;
use crate::event::event_relation;
use crate::event::EventView;
use crate::event::FrameRowEvent;
use crate::frame::chunk_full;
use crate::frame::fingerprints_insert;
use crate::frame::losses_cleared;
use crate::frame::losses_stamped;
use crate::frame::txn_begun;
use crate::frame::with_all_distinct;
use crate::frame::write_finished;
use crate::frame::FrameState;
use crate::frame::FrameView;
use crate::invalidation::all_joins_covered;
use crate::invalidation::candidates;
use crate::invalidation::eval_candidates;
use crate::invalidation::invalidated;
use crate::invalidation::removed_candidates;
use crate::invalidation::removed_candidates_collect;
use crate::invalidation::update_queries_check_invalidate;
use crate::invalidation::CdcOperation;
use crate::invalidation::ColumnChange;
use crate::invalidation::RowChanges;
use crate::sql::has_pk_cell;
use crate::sql::truncate_sql;
use crate::sql::truncate_sql_build;
use crate::toast::source_image;
use crate::writer_core::CoreView;
use crate::writer_core::WriterCore;

verus! {

broadcast use vstd::std_specs::hash::group_hash_axioms;

/// The row image of an event; empty where it has none.
pub open spec fn event_row(e: EventView) -> RowView {
    match e {
        EventView::Insert { row_data, .. } => row_data,
        EventView::Update { new_row_data, .. } => new_row_data,
        EventView::UpdateToasted { new_row_data, .. } => new_row_data,
        EventView::UpdateToastFallback { new_row_data, .. } => new_row_data,
        EventView::Delete { row_data, .. } => row_data,
        EventView::Truncate { .. } => Seq::empty(),
        EventView::Boundary { .. } => Seq::empty(),
    }
}

/// The old key image of an event; empty where it has none or the key did not
/// change.
pub open spec fn event_key(e: EventView) -> RowView {
    match e {
        EventView::Update { key_data, .. } => key_data,
        EventView::UpdateToasted { key_data, .. } => key_data,
        EventView::UpdateToastFallback { key_data, .. } => key_data,
        _ => Seq::empty(),
    }
}

/// The relations an event truncates.
pub open spec fn event_truncates(e: EventView) -> Seq<u32> {
    match e {
        EventView::Truncate { relation_oids } => relation_oids,
        _ => Seq::empty(),
    }
}

/// One step of what an event does.
#[derive(Clone, Copy, PartialEq, Eq, Structural)]
pub enum RowOp {
    /// Write the row.
    Upsert,
    /// Remove the row; with `record` its key is kept for the populations in
    /// flight.
    Delete { record: bool },
    /// Remove the row under the old key, which is kept likewise.
    DeleteKey,
    /// Drop a tracked deletion of the row's key.
    Cancel,
    /// The memos the row may have entered are stale.
    MemoEntered,
    /// The memos the removed row may have been in are stale.
    MemoRemoved,
    /// The materialized results the old version may have been in are stale.
    DirtySource,
    /// The materialized results the removed row may have been in are stale.
    DirtyRemoved,
    /// The queries that the removal invalidates are flagged.
    FlagRemoved,
    /// Empty the truncated relations' cache tables.
    TruncateWrite,
    /// Evict the queries over the truncated relations.
    TruncateEvict,
    /// Stamp the frame's losses with its commit LSN.
    Stamp,
}

/// The queries whose conditions a removed row of the relation may have met.
pub open spec fn removed_from(c: CacheView, oid: u32, image: RowView, pk_only: bool) -> Seq<u64> {
    removed_candidates(relation_queries(c, oid), c.tables[oid], image, pk_only)
}

/// The queries whose conditions on the relation the row meets.
pub open spec fn entered(c: CacheView, oid: u32, row: RowView) -> Seq<u64> {
    candidates(relation_queries(c, oid), c.tables[oid], row)
}

/// The queries that a change of the relation invalidates.
pub open spec fn change_invalidates(
    c: CacheView,
    oid: u32,
    changes: Option<Seq<ColumnChange>>,
    row: RowView,
    key: Option<RowView>,
    operation: CdcOperation,
) -> Seq<u64> {
    invalidated(relation_queries(c, oid), c.tables[oid], changes, row, key, operation)
}

/// The state with the given queries flagged for invalidation.
pub open spec fn core_flagged(c: CoreView, fps: Seq<u64>) -> CoreView {
    CoreView {
        frame: FrameView {
            invalidations: with_all_distinct(c.frame.invalidations, fps),
            ..c.frame
        },
        ..c
    }
}

/// The state with the memos of the given queries over the relation marked for
/// eviction.
pub open spec fn core_memo_evicted(c: CoreView, oid: u32, fps: Seq<u64>) -> CoreView {
    CoreView {
        frame: FrameView {
            memo_evictions: memo_accumulated(c.frame.memo_evictions, c.cache.memo, oid, fps),
            ..c.frame
        },
        ..c
    }
}

/// Whether a step writes to the buffer.
pub open spec fn op_writes(c: CoreView, e: EventView, op: RowOp) -> bool {
    match op {
        RowOp::Upsert => true,
        RowOp::Delete { .. } => true,
        RowOp::DeleteKey => true,
        RowOp::TruncateWrite => truncate_sql(c.cache.tables, event_truncates(e)) is Some,
        _ => false,
    }
}

/// Why a removal of the row fails, if it does.
pub open spec fn delete_failure(c: CacheView, oid: u32, row: RowView) -> Option<CacheError> {
    if !c.tables.contains_key(oid) {
        Some(CacheError::UnknownTable { oid })
    } else if !has_pk_cell(c.tables[oid], row) {
        Some(CacheError::NoPrimaryKey)
    } else {
        None
    }
}

/// The state after a removal of the row, whether it fails or not.
pub open spec fn delete_applied(c: CoreView, oid: u32, row: RowView, record: bool) -> CoreView {
    CoreView {
        frame: if !c.cache.tables.contains_key(oid) {
            txn_begun(c.frame, seq![oid])
        } else if !has_pk_cell(c.cache.tables[oid], row) {
            frame_delete_failed(c, oid, row)
        } else {
            frame_deleted(c, oid, row, record)
        },
        ..c
    }
}

/// Why a step fails, if it does.
pub open spec fn op_failure(c: CoreView, e: EventView, op: RowOp) -> Option<CacheError> {
    match (op, event_relation(e)) {
        (RowOp::Upsert, Some(oid)) => if c.cache.tables.contains_key(oid) {
            None
        } else {
            Some(CacheError::UnknownTable { oid })
        },
        (RowOp::Delete { .. }, Some(oid)) => delete_failure(c.cache, oid, event_row(e)),
        (RowOp::DeleteKey, Some(oid)) => delete_failure(c.cache, oid, event_key(e)),
        _ => None,
    }
}

/// The state after the truncated relations' statement was buffered.
pub open spec fn truncate_written(c: CoreView, oids: Seq<u32>) -> CoreView {
    match truncate_sql(c.cache.tables, oids) {
        Some(sql) => {
            let begun = txn_begun(c.frame, oids);
            CoreView {
                frame: write_finished(FrameView { buf: begun.buf + sql, ..begun }),
                ..c
            }
        },
        None => c,
    }
}

/// The state after the queries over truncated relations were evicted, and the
/// relations noted for the populations in flight.
pub open spec fn truncate_evicted(c: CoreView, oids: Seq<u32>) -> CoreView {
    CoreView {
        cache: tables_invalidated(c.cache, oids, c.frame.state == FrameState::TxnOpen),
        frame: FrameView { truncated_relations: c.frame.truncated_relations + oids, ..c.frame },
        ..c
    }
}

/// The state after the losses since the last boundary were stamped.
pub open spec fn boundary_stamped(c: CoreView, lsn: u64) -> CoreView {
    CoreView {
        keys: losses_stamped(c.keys, c.frame, lsn),
        frame: losses_cleared(c.frame),
        ..c
    }
}

/// The state after a step of an event over a relation.
pub open spec fn relation_op_applied(c: CoreView, e: EventView, oid: u32, op: RowOp) -> CoreView {
    match op {
        RowOp::Upsert => CoreView {
            frame: if c.cache.tables.contains_key(oid) {
                frame_upserted(c.frame, c.cache, oid, event_row(e))
            } else {
                txn_begun(c.frame, seq![oid])
            },
            ..c
        },
        RowOp::Delete { record } => delete_applied(c, oid, event_row(e), record),
        RowOp::DeleteKey => delete_applied(c, oid, event_key(e), true),
        RowOp::Cancel => deletion_cancelled(c, oid, event_row(e)),
        RowOp::MemoEntered => core_memo_evicted(c, oid, entered(c.cache, oid, event_row(e))),
        RowOp::MemoRemoved => core_memo_evicted(
            c,
            oid,
            removed_from(c.cache, oid, event_row(e), false),
        ),
        RowOp::DirtySource => core_dirtied(
            c,
            removed_from(c.cache, oid, source_image(event_key(e), event_row(e)), true),
        ),
        RowOp::DirtyRemoved => core_dirtied(c, removed_from(c.cache, oid, event_row(e), false)),
        RowOp::FlagRemoved => core_flagged(
            c,
            change_invalidates(c.cache, oid, None, event_row(e), None, CdcOperation::Delete),
        ),
        _ => c,
    }
}

/// The state after a step, whether it fails or not.
pub open spec fn op_applied(c: CoreView, e: EventView, op: RowOp) -> CoreView {
    match e {
        EventView::Truncate { relation_oids } => match op {
            RowOp::TruncateWrite => truncate_written(c, relation_oids),
            RowOp::TruncateEvict => truncate_evicted(c, relation_oids),
            _ => c,
        },
        EventView::Boundary { commit_lsn } => match op {
            RowOp::Stamp => boundary_stamped(c, commit_lsn),
            _ => c,
        },
        _ => relation_op_applied(c, e, event_relation(e)->0, op),
    }
}

/// Whether the buffer is to be sent after a step.
pub open spec fn op_sends(c: CoreView, e: EventView, op: RowOp) -> bool {
    &&& op_failure(c, e, op) is None
    &&& match e {
        EventView::Truncate { .. } => op == RowOp::TruncateWrite && op_writes(c, e, op),
        EventView::Boundary { .. } => false,
        _ => op == RowOp::Upsert || op == RowOp::DeleteKey || op is Delete,
    }
    &&& chunk_full(op_applied(c, e, op).frame.buf)
}

impl WriterCore {
    fn removed_collect(&self, oid: u32, image: &Row, pk_only: bool) -> (fps: Vec<u64>)
        ensures
            fps@ == removed_from(self@.cache, oid, image.deep_view(), pk_only),
    {
        match (self.cache.update_queries.get(&oid), self.cache.tables.get(&oid)) {
            (Some(queries), Some(table)) => removed_candidates_collect(
                queries,
                table,
                image,
                pk_only,
            ),
            _ => {
                let none: Vec<u64> = Vec::new();
                assert(none@ =~= removed_from(self@.cache, oid, image.deep_view(), pk_only));
                none
            },
        }
    }

    fn entered_collect(&self, oid: u32, row: &Row) -> (fps: Vec<u64>)
        ensures
            fps@ == entered(self@.cache, oid, row.deep_view()),
    {
        match (self.cache.update_queries.get(&oid), self.cache.tables.get(&oid)) {
            (Some(queries), Some(table)) => eval_candidates(queries, table, row),
            _ => {
                let none: Vec<u64> = Vec::new();
                assert(none@ =~= entered(self@.cache, oid, row.deep_view()));
                none
            },
        }
    }

    /// Flag the queries that a change of the relation invalidates.
    pub fn change_flag(
        &mut self,
        oid: u32,
        changes: Option<&RowChanges>,
        row: &Row,
        key: Option<&Row>,
        operation: CdcOperation,
    )
        requires
            operation == CdcOperation::Delete ==> changes is None,
            changes matches Some(c) ==> all_joins_covered(
                relation_queries(old(self)@.cache, oid),
                old(self)@.cache.tables[oid],
                row.deep_view(),
                c@,
            ),
        ensures
            final(self)@ == core_flagged(
                old(self)@,
                change_invalidates(
                    old(self)@.cache,
                    oid,
                    match changes {
                        Some(c) => Some(c@),
                        None => None,
                    },
                    row.deep_view(),
                    match key {
                        Some(k) => Some(k.deep_view()),
                        None => None,
                    },
                    operation,
                ),
            ),
    {
        let fps = match (self.cache.update_queries.get(&oid), self.cache.tables.get(&oid)) {
            (Some(queries), Some(table)) => update_queries_check_invalidate(
                queries,
                table,
                changes,
                row,
                key,
                operation,
            ),
            _ => {
                let none: Vec<u64> = Vec::new();
                none
            },
        };
        proof {
            assert(fps@ =~= change_invalidates(
                self@.cache,
                oid,
                match changes {
                    Some(c) => Some(c@),
                    None => None,
                },
                row.deep_view(),
                match key {
                    Some(k) => Some(k.deep_view()),
                    None => None,
                },
                operation,
            ));
        }
        fingerprints_insert(&mut self.frame.invalidations, &fps);
        proof {
            assert(self@ =~= core_flagged(old(self)@, fps@));
        }
    }

    /// The memos that the removed old version or the row itself may belong to
    /// are stale: first those the row may have entered, then those the old
    /// version may have been in.
    pub fn memo_update_accumulate(&mut self, oid: u32, key: &Row, row: &Row)
        ensures
            final(self)@ == core_memo_evicted(
                core_memo_evicted(
                    old(self)@,
                    oid,
                    entered(old(self)@.cache, oid, row.deep_view()),
                ),
                oid,
                removed_from(
                    old(self)@.cache,
                    oid,
                    source_image(key.deep_view(), row.deep_view()),
                    true,
                ),
            ),
    {
        let now = self.entered_collect(oid, row);
        let before = if key.len() > 0 {
            self.removed_collect(oid, key, true)
        } else {
            self.removed_collect(oid, row, true)
        };
        self.memo_frame_accumulate(oid, &now);
        self.memo_frame_accumulate(oid, &before);
    }

    fn relation_op_apply(&mut self, oid: u32, key: &Row, row: &Row, op: RowOp, e: Ghost<EventView>) -> (send:
        Result<bool, CacheError>)
        requires
            event_relation(e@) == Some(oid),
            event_key(e@) == key.deep_view(),
            event_row(e@) == row.deep_view(),
        ensures
            final(self)@ == relation_op_applied(old(self)@, e@, oid, op),
            send == (match op_failure(old(self)@, e@, op) {
                Some(error) => Err(error),
                None => Ok::<bool, CacheError>(op_sends(old(self)@, e@, op)),
            }),
    {
        match op {
            RowOp::Upsert => self.frame_cache_upsert(oid, row),
            RowOp::Delete { record } => self.frame_cache_delete_inner(oid, row, record),
            RowOp::DeleteKey => self.frame_cache_delete_inner(oid, key, true),
            RowOp::Cancel => {
                self.population_deleted_key_cancel(oid, row);
                Ok(false)
            },
            RowOp::MemoEntered => {
                let fps = self.entered_collect(oid, row);
                self.memo_frame_accumulate(oid, &fps);
                Ok(false)
            },
            RowOp::MemoRemoved => {
                let fps = self.removed_collect(oid, row, false);
                self.memo_frame_accumulate(oid, &fps);
                Ok(false)
            },
            RowOp::DirtySource => {
                let fps = if key.len() > 0 {
                    self.removed_collect(oid, key, true)
                } else {
                    self.removed_collect(oid, row, true)
                };
                self.cache.mv_dirty_mark_all(&fps);
                proof {
                    assert(self@ =~= core_dirtied(old(self)@, fps@));
                }
                Ok(false)
            },
            RowOp::DirtyRemoved => {
                let fps = self.removed_collect(oid, row, false);
                self.cache.mv_dirty_mark_all(&fps);
                proof {
                    assert(self@ =~= core_dirtied(old(self)@, fps@));
                }
                Ok(false)
            },
            RowOp::FlagRemoved => {
                self.change_flag(oid, None, row, None, CdcOperation::Delete);
                Ok(false)
            },
            RowOp::TruncateWrite => Ok(false),
            RowOp::TruncateEvict => Ok(false),
            RowOp::Stamp => Ok(false),
        }
    }

    fn truncate_op_apply(&mut self, oids: &Vec<u32>, op: RowOp) -> (send: bool)
        ensures
            final(self)@ == op_applied(old(self)@, EventView::Truncate { relation_oids: oids@ }, op),
            send == op_sends(old(self)@, EventView::Truncate { relation_oids: oids@ }, op),
    {
        match op {
            RowOp::TruncateWrite => {
                match truncate_sql_build(&self.cache.tables, oids) {
                    Some(sql) => {
                        self.frame.frame_begin_ensure(oids);
                        let ghost begun = self.frame@;
                        self.frame.buf.append(sql.as_str());
                        proof {
                            assert(self.frame@ =~= (FrameView { buf: begun.buf + sql@, ..begun }));
                        }
                        let send = self.frame.write_finish();
                        proof {
                            assert(self@ =~= truncate_written(old(self)@, oids@));
                        }
                        send
                    },
                    None => false,
                }
            },
            RowOp::TruncateEvict => {
                let locks_held = self.frame.frame_holds_locks();
                self.cache.cache_tables_invalidate(oids, locks_held);
                let mut i: usize = 0;
                let ghost start = self.frame@;
                proof {
                    assert(start.truncated_relations + oids@.take(0)
                        =~= start.truncated_relations);
                }
                while i < oids.len()
                    invariant
                        i <= oids.len(),
                        self.frame@ == (FrameView {
                            truncated_relations: start.truncated_relations + oids@.take(i as int),
                            ..start
                        }),
                        self.cache@ == tables_invalidated(
                            old(self)@.cache,
                            oids@,
                            old(self)@.frame.state == FrameState::TxnOpen,
                        ),
                        self.deleted_keys@ == old(self)@.keys,
                        self.last_applied_lsn == old(self)@.last_applied_lsn,
                        self.publication_name@ == old(self)@.publication_name,
                    decreases oids.len() - i,
                {
                    self.frame.truncated_relations.push(oids[i]);
                    proof {
                        assert(start.truncated_relations + oids@.take(i as int + 1) =~= (
                        start.truncated_relations + oids@.take(i as int)).push(oids@[i as int]));
                        assert(self.frame@ =~= (FrameView {
                            truncated_relations: start.truncated_relations + oids@.take(
                                i as int + 1,
                            ),
                            ..start
                        }));
                    }
                    i += 1;
                }
                proof {
                    assert(oids@.take(i as int) =~= oids@);
                    assert(self@ =~= truncate_evicted(old(self)@, oids@));
                }
                false
            },
            _ => false,
        }
    }

    /// Apply one step of an event; whether the buffer has to be sent before
    /// the next.
    pub fn op_apply(&mut self, event: &FrameRowEvent, op: RowOp) -> (send: Result<bool, CacheError>)
        ensures
            final(self)@ == op_applied(old(self)@, event@, op),
            send == (match op_failure(old(self)@, event@, op) {
                Some(error) => Err(error),
                None => Ok::<bool, CacheError>(op_sends(old(self)@, event@, op)),
            }),
    {
        let none: Row = Vec::new();
        proof {
            assert(none.deep_view() =~= Seq::<Option<Seq<char>>>::empty());
        }
        let ghost e = event@;
        match event {
            FrameRowEvent::Insert { relation_oid, row_data } => self.relation_op_apply(
                *relation_oid,
                &none,
                row_data,
                op,
                Ghost(e),
            ),
            FrameRowEvent::Update { relation_oid, key_data, new_row_data } => {
                self.relation_op_apply(*relation_oid, key_data, new_row_data, op, Ghost(e))
            },
            FrameRowEvent::UpdateToasted { relation_oid, key_data, new_row_data, .. } => {
                self.relation_op_apply(*relation_oid, key_data, new_row_data, op, Ghost(e))
            },
            FrameRowEvent::UpdateToastFallback { relation_oid, key_data, new_row_data, .. } => {
                self.relation_op_apply(*relation_oid, key_data, new_row_data, op, Ghost(e))
            },
            FrameRowEvent::Delete { relation_oid, row_data } => self.relation_op_apply(
                *relation_oid,
                &none,
                row_data,
                op,
                Ghost(e),
            ),
            FrameRowEvent::Truncate { relation_oids } => Ok(
                self.truncate_op_apply(relation_oids, op),
            ),
            FrameRowEvent::Boundary { commit_lsn } => {
                if op == RowOp::Stamp {
                    self.frame.losses_stamp(&mut self.deleted_keys, *commit_lsn);
                    proof {
                        assert(self@ =~= boundary_stamped(old(self)@, *commit_lsn));
                    }
                }
                Ok(false)
            },
        }
    }
}

} // verus!
