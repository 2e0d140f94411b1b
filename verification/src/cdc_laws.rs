//! What holds of every command of the CDC stream.
use vstd::prelude::*;

use crate::cache::tables_dropped;
use crate::cache::CacheView;
use crate::catalog::TableMetadata;
use crate::cdc::after_recovery;
use crate::cdc::command_applied;
use crate::cdc::command_begun;
use crate::cdc::definition_changed;
use crate::cdc::query_fingerprints;
use crate::cdc::register_begun;
use crate::cdc::TaskView;
use crate::command::toasted_of;
use crate::command::CdcCommand;
use crate::event::event_relation;
use crate::event::EventView;
use crate::fault::Faults;
use crate::flush::advanced;
use crate::flush_laws::watermark_rises_only_with_a_closed_batch;
use crate::frame::lemma_with_all_distinct;
use crate::frame::rows_without;
use crate::frame::with_distinct;
use crate::frame::FrameState;
use crate::frame::BATCH_FRAMES_MAX;
use crate::frame::FRAME_ROWS_CAPACITY;
use crate::prepared::PreparedView;
use crate::publication::active_oids;
use crate::publication::ActiveView;
use crate::replay::ReplayReplyView;
use crate::task::task_answered;
use crate::task::task_step;
use crate::writer_core::CoreView;

verus! {

/// Whether a command carries a change of rows.
pub open spec fn is_row_command(cmd: CdcCommand) -> bool {
    cmd is Insert || cmd is Update || cmd is Delete || cmd is Truncate
}

/// While the batch recovers, changes of rows are dropped: nothing is collected
/// or flagged, and no fault is taken.
pub proof fn recovering_batch_drops_changes(
    c: CoreView,
    cmd: CdcCommand,
    queued: usize,
    faults: Faults,
    applied: u64,
)
    requires
        c.frame.state == FrameState::Recovering,
        is_row_command(cmd),
    ensures
        ({
            let o = command_begun(c, cmd, queued, faults, applied);
            &&& o.task is Publish
            &&& o.core.frame.rows == c.frame.rows
            &&& o.core.frame.invalidations == c.frame.invalidations
            &&& o.core.frame.state == FrameState::Recovering
            &&& o.core.cache == c.cache
        }),
{
}

/// The relation of a command that carries a row.
pub open spec fn command_relation(cmd: CdcCommand) -> Option<u32> {
    match cmd {
        CdcCommand::Insert { relation_oid, .. } => Some(relation_oid),
        CdcCommand::Update { relation_oid, .. } => Some(relation_oid),
        CdcCommand::Delete { relation_oid, .. } => Some(relation_oid),
        _ => None,
    }
}

/// Whether a command lacks values that it must carry.
pub open spec fn is_broken(cmd: CdcCommand) -> bool {
    match cmd {
        CdcCommand::Insert { row_data, .. } => toasted_of(row_data@).len() > 0,
        CdcCommand::Update { key_data, .. } => toasted_of(key_data@).len() > 0,
        CdcCommand::Delete { row_data, .. } => toasted_of(row_data@).len() > 0,
        _ => false,
    }
}

/// A changed row is never lost on the way: outside recovery it is collected as
/// the last event, or every query over its relation is flagged, where values
/// that it must carry are missing.
pub proof fn change_is_collected_or_flagged(
    c: CoreView,
    cmd: CdcCommand,
    oid: u32,
    queued: usize,
    faults: Faults,
    applied: u64,
)
    requires
        c.frame.state != FrameState::Recovering,
        command_relation(cmd) == Some(oid),
        !faults.cdc_deadlock_once,
        c.frame.rows.len() + 1 < FRAME_ROWS_CAPACITY,
    ensures
        ({
            let o = command_begun(c, cmd, queued, faults, applied);
            &&& o.core.frame.relation_oids.contains(oid)
            &&& if !is_broken(cmd) {
                &&& o.core.frame.rows.len() == c.frame.rows.len() + 1
                &&& o.core.frame.rows.drop_last() == c.frame.rows
                &&& event_relation(o.core.frame.rows.last()) == Some(oid)
            } else {
                &&& o.core.frame.rows == c.frame.rows
                &&& c.cache.update_queries.contains_key(oid) ==> forall|i: int|
                    0 <= i < c.cache.update_queries[oid].len()
                        ==> o.core.frame.invalidations.contains(
                        (#[trigger] c.cache.update_queries[oid][i]).fingerprint,
                    )
            }
        }),
{
    let o = command_begun(c, cmd, queued, faults, applied);
    let noted = with_distinct(c.frame.relation_oids, oid);
    if c.frame.relation_oids.contains(oid) {
        assert(noted.contains(oid));
    } else {
        assert(noted[noted.len() - 1] == oid);
    }
    if !is_broken(cmd) {
        assert(o.core.frame.rows.drop_last() =~= c.frame.rows);
    } else if c.cache.update_queries.contains_key(oid) {
        let fps = query_fingerprints(c.cache.update_queries[oid]);
        lemma_with_all_distinct(c.frame.invalidations, fps);
        assert forall|i: int|
            0 <= i
                < c.cache.update_queries[oid].len() implies o.core.frame.invalidations.contains(
            (#[trigger] c.cache.update_queries[oid][i]).fingerprint,
        ) by {
            assert(fps[i] == c.cache.update_queries[oid][i].fingerprint);
            assert(fps.contains(fps[i]));
        }
    }
}

/// A keepalive never moves the watermark past what is collected: the batch is
/// flushed first, up to its own LSN. Inside a source transaction it does
/// nothing.
pub proof fn keepalive_waits_for_the_batch(
    c: CoreView,
    lsn: u64,
    queued: usize,
    faults: Faults,
    applied: u64,
)
    ensures
        ({
            let cmd = CdcCommand::KeepAliveMark { lsn };
            let o = command_begun(c, cmd, queued, faults, applied);
            let now = command_applied(c, cmd, applied);
            &&& c.frame.open ==> o.core == c && o.task is Publish && now == applied
            &&& !c.frame.open && c.frame.batch_frames > 0 ==> now == applied && (
            o.task matches TaskView::Flush { flush, keepalive } && flush.lsn
                == c.frame.batch_last_lsn && keepalive == Some(lsn))
            &&& !c.frame.open && c.frame.batch_frames == 0 ==> now == advanced(applied, lsn)
                && o.core.last_applied_lsn == now
        }),
{
}

/// Whether a commit flushes: always when nothing more waits (unless held back),
/// when the batch is full or recovers, and otherwise not.
pub proof fn commit_flushes_when_due(
    c: CoreView,
    lsn: u64,
    queued: usize,
    faults: Faults,
    applied: u64,
)
    requires
        c.frame.batch_frames < usize::MAX,
        faults.hold_flush_frames is None,
    ensures
        ({
            let o = command_begun(c, CdcCommand::CommitMark { lsn }, queued, faults, applied);
            o.task is Flush <==> queued == 0 || c.frame.state == FrameState::Recovering
                || c.frame.batch_events >= FRAME_ROWS_CAPACITY || c.frame.batch_frames + 1
                >= BATCH_FRAMES_MAX
        }),
{
}

/// A relation sent again as it was leaves everything in place.
pub proof fn unchanged_definition_changes_nothing(c: CoreView, table: TableMetadata)
    requires
        !definition_changed(c, table),
    ensures
        ({
            let o = register_begun(c, table);
            &&& o.core.frame.rows == c.frame.rows
            &&& o.core.frame.buf == c.frame.buf
            &&& o.core.frame.state == c.frame.state
            &&& o.core.cache == c.cache
            &&& o.core.keys == c.keys
        }),
{
}

/// After a relation's definition changed, no event or buffered write follows
/// the old one: its events are gone, and if writes were buffered the whole
/// batch recovers, at once or after the rollback.
pub proof fn changed_definition_leaves_no_old_write(c: CoreView, table: TableMetadata)
    requires
        definition_changed(c, table),
    ensures
        ({
            let oid = table.relation_oid;
            let o = register_begun(c, table);
            if c.frame.buf_relations.contains(oid) {
                if c.frame.chunk_flushed {
                    o.task == (TaskView::Rollback { table: Some(table) })
                } else {
                    &&& o.core.frame.state == FrameState::Recovering
                    &&& o.core.frame.buf.len() == 0
                    &&& o.core.frame.rows.len() == 0
                    &&& o.task == after_recovery(Some(table))
                }
            } else {
                &&& o.core.frame.rows == rows_without(c.frame.rows, oid)
                &&& !o.core.frame.buf_relations.contains(oid)
                &&& forall|i: int|
                    0 <= i < o.core.frame.rows.len() ==> event_relation(
                        #[trigger] o.core.frame.rows[i],
                    ) != Some(oid)
            }
        }),
{
    lemma_rows_without(c.frame.rows, table.relation_oid);
}

proof fn lemma_rows_without(rows: Seq<EventView>, oid: u32)
    ensures
        forall|i: int|
            0 <= i < rows_without(rows, oid).len() ==> event_relation(
                #[trigger] rows_without(rows, oid)[i],
            ) != Some(oid),
    decreases rows.len(),
{
    if rows.len() > 0 {
        let short = rows.drop_last();
        lemma_rows_without(short, oid);
        let rest = rows_without(short, oid);
        let all = rows_without(rows, oid);
        assert forall|i: int| 0 <= i < all.len() implies event_relation(#[trigger] all[i]) != Some(
            oid,
        ) by {
            if i < rest.len() {
                assert(all[i] == rest[i]);
            }
        }
    }
}

/// The watermark never falls, whatever a task does.
pub proof fn watermark_never_falls(
    t: TaskView,
    c: CoreView,
    applied: u64,
    statements: PreparedView,
    reply: ReplayReplyView,
)
    ensures
        task_step(t, c, applied, statements).applied >= applied,
        task_answered(t, c, applied, statements, reply).applied >= applied,
{
    match t {
        TaskView::Flush { flush, .. } => {
            watermark_rises_only_with_a_closed_batch(flush, c, applied, reply);
        },
        _ => {},
    }
}

/// The publication waits while the cache transaction may hold locks: it stays
/// marked, and nothing is altered.
pub proof fn publication_waits_for_the_locks(
    c: CoreView,
    applied: u64,
    statements: PreparedView,
)
    requires
        c.frame.state == FrameState::TxnOpen,
    ensures
        ({
            let o = task_step(TaskView::Publish, c, applied, statements);
            o.task is Done && o.core == c
        }),
{
}

proof fn lemma_tables_dropped(c: CacheView, oids: Seq<u32>)
    ensures
        ({
            let after = tables_dropped(c, oids);
            &&& after.tables == c.tables.remove_keys(oids.to_set())
            &&& after == (CacheView { tables: after.tables, effects: after.effects, ..c })
            &&& after.effects.len() >= c.effects.len()
            &&& after.effects.take(c.effects.len() as int) == c.effects
            &&& forall|i: int|
                c.effects.len() <= i < after.effects.len() ==> (
                #[trigger] after.effects[i]) is TableDrop
        }),
    decreases oids.len(),
{
    let after = tables_dropped(c, oids);
    if oids.len() == 0 {
        assert(after.tables =~= c.tables.remove_keys(oids.to_set()));
        assert(after.effects.take(c.effects.len() as int) =~= c.effects);
    } else {
        let short = oids.drop_last();
        lemma_tables_dropped(c, short);
        let before = tables_dropped(c, short);
        assert forall|x: u32| oids.to_set().contains(x) <==> short.to_set().contains(x) || x
            == oids.last() by {
            if oids.contains(x) {
                let k = choose|k: int| 0 <= k < oids.len() && oids[k] == x;
                if k < short.len() {
                    assert(short[k] == x);
                }
            }
            if short.contains(x) {
                let k = choose|k: int| 0 <= k < short.len() && short[k] == x;
                assert(oids[k] == x);
            }
            assert(oids[oids.len() - 1] == oids.last());
        }
        assert(after.tables =~= c.tables.remove_keys(oids.to_set()));
        assert(after.effects.take(c.effects.len() as int) =~= before.effects.take(
            c.effects.len() as int,
        ));
        assert forall|i: int| c.effects.len() <= i < after.effects.len() implies (
        #[trigger] after.effects[i]) is TableDrop by {
            if i < before.effects.len() {
                assert(before.effects[i] is TableDrop);
            }
        }
    }
}

/// Once the publication is altered it lists the active relations, and those
/// that it no longer lists are forgotten: exactly their definitions go, with
/// nothing left to do but to drop cache tables, and nothing else changes.
pub proof fn unlisted_relations_are_forgotten(
    sql: Seq<char>,
    removed: Seq<u32>,
    c: CoreView,
    applied: u64,
    statements: PreparedView,
)
    ensures
        ({
            let o = task_answered(
                TaskView::Altering { sql, removed },
                c,
                applied,
                statements,
                ReplayReplyView::Sent,
            );
            let after = o.core.cache;
            &&& o.error is None
            &&& o.core == (CoreView {
                cache: CacheView {
                    tables: c.cache.tables.remove_keys(removed.to_set()),
                    active: ActiveView {
                        dirty: false,
                        publication_oids: active_oids(c.cache.active.counts),
                        ..c.cache.active
                    },
                    effects: after.effects,
                    ..c.cache
                },
                ..c
            })
            &&& after.effects.len() >= c.cache.effects.len()
            &&& after.effects.take(c.cache.effects.len() as int) == c.cache.effects
            &&& forall|i: int|
                c.cache.effects.len() <= i < after.effects.len() ==> (
                #[trigger] after.effects[i]) is TableDrop
        }),
{
    let listed = CacheView {
        active: ActiveView {
            dirty: false,
            publication_oids: active_oids(c.cache.active.counts),
            ..c.cache.active
        },
        ..c.cache
    };
    lemma_tables_dropped(listed, removed);
}

} // verus!
