//! What the commands of the replication stream do: how a change joins the batch,
//! how a batch ends, and how what waits meanwhile goes on.
use vstd::prelude::*;

use crate::cache::all_evicted;
use crate::cache::purge_bound;
use crate::cache::readers_of;
use crate::cache::table_invalidated;
use crate::cache::tables_invalidated;
use crate::cache::CacheView;
use crate::cache::EffectView;
use crate::catalog::TableMetadata;
use crate::cdc::command_begun;
use crate::cdc::faults_left;
use crate::cdc::recovery_begun;
use crate::cdc::TaskView;
use crate::command::row_of;
use crate::command::toasted_of;
use crate::command::CdcCommand;
use crate::command::CdcValue;
use crate::deadlock::is_deadlock;
use crate::deleted_keys::filter_sql;
use crate::deleted_keys::must_abort;
use crate::deleted_keys::tracks;
use crate::deleted_keys::DeletedKeysView;
use crate::drain::is_releasable;
use crate::error::CacheError;
use crate::event::EventView;
use crate::fault::deadlock_injected;
use crate::fault::fixed_chunk_blocks;
use crate::fault::flush_held;
use crate::fault::has_sentinel;
use crate::fault::no_faults;
use crate::fault::Faults;
use crate::flush::flush_answered;
use crate::flush::flush_step;
use crate::flush::recovery_sql;
use crate::flush::FlushStage;
use crate::flush::FlushView;
use crate::frame::batch_reset;
use crate::frame::frame_begun;
use crate::frame::lemma_with_all_distinct;
use crate::frame::with_distinct;
use crate::frame::FrameState;
use crate::frame::FrameView;
use crate::keymap::RowKey;
use crate::memo::all_stepped;
use crate::merge_laws::filter_valid;
use crate::merge_queue::counted;
use crate::merge_queue::counted_since;
use crate::merge_queue::drain_chunked;
use crate::merge_queue::drain_next;
use crate::merge_queue::drain_sized;
use crate::merge_queue::flush_due;
use crate::merge_queue::is_stalled;
use crate::merge_queue::population_lost;
use crate::merge_queue::stalled_since;
use crate::merge_queue::window_due;
use crate::merge_queue::window_end;
use crate::merge_queue::DrainCursor;
use crate::merge_queue::DrainView;
use crate::merge_queue::InputQueues;
use crate::merge_queue::MergeQueue;
use crate::merge_queue::NextView;
use crate::merge_queue::PendingMerge;
use crate::merge_sql::chunk_text;
use crate::merge_sql::merge_plan;
use crate::merge_sql::staging_blocks_text;
use crate::population::table_position;
use crate::prepared::dropped_relation_has_no_statement;
use crate::prepared::keys_distinct;
use crate::prepared::relation_statements;
use crate::prepared::value_under;
use crate::prepared::PreparedEntries;
use crate::prepared::PreparedKey;
use crate::prepared::PreparedView;
use crate::replay::ReplayReplyView;
use crate::sql::truncate_sql;
use crate::task::task_answered;
use crate::task::task_step;
use crate::write_laws::older_populations_abort;
use crate::write_laws::older_populations_learn_of_losses;
use crate::writer::command_stops;
use crate::writer::loop_verdict;
use crate::writer::LoopEvent;
use crate::writer::LoopVerdict;
use crate::writer_core::CoreView;

verus! {

/// The event that a row command stands for; none where values that it must carry
/// are missing.
pub open spec fn event_of(cmd: CdcCommand) -> Option<EventView> {
    match cmd {
        CdcCommand::Insert { relation_oid, row_data } => if complete(row_data@) {
            Some(EventView::Insert { relation_oid, row_data: row_of(row_data@) })
        } else {
            None
        },
        CdcCommand::Update { relation_oid, key_data, row_data } => if !complete(key_data@) {
            None
        } else if complete(row_data@) {
            Some(
                EventView::Update {
                    relation_oid,
                    key_data: row_of(key_data@),
                    new_row_data: row_of(row_data@),
                },
            )
        } else {
            Some(
                EventView::UpdateToasted {
                    relation_oid,
                    key_data: row_of(key_data@),
                    new_row_data: row_of(row_data@),
                    toasted: toasted_of(row_data@),
                },
            )
        },
        CdcCommand::Delete { relation_oid, row_data } => if complete(row_data@) {
            Some(EventView::Delete { relation_oid, row_data: row_of(row_data@) })
        } else {
            None
        },
        CdcCommand::Truncate { relation_oids } => Some(
            EventView::Truncate { relation_oids: relation_oids@ },
        ),
        _ => None,
    }
}

/// Whether a row carries every value.
pub open spec fn complete(values: Seq<CdcValue>) -> bool {
    forall|i: int| 0 <= i < values.len() ==> !((#[trigger] values[i]) is Toasted)
}

proof fn lemma_complete(values: Seq<CdcValue>)
    ensures
        toasted_of(values).len() == 0 <==> complete(values),
    decreases values.len(),
{
    if values.len() > 0 {
        let short = values.drop_last();
        lemma_complete(short);
        assert(values[values.len() - 1] == values.last());
        if complete(short) && !(values.last() is Toasted) {
            assert forall|i: int| 0 <= i < values.len() implies !((
            #[trigger] values[i]) is Toasted) by {
                if i < short.len() {
                    assert(!(short[i] is Toasted));
                }
            }
        }
        if complete(values) {
            assert forall|i: int| 0 <= i < short.len() implies !((#[trigger] short[i]) is Toasted) by {
                assert(!(values[i] is Toasted));
            }
        }
    }
}

/// A change joins the batch as it was sent: its event is the last one, and what
/// was collected before stays before it. Once the log is full, it is replayed.
pub proof fn change_joins_as_it_was_sent(
    c: CoreView,
    cmd: CdcCommand,
    queued: usize,
    faults: Faults,
    applied: u64,
)
    requires
        c.frame.state != FrameState::Recovering,
        !faults.cdc_deadlock_once || c.cache.cached.len() == 0,
        event_of(cmd) is Some,
    ensures
        ({
            let o = command_begun(c, cmd, queued, faults, applied);
            &&& c.frame.rows.len() + 1 < 4_096 ==> o.task is Publish && o.core.frame.rows
                == c.frame.rows.push(event_of(cmd)->0)
            &&& c.frame.rows.len() + 1 >= 4_096 ==> o.task is Replay
            &&& o.core.cache == c.cache
            &&& o.core.frame.buf == c.frame.buf
            &&& o.core.frame.state == c.frame.state
        }),
{
    match cmd {
        CdcCommand::Insert { row_data, .. } => lemma_complete(row_data@),
        CdcCommand::Update { key_data, row_data, .. } => {
            lemma_complete(key_data@);
            lemma_complete(row_data@);
        },
        CdcCommand::Delete { row_data, .. } => lemma_complete(row_data@),
        _ => {},
    }
}

/// A batch that begins is empty; one that is collecting goes on as it is.
pub proof fn batch_begins_empty(f: FrameView)
    ensures
        frame_begun(f).open,
        f.state == FrameState::Idle ==> {
            let b = frame_begun(f);
            &&& b.state == FrameState::Active
            &&& b.buf.len() == 0 && b.rows.len() == 0 && !b.chunk_flushed
            &&& b.buf_relations == Set::<u32>::empty()
            &&& b.deleted_keys.len() == 0 && b.truncated_relations.len() == 0
            &&& b.batch_deleted_pks == Set::<RowKey>::empty()
        },
        f.state != FrameState::Idle ==> frame_begun(f) == (FrameView { open: true, ..f }),
{
}

/// Lost writes are rolled back where part of them was sent, and dropped where not.
pub proof fn lost_writes_leave_no_trace(c: CoreView, table: Option<TableMetadata>)
    ensures
        ({
            let o = recovery_begun(c, table);
            &&& c.frame.chunk_flushed ==> o.task == (TaskView::Rollback { table }) && o.core == c
            &&& !c.frame.chunk_flushed ==> o.core.frame.state == FrameState::Recovering
                && o.core.frame.buf.len() == 0 && o.core.frame.rows.len() == 0
                && o.core.frame.relation_oids == c.frame.relation_oids && o.core.cache == c.cache
            &&& !c.frame.chunk_flushed && table is Some ==> o.task == (TaskView::Register {
                table: table->0,
            })
        }),
{
}

/// An armed deadlock is taken once, by the first insert while a query is cached;
/// no other fault is used up, and no other command uses it up.
pub proof fn armed_deadlock_is_taken_once(c: CoreView, cmd: CdcCommand, faults: Faults)
    ensures
        ({
            let left = faults_left(c, cmd, faults);
            &&& left == (Faults { cdc_deadlock_once: left.cdc_deadlock_once, ..faults })
            &&& left.cdc_deadlock_once <==> faults.cdc_deadlock_once && !(cmd is Insert
                && c.frame.state != FrameState::Recovering && c.cache.cached.len() > 0)
        }),
{
}

/// A writer that no fault is armed for meets none.
pub proof fn unarmed_writer_meets_no_fault(any_cached: bool, frames: int, cmd: CdcCommand)
    ensures
        !deadlock_injected(no_faults(), any_cached),
        !flush_held(no_faults(), frames),
        fixed_chunk_blocks(no_faults()) is None,
        !command_stops(no_faults(), cmd),
{
}

/// A batch is held back exactly until it has as many frames as the armed fault
/// says; an armed window size is taken as it is, unless it is none; an armed
/// writer stops at an insert with the sentinel in any column.
pub proof fn armed_faults_do_what_they_say(faults: Faults, frames: int, cmd: CdcCommand, i: int)
    ensures
        faults.hold_flush_frames is Some ==> (flush_held(faults, frames) <==> frames
            < faults.hold_flush_frames->0),
        faults.merge_chunk_blocks is Some && faults.merge_chunk_blocks->0 > 0
            ==> fixed_chunk_blocks(faults) == faults.merge_chunk_blocks,
        faults.merge_chunk_blocks == Some(0u32) ==> fixed_chunk_blocks(faults) is None,
        deadlock_injected(faults, true) == faults.cdc_deadlock_once,
        !deadlock_injected(faults, false),
        faults.writer_die && cmd is Insert && 0 <= i < cmd->Insert_row_data@.len()
            && cmd->Insert_row_data@[i] is Text && (cmd->Insert_row_data@[i]->Text_0)@
            == "__PGCACHE_WRITER_DIE__"@ ==> command_stops(faults, cmd),
        command_stops(faults, cmd) ==> faults.writer_die && cmd is Insert && has_sentinel(
            cmd->Insert_row_data@,
        ),
{
}

/// Only a failed command of the replication stream is fatal, and the writer
/// stops in order exactly when it is asked to or a channel closes.
pub proof fn only_the_stream_is_fatal(e: LoopEvent)
    ensures
        loop_verdict(e) == LoopVerdict::Fail <==> e == (LoopEvent::Cdc { failed: true }),
        loop_verdict(e) == LoopVerdict::Stop <==> e == LoopEvent::Cancelled || e
            == LoopEvent::Closed,
{
}

/// A commit that fails in a deadlock makes the batch recover, once what was sent
/// is rolled back; any other failure is told, and nothing is applied.
pub proof fn failed_commit_is_recovered_or_told(
    f: FlushView,
    c: CoreView,
    applied: u64,
    error: CacheError,
)
    requires
        f.stage == FlushStage::Committing,
        c.frame.state == FrameState::TxnOpen,
    ensures
        ({
            let o = flush_answered(f, c, applied, ReplayReplyView::Failed(error));
            &&& is_deadlock(error) && c.frame.chunk_flushed ==> o.error is None && o.flush.stage
                == FlushStage::RollingBack && o.core == c
            &&& is_deadlock(error) && !c.frame.chunk_flushed ==> o.error is None && o.flush.stage
                == FlushStage::Recover && o.core.frame.state == FrameState::Recovering
                && o.core.frame.relation_oids == c.frame.relation_oids
            &&& !is_deadlock(error) ==> o.error == Some(error) && o.flush.stage == FlushStage::Done
            &&& o.applied == applied
        }),
        ({
            let o = flush_answered(f, c, applied, ReplayReplyView::Sent);
            o.error is None && o.flush.stage == FlushStage::Close && o.core.frame.buf.len() == 0
        }),
{
    reveal(flush_answered);
}

/// A batch that recovers evicts every query over the relations that it touched,
/// notes these for the populations in flight, and empties the cache tables of
/// those that are known.
pub proof fn recovery_empties_what_was_touched(f: FlushView, c: CoreView, applied: u64)
    requires
        f.stage == FlushStage::Recover,
    ensures
        ({
            let o = flush_step(f, c, applied);
            &&& o.error is None
            &&& o.core.cache == tables_invalidated(
                c.cache,
                c.frame.relation_oids,
                c.frame.state == FrameState::TxnOpen,
            )
            &&& forall|i: int|
                0 <= i < c.frame.relation_oids.len()
                    ==> o.core.frame.batch_truncated_relations.contains(
                    #[trigger] c.frame.relation_oids[i],
                )
            &&& match truncate_sql(c.cache.tables, c.frame.relation_oids) {
                Some(sql) => o.flush.stage == FlushStage::Truncating && o.flush.truncate
                    == recovery_sql(sql),
                None => o.flush.stage == FlushStage::Close,
            }
        }),
{
    reveal(flush_step);
    let o = flush_step(f, c, applied);
    let all = o.core.frame.batch_truncated_relations;
    let n = c.frame.batch_truncated_relations.len();
    assert forall|i: int| 0 <= i < c.frame.relation_oids.len() implies all.contains(
        #[trigger] c.frame.relation_oids[i],
    ) by {
        assert(all[n + i] == c.frame.relation_oids[i]);
    }
}

/// Once a batch has closed, every population in flight with an older snapshot
/// knows of what the batch lost: a removed key is tracked, or the population must
/// abort, as it must over each relation that was emptied or recovered. A purge
/// that waited for the batch's locks is asked for.
pub proof fn closed_batch_tells_older_populations(
    f: FlushView,
    c: CoreView,
    applied: u64,
    k: RowKey,
    snapshot_lsn: u64,
)
    requires
        f.stage == FlushStage::Close,
        c.keys.contains_key(k.0),
        snapshot_lsn < f.lsn,
    ensures
        ({
            let o = flush_step(f, c, applied);
            &&& c.frame.deleted_keys.contains(k) ==> tracks(o.core.keys, k.0, k.1) || must_abort(
                o.core.keys,
                k.0,
                snapshot_lsn,
            )
            &&& c.frame.truncated_relations.contains(k.0) ==> must_abort(
                o.core.keys,
                k.0,
                snapshot_lsn,
            )
            &&& c.frame.batch_truncated_relations.contains(k.0) ==> must_abort(
                o.core.keys,
                k.0,
                snapshot_lsn,
            )
            &&& c.cache.purge_pending ==> o.core.cache.effects == c.cache.effects.push(
                EffectView::Purge { above: None, up_to: purge_bound(c.cache.generations) },
            )
            &&& !c.cache.purge_pending ==> o.core.cache.effects == c.cache.effects
        }),
{
    reveal(flush_step);
    let r = batch_reset(c.frame);
    older_populations_learn_of_losses(c.keys, r, f.lsn, k, snapshot_lsn);
    let stamped = crate::frame::losses_stamped(c.keys, r, f.lsn);
    older_populations_abort(
        stamped,
        r.batch_truncated_relations,
        f.lsn,
        k,
        snapshot_lsn,
    );
}

/// A drain asks for the size of each staging table, then drains it window by
/// window: a window that is merged takes the rows of its blocks into the cache
/// table of the relation, leaving out the keys that are tracked then, and stamps
/// them with the population's generation.
pub proof fn windows_are_merged_into_their_relation(
    d: DrainView,
    c: CacheView,
    keys: DeletedKeysView,
)
    requires
        d.applying is Some,
    ensures
        d.cursor is RelationStart && d.cursor->RelationStart_index < d.staged.len() ==> drain_next(
            d,
            c,
            keys,
        ).0 == (NextView::Size {
            sql: staging_blocks_text(d.staged[d.cursor->RelationStart_index as int].1),
        }),
        d.cursor is InRelation && d.cursor->InRelation_index < d.staged.len() ==> ({
            let (oid, staging) = d.staged[d.cursor->InRelation_index as int];
            let lo = d.cursor->InRelation_next_block;
            let hi = window_end(lo, d.chunk_blocks, d.cursor->InRelation_blocks);
            let paren = merge_plan(c.tables[oid]).pk_columns_paren;
            c.tables.contains_key(oid) && !population_lost(
                d.staged,
                keys,
                (d.applying->0).snapshot_lsn,
            ) && (d.filter is Some ==> filter_valid(d.filter->0, keys, paren)) ==> drain_next(
                d,
                c,
                keys,
            ).0 == (NextView::Chunk {
                sql: chunk_text(
                    merge_plan(c.tables[oid]),
                    staging,
                    d.generation as nat,
                    lo as nat,
                    hi as nat,
                    filter_sql(keys, oid, paren),
                ),
                apply: true,
            })
        }),
{
    if d.cursor is InRelation && d.cursor->InRelation_index < d.staged.len() {
        let oid = d.staged[d.cursor->InRelation_index as int].0;
        let paren = merge_plan(c.tables[oid]).pk_columns_paren;
        if d.filter is Some ==> filter_valid(d.filter->0, keys, paren) {
            crate::merge_laws::windows_use_the_current_filter(d.filter, keys, oid, paren);
        }
    }
}

/// A drain goes through its staging tables one after the other, from the first
/// block of each, passing over the empty ones, and counts what it drains.
pub proof fn drain_goes_through_every_table(
    d: DrainView,
    blocks: u32,
    count: u64,
    elapsed_nanos: u64,
    faults: Faults,
)
    requires
        d.staged.len() < usize::MAX,
    ensures
        d.cursor is RelationStart ==> ({
            let at = d.cursor->RelationStart_index;
            let next = drain_sized(d, blocks).cursor;
            &&& blocks > 0 ==> next == (DrainCursor::InRelation { index: at, next_block: 0, blocks })
            &&& blocks == 0 && at + 1 < d.staged.len() ==> next == (DrainCursor::RelationStart {
                index: (at + 1) as usize,
            })
            &&& blocks == 0 && at + 1 >= d.staged.len() ==> next is Done
        }),
        d.cursor is InRelation && d.chunks < u64::MAX && d.drained_rows + count <= u64::MAX ==> ({
            let next = drain_chunked(d, count, elapsed_nanos, faults);
            &&& next.chunks == d.chunks + 1
            &&& next.drained_rows == d.drained_rows + count
            &&& faults.merge_chunk_blocks is Some && faults.merge_chunk_blocks->0 > 0
                ==> next.chunk_blocks == d.chunk_blocks
            &&& next.staged == d.staged && next.applying == d.applying && next.generation
                == d.generation
        }),
{
}

/// The origin is made to flush its log exactly once the waiting populations have
/// all been stalled for the time that is allowed, and no flush has reached a
/// snapshot of theirs.
pub proof fn stalled_populations_force_a_flush(q: MergeQueue, applied: u64, now: u64)
    requires
        q.stall_since is Some,
        q.stall_since->0 <= now,
        q.pending@.len() > 0,
        forall|i: int|
            0 <= i < q.pending@.len() ==> applied < (#[trigger] q.pending@[i]).0.snapshot_lsn,
    ensures
        flush_due(q, applied, now) <==> now - q.stall_since->0 >= 100_000_000 && forall|i: int|
            0 <= i < q.pending@.len() ==> q.flush_marker_lsn < (
            #[trigger] q.pending@[i]).0.snapshot_lsn,
        stalled_since(q, applied, now) == q.stall_since,
{
}

/// A stall begins when it is first seen, and ends when a population may go on.
pub proof fn stall_is_counted_from_its_beginning(q: MergeQueue, applied: u64, now: u64)
    ensures
        is_stalled(q.pending@, applied) && q.stall_since is None ==> stalled_since(q, applied, now)
            == Some(now),
        !is_stalled(q.pending@, applied) ==> stalled_since(q, applied, now) is None,
        q.pending@.len() == 0 ==> !is_stalled(q.pending@, applied),
{
}

/// A counter that wraps tells how far it has come, step by step.
pub proof fn counter_counts_its_steps(now: u64, since: u64)
    ensures
        counted_since(since, since) == 0,
        counted_since(now, since) < u64::MAX ==> counted_since(counted(now), since)
            == counted_since(now, since) + 1,
        0 <= counted_since(now, since) <= u64::MAX,
{
}

/// A window waits for completed populations, for a batch that waits, and for the
/// commands that were owed a turn; with nothing waiting it goes on.
pub proof fn window_waits_its_turn(q: MergeQueue, queues: InputQueues)
    requires
        q.active is Some,
    ensures
        queues.cdc_empty && queues.query_empty && queues.internal_empty ==> window_due(q, queues),
        !queues.internal_empty ==> !window_due(q, queues),
        !queues.cdc_empty && q.batch_flush_seq == (q.active->0).boundary.batch_flush_seq
            ==> !window_due(q, queues),
        !queues.query_empty && counted_since(
            q.commands_handled,
            (q.active->0).boundary.commands_handled,
        ) < (q.active->0).boundary.commands_owed ==> !window_due(q, queues),
{
}

/// A population is merged only between batches, and only once everything up to
/// its snapshot is applied; a later watermark never holds it back.
pub proof fn population_waits_for_its_snapshot(
    state: FrameState,
    applied: u64,
    later: u64,
    p: PendingMerge,
)
    requires
        applied <= later,
    ensures
        is_releasable(state, applied, p) <==> state == FrameState::Idle && applied
            >= p.0.snapshot_lsn,
        is_releasable(state, applied, p) ==> is_releasable(state, later, p),
{
}

/// The definition of a relation is found among others by its identity.
pub proof fn definition_is_found(tables: Seq<TableMetadata>, oid: u32)
    ensures
        match table_position(tables, oid) {
            Some(i) => 0 <= i < tables.len() && tables[i].relation_oid == oid && forall|j: int|
                0 <= j < i ==> (#[trigger] tables[j]).relation_oid != oid,
            None => forall|j: int|
                0 <= j < tables.len() ==> (#[trigger] tables[j]).relation_oid != oid,
        },
    decreases tables.len(),
{
    if tables.len() > 0 {
        let rest = tables.drop_first();
        definition_is_found(rest, oid);
        assert forall|j: int| 0 < j < tables.len() implies (#[trigger] tables[j]) == rest[j
            - 1] by {}
    }
}

/// Whether a command concerns a relation.
pub open spec fn concerns(cmd: CdcCommand, oid: u32) -> bool {
    match cmd {
        CdcCommand::TableRegister(table) => table.relation_oid == oid,
        CdcCommand::Insert { relation_oid, .. } => relation_oid == oid,
        CdcCommand::Update { relation_oid, .. } => relation_oid == oid,
        CdcCommand::Delete { relation_oid, .. } => relation_oid == oid,
        CdcCommand::Truncate { relation_oids } => relation_oids@.contains(oid),
        _ => false,
    }
}

/// Every relation that a command concerns is among those that the batch touched,
/// so that it is recovered if the batch is lost; and only those come in.
pub proof fn touched_relations_are_noted(
    c: CoreView,
    cmd: CdcCommand,
    queued: usize,
    faults: Faults,
    applied: u64,
    oid: u32,
)
    requires
        cmd is TableRegister || cmd is Insert || cmd is Update || cmd is Delete || cmd is Truncate,
    ensures
        command_begun(c, cmd, queued, faults, applied).core.frame.relation_oids.contains(oid)
            <==> c.frame.relation_oids.contains(oid) || concerns(cmd, oid),
{
    let before = c.frame.relation_oids;
    match cmd {
        CdcCommand::Truncate { relation_oids } => {
            lemma_with_all_distinct(before, relation_oids@);
        },
        CdcCommand::TableRegister(table) => lemma_noted_oid(before, table.relation_oid, oid),
        CdcCommand::Insert { relation_oid, .. } => lemma_noted_oid(before, relation_oid, oid),
        CdcCommand::Update { relation_oid, .. } => lemma_noted_oid(before, relation_oid, oid),
        CdcCommand::Delete { relation_oid, .. } => lemma_noted_oid(before, relation_oid, oid),
        _ => {},
    }
}

proof fn lemma_noted_oid(list: Seq<u32>, x: u32, oid: u32)
    ensures
        with_distinct(list, x).contains(oid) <==> list.contains(oid) || x == oid,
{
    let all = list.push(x);
    assert(all[list.len() as int] == x);
    if list.contains(oid) {
        let i = choose|i: int| 0 <= i < list.len() && list[i] == oid;
        assert(all[i] == oid);
    }
    if all.contains(oid) && x != oid {
        let i = choose|i: int| 0 <= i < all.len() && all[i] == oid;
        assert(list[i] == oid);
    }
}

/// A relation's new definition holds once its cache table is made: it is the one
/// that was sent, no query that reads the relation is left, and no other relation
/// is redefined. A definition that did not change touches nothing.
pub proof fn new_definition_holds(
    table: TableMetadata,
    changed: bool,
    released: Seq<u64>,
    c: CoreView,
    applied: u64,
    statements: PreparedView,
    other: u32,
)
    requires
        other != table.relation_oid,
    ensures
        ({
            let o = task_answered(
                TaskView::Registering { table, changed, released },
                c,
                applied,
                statements,
                ReplayReplyView::Sent,
            );
            let after = o.core.cache;
            &&& o.error is None && o.task is Publish
            &&& changed ==> after.tables.contains_key(table.relation_oid)
                && after.tables[table.relation_oid] == table && forall|i: int|
                0 <= i < after.cached.len() ==> !(#[trigger] after.cached[i]).relation_oids.contains(
                    table.relation_oid,
                )
            &&& after.tables.contains_key(other) == c.cache.tables.contains_key(other)
            &&& c.cache.tables.contains_key(other) ==> after.tables[other] == c.cache.tables[other]
            &&& !changed ==> o.core == c
            &&& o.core.frame == c.frame && o.core.keys == c.keys
        }),
{
    let oid = table.relation_oid;
    let locks = c.frame.state == FrameState::TxnOpen;
    assert(seq![oid].drop_last() =~= Seq::<u32>::empty());
    reveal_with_fuel(tables_invalidated, 2);
    assert(tables_invalidated(c.cache, seq![oid], locks) == table_invalidated(
        c.cache,
        oid,
        locks,
    ));
    crate::eviction_laws::invalidated_relation_has_no_reader(c.cache, oid, locks);
    lemma_tables_stay(c.cache, readers_of(c.cache.cached, oid), locks);
}

proof fn lemma_tables_stay(c: CacheView, fps: Seq<u64>, locks_held: bool)
    ensures
        all_evicted(c, fps, locks_held).tables == c.tables,
    decreases fps.len(),
{
    if fps.len() > 0 {
        lemma_tables_stay(c, fps.drop_last(), locks_held);
    }
}

/// Before a relation is registered its statements are released, and no longer
/// found; those of other relations are kept.
pub proof fn registered_relation_has_no_statement(
    table: TableMetadata,
    c: CoreView,
    applied: u64,
    statements: PreparedView,
    fingerprint: u64,
    other: PreparedKey,
)
    requires
        keys_distinct(statements.membership),
        keys_distinct(statements.row_change),
        other.0 != table.relation_oid,
    ensures
        ({
            let oid = table.relation_oid;
            let o = task_step(TaskView::Register { table }, c, applied, statements);
            &&& o.core == c
            &&& value_under(o.statements.membership, (oid, fingerprint)) is None
            &&& value_under(o.statements.row_change, (oid, 0)) is None
            &&& value_under(o.statements.membership, other) == value_under(
                statements.membership,
                other,
            )
            &&& value_under(o.statements.row_change, other) == value_under(
                statements.row_change,
                other,
            )
            &&& o.task is Registering
            &&& o.task->Registering_table == table
            &&& value_under(statements.row_change, (oid, 0)) is Some
                ==> o.task->Registering_released.contains(
                (value_under(statements.row_change, (oid, 0))->0).1,
            )
            &&& value_under(statements.membership, (oid, fingerprint)) is Some
                ==> o.task->Registering_released.contains(
                (value_under(statements.membership, (oid, fingerprint))->0).1,
            )
        }),
{
    let oid = table.relation_oid;
    dropped_relation_has_no_statement(statements.membership, oid, (oid, fingerprint));
    dropped_relation_has_no_statement(statements.membership, oid, other);
    crate::write_laws::removed_statement_is_not_found(statements.row_change, (oid, 0), other);
    let released = crate::task::statements_released(statements, oid);
    let own = relation_statements(statements.membership, oid);
    let first = match value_under(statements.row_change, (oid, 0)) {
        Some(v) => seq![v.1],
        None => Seq::<u64>::empty(),
    };
    assert(released =~= first + own);
    if value_under(statements.row_change, (oid, 0)) is Some {
        assert(released[0] == (value_under(statements.row_change, (oid, 0))->0).1);
    }
    if value_under(statements.membership, (oid, fingerprint)) is Some {
        lemma_released(statements.membership, oid, fingerprint);
        let n = (value_under(statements.membership, (oid, fingerprint))->0).1;
        let k = choose|k: int| 0 <= k < own.len() && own[k] == n;
        assert(released[first.len() + k] == n);
    }
}

proof fn lemma_released(s: PreparedEntries, oid: u32, fingerprint: u64)
    requires
        value_under(s, (oid, fingerprint)) is Some,
    ensures
        relation_statements(s, oid).contains((value_under(s, (oid, fingerprint))->0).1),
    decreases s.len(),
{
    let rest = relation_statements(s.drop_last(), oid);
    let all = relation_statements(s, oid);
    if s.last().0 == (oid, fingerprint) {
        assert(all[rest.len() as int] == (s.last().1).1);
    } else {
        lemma_released(s.drop_last(), oid, fingerprint);
        let n = (value_under(s, (oid, fingerprint))->0).1;
        let k = choose|k: int| 0 <= k < rest.len() && rest[k] == n;
        assert(all[k] == n);
    }
}

/// A flush that is over moves the watermark to the keepalive that waited for it,
/// and nowhere without one.
pub proof fn keepalive_moves_the_watermark_last(
    flush: FlushView,
    keepalive: Option<u64>,
    c: CoreView,
    applied: u64,
    statements: PreparedView,
)
    requires
        flush.stage == FlushStage::Done,
    ensures
        ({
            let o = task_step(TaskView::Flush { flush, keepalive }, c, applied, statements);
            &&& o.task is Publish && o.error is None
            &&& keepalive is Some ==> o.applied >= keepalive->0 && o.applied >= applied && (
            o.applied == applied || o.applied == keepalive->0) && o.core.last_applied_lsn
                == o.applied
            &&& keepalive is None ==> o.applied == applied && o.core == c
        }),
{
}

/// The bracket covers the relations' memos exactly if there is a memo when it
/// opens; the versions of what it covers move on.
pub proof fn bracket_covers_relations_when_there_are_memos(
    f: FlushView,
    c: CoreView,
    applied: u64,
)
    requires
        f.stage == FlushStage::Bracket,
    ensures
        ({
            let o = flush_step(f, c, applied);
            &&& o.flush.stage == FlushStage::Finalize && o.error is None
            &&& o.flush.memo_active <==> c.cache.memo.memos.len() > 0
            &&& o.core.cache.memo.memo_versions == all_stepped(
                c.cache.memo.memo_versions,
                c.frame.memo_evictions,
            )
            &&& o.core.cache.memo.relation_versions == (if c.cache.memo.memos.len() > 0 {
                all_stepped(c.cache.memo.relation_versions, c.frame.relation_oids)
            } else {
                c.cache.memo.relation_versions
            })
            &&& o.core.frame == c.frame
        }),
{
    reveal(flush_step);
}

} // verus!
