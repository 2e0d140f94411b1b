//! Handling the commands of the CDC stream.
//!
//! A command is handled in steps: [`WriterCdc::cdc_command_handle`] begins it,
//! and the task it gives is stepped and answered until it is done.
use vstd::prelude::*;

use crate::catalog::schema_same;
use crate::catalog::TableMetadata;
use crate::command::row_convert;
use crate::command::row_of;
use crate::command::toasted_of;
use crate::command::CdcCommand;
use crate::command::CdcValue;
use crate::event::EventView;
use crate::event::FrameRowEvent;
use crate::fault::deadlock_injected;
use crate::fault::fault_cdc_deadlock_should_inject;
use crate::fault::fault_cdc_hold_flush;
use crate::fault::flush_held;
use crate::fault::Faults;
use crate::flush::advanced;
use crate::flush::flush_begun;
use crate::flush::Flush;
use crate::flush::FlushView;
use crate::frame::event_collected;
use crate::frame::fingerprints_insert;
use crate::frame::flush_due;
use crate::frame::frame_begun;
use crate::frame::frame_closed;
use crate::frame::oid_insert;
use crate::frame::oids_insert;
use crate::frame::recovery_entered;
use crate::frame::relation_discarded;
use crate::frame::with_all_distinct;
use crate::frame::with_distinct;
use crate::frame::FrameState;
use crate::frame::FrameView;
use crate::frame::FRAME_ROWS_CAPACITY;
use crate::handlers::WriterCdc;
use crate::query::UpdateQuery;
use crate::replay::replay_begun;
use crate::replay::replay_wf;
use crate::replay::Replay;
use crate::replay::ReplayView;
use crate::row_ops::core_flagged;
use crate::writer_core::CoreView;
use crate::writer_core::WriterCore;

verus! {

broadcast use vstd::std_specs::hash::group_hash_axioms;

/// What is left of a command.
pub enum CdcTask {
    /// The cache transaction is rolled back; then the relation is registered,
    /// if there is one.
    Rollback { table: Option<TableMetadata> },
    /// A relation's statements are to be dropped.
    Register { table: TableMetadata },
    /// The relation's cache table is being made, if its definition changed.
    /// The `released` statements are no longer used.
    Registering { table: TableMetadata, changed: bool, released: Vec<u64> },
    /// The collected events are being replayed, for there are too many to keep.
    Replay(Replay),
    /// The batch is being flushed; then the watermark moves to `keepalive`.
    Flush { flush: Flush, keepalive: Option<u64> },
    /// The publication is to be brought up to date.
    Publish,
    /// The publication is being altered; then the `removed` relations' cache
    /// tables go.
    Altering { sql: String, removed: Vec<u32> },
    /// Nothing.
    Done,
}

/// The mathematical value of a [`CdcTask`].
pub enum TaskView {
    Rollback { table: Option<TableMetadata> },
    Register { table: TableMetadata },
    Registering { table: TableMetadata, changed: bool, released: Seq<u64> },
    Replay(ReplayView),
    Flush { flush: FlushView, keepalive: Option<u64> },
    Publish,
    Altering { sql: Seq<char>, removed: Seq<u32> },
    Done,
}

impl View for CdcTask {
    type V = TaskView;

    open spec fn view(&self) -> TaskView {
        match self {
            CdcTask::Rollback { table } => TaskView::Rollback { table: *table },
            CdcTask::Register { table } => TaskView::Register { table: *table },
            CdcTask::Registering { table, changed, released } => TaskView::Registering {
                table: *table,
                changed: *changed,
                released: released@,
            },
            CdcTask::Replay(replay) => TaskView::Replay(replay@),
            CdcTask::Flush { flush, keepalive } => TaskView::Flush {
                flush: flush@,
                keepalive: *keepalive,
            },
            CdcTask::Publish => TaskView::Publish,
            CdcTask::Altering { sql, removed } => TaskView::Altering {
                sql: sql@,
                removed: removed@,
            },
            CdcTask::Done => TaskView::Done,
        }
    }
}

/// What every task meets.
pub open spec fn task_wf(t: TaskView) -> bool {
    match t {
        TaskView::Replay(replay) => replay_wf(replay),
        TaskView::Flush { flush, .. } => replay_wf(flush.replay),
        _ => true,
    }
}

/// What beginning a command leads to.
pub struct CommandOutcome {
    pub task: TaskView,
    pub core: CoreView,
}

/// The state with a relation among those the frame touched.
pub open spec fn relation_noted(c: CoreView, oid: u32) -> CoreView {
    CoreView {
        frame: FrameView {
            relation_oids: with_distinct(c.frame.relation_oids, oid),
            ..c.frame
        },
        ..c
    }
}

/// The state with an event collected.
pub open spec fn core_collected(c: CoreView, e: EventView) -> CoreView {
    CoreView { frame: event_collected(c.frame, e), ..c }
}

/// An event collected; a full log is replayed.
pub open spec fn collected(c: CoreView, e: EventView) -> CommandOutcome {
    let core = core_collected(c, e);
    if core.frame.rows.len() >= FRAME_ROWS_CAPACITY {
        let begun = replay_begun(core);
        CommandOutcome { task: TaskView::Replay(begun.replay), core: begun.core }
    } else {
        CommandOutcome { task: TaskView::Publish, core }
    }
}

/// What follows a recovery: a relation is registered, if there is one.
pub open spec fn after_recovery(table: Option<TableMetadata>) -> TaskView {
    match table {
        Some(table) => TaskView::Register { table },
        None => TaskView::Publish,
    }
}

/// The batch recovers, once what was sent is rolled back.
pub open spec fn recovery_begun(c: CoreView, table: Option<TableMetadata>) -> CommandOutcome {
    if c.frame.chunk_flushed {
        CommandOutcome { task: TaskView::Rollback { table }, core: c }
    } else {
        CommandOutcome {
            task: after_recovery(table),
            core: CoreView { frame: recovery_entered(c.frame), ..c },
        }
    }
}

/// The fingerprints of some queries.
pub open spec fn query_fingerprints(queries: Seq<UpdateQuery>) -> Seq<u64> {
    Seq::new(queries.len(), |i: int| queries[i].fingerprint)
}

/// A row image that should be complete and is not: every query over the
/// relation is flagged, and the event dropped.
pub open spec fn unexpected_toast(c: CoreView, oid: u32) -> CoreView {
    if c.cache.update_queries.contains_key(oid) {
        core_flagged(c, query_fingerprints(c.cache.update_queries[oid]))
    } else {
        c
    }
}

/// Whether a relation is new or defined otherwise than before.
pub open spec fn definition_changed(c: CoreView, table: TableMetadata) -> bool {
    !(c.cache.tables.contains_key(table.relation_oid) && schema_same(
        c.cache.tables[table.relation_oid],
        table,
    ))
}

/// A relation's definition begun. One that changed drops the relation's
/// unreplayed events; writes that already follow the old definition make the
/// batch recover.
pub open spec fn register_begun(c: CoreView, table: TableMetadata) -> CommandOutcome {
    let oid = table.relation_oid;
    let noted = relation_noted(c, oid);
    if !definition_changed(c, table) {
        CommandOutcome { task: TaskView::Register { table }, core: noted }
    } else if c.frame.buf_relations.contains(oid) {
        recovery_begun(noted, Some(table))
    } else {
        CommandOutcome {
            task: TaskView::Register { table },
            core: CoreView { frame: relation_discarded(noted.frame, oid), ..noted },
        }
    }
}

/// An INSERT begun.
pub open spec fn insert_begun(
    c: CoreView,
    oid: u32,
    values: Seq<CdcValue>,
    faults: Faults,
) -> CommandOutcome {
    let noted = relation_noted(c, oid);
    if c.frame.state == FrameState::Recovering {
        CommandOutcome { task: TaskView::Publish, core: noted }
    } else if deadlock_injected(faults, c.cache.cached.len() > 0) {
        recovery_begun(noted, None)
    } else if toasted_of(values).len() > 0 {
        CommandOutcome { task: TaskView::Publish, core: unexpected_toast(noted, oid) }
    } else {
        collected(
            noted,
            EventView::Insert { relation_oid: oid, row_data: row_of(values) },
        )
    }
}

/// The event of an UPDATE: its image awaits repair where it lacks values.
pub open spec fn update_event(oid: u32, key: Seq<CdcValue>, row: Seq<CdcValue>) -> EventView {
    if toasted_of(row).len() > 0 {
        EventView::UpdateToasted {
            relation_oid: oid,
            key_data: row_of(key),
            new_row_data: row_of(row),
            toasted: toasted_of(row),
        }
    } else {
        EventView::Update {
            relation_oid: oid,
            key_data: row_of(key),
            new_row_data: row_of(row),
        }
    }
}

/// An UPDATE begun.
pub open spec fn update_begun(
    c: CoreView,
    oid: u32,
    key: Seq<CdcValue>,
    row: Seq<CdcValue>,
) -> CommandOutcome {
    let noted = relation_noted(c, oid);
    if c.frame.state == FrameState::Recovering {
        CommandOutcome { task: TaskView::Publish, core: noted }
    } else if toasted_of(key).len() > 0 {
        CommandOutcome { task: TaskView::Publish, core: unexpected_toast(noted, oid) }
    } else {
        collected(noted, update_event(oid, key, row))
    }
}

/// A DELETE begun.
pub open spec fn delete_begun(c: CoreView, oid: u32, values: Seq<CdcValue>) -> CommandOutcome {
    let noted = relation_noted(c, oid);
    if c.frame.state == FrameState::Recovering {
        CommandOutcome { task: TaskView::Publish, core: noted }
    } else if toasted_of(values).len() > 0 {
        CommandOutcome { task: TaskView::Publish, core: unexpected_toast(noted, oid) }
    } else {
        collected(
            noted,
            EventView::Delete { relation_oid: oid, row_data: row_of(values) },
        )
    }
}

/// A TRUNCATE begun.
pub open spec fn truncate_begun(c: CoreView, oids: Seq<u32>) -> CommandOutcome {
    let noted = CoreView {
        frame: FrameView {
            relation_oids: with_all_distinct(c.frame.relation_oids, oids),
            ..c.frame
        },
        ..c
    };
    if c.frame.state == FrameState::Recovering {
        CommandOutcome { task: TaskView::Publish, core: noted }
    } else {
        collected(noted, EventView::Truncate { relation_oids: oids })
    }
}

/// The batch's flush begun.
pub open spec fn flush_started(c: CoreView, lsn: u64, keepalive: Option<u64>) -> CommandOutcome {
    CommandOutcome {
        task: TaskView::Flush { flush: flush_begun(c, lsn), keepalive },
        core: replay_begun(c).core,
    }
}

/// A commit begun.
pub open spec fn commit_begun(c: CoreView, lsn: u64, queued: usize, faults: Faults) -> CommandOutcome {
    let closed = CoreView { frame: frame_closed(c.frame, lsn), ..c };
    if flush_due(closed.frame, queued, flush_held(faults, closed.frame.batch_frames as int)) {
        flush_started(closed, lsn, None)
    } else {
        CommandOutcome { task: TaskView::Publish, core: closed }
    }
}

/// The state with everything up to `lsn` applied.
pub open spec fn core_applied(c: CoreView, applied: u64) -> CoreView {
    CoreView { last_applied_lsn: applied, ..c }
}

/// A keepalive begun: what is collected is flushed before the watermark moves
/// past it. One inside a source transaction is ignored.
pub open spec fn keepalive_begun(c: CoreView, lsn: u64, applied: u64) -> CommandOutcome {
    if c.frame.open {
        CommandOutcome { task: TaskView::Publish, core: c }
    } else if c.frame.batch_frames > 0 {
        flush_started(c, c.frame.batch_last_lsn, Some(lsn))
    } else {
        CommandOutcome {
            task: TaskView::Publish,
            core: core_applied(c, advanced(applied, lsn)),
        }
    }
}

/// The watermark after a command was begun.
pub open spec fn command_applied(c: CoreView, cmd: CdcCommand, applied: u64) -> u64 {
    match cmd {
        CdcCommand::KeepAliveMark { lsn } => if !c.frame.open && c.frame.batch_frames == 0 {
            advanced(applied, lsn)
        } else {
            applied
        },
        _ => applied,
    }
}

/// A command begun.
pub open spec fn command_begun(
    c: CoreView,
    cmd: CdcCommand,
    queued: usize,
    faults: Faults,
    applied: u64,
) -> CommandOutcome {
    match cmd {
        CdcCommand::Begin { .. } => CommandOutcome {
            task: TaskView::Publish,
            core: CoreView { frame: frame_begun(c.frame), ..c },
        },
        CdcCommand::TableRegister(table) => register_begun(c, table),
        CdcCommand::Insert { relation_oid, row_data } => insert_begun(
            c,
            relation_oid,
            row_data@,
            faults,
        ),
        CdcCommand::Update { relation_oid, key_data, row_data } => update_begun(
            c,
            relation_oid,
            key_data@,
            row_data@,
        ),
        CdcCommand::Delete { relation_oid, row_data } => delete_begun(
            c,
            relation_oid,
            row_data@,
        ),
        CdcCommand::Truncate { relation_oids } => truncate_begun(c, relation_oids@),
        CdcCommand::CommitMark { lsn } => commit_begun(c, lsn, queued, faults),
        CdcCommand::KeepAliveMark { lsn } => keepalive_begun(c, lsn, applied),
    }
}

/// The faults after a command was begun.
pub open spec fn faults_left(c: CoreView, cmd: CdcCommand, faults: Faults) -> Faults {
    if cmd is Insert && c.frame.state != FrameState::Recovering && c.cache.cached.len() > 0 {
        Faults { cdc_deadlock_once: false, ..faults }
    } else {
        faults
    }
}

/// The fingerprints of some queries.
pub fn fingerprints_collect(queries: &Vec<UpdateQuery>) -> (fps: Vec<u64>)
    ensures
        fps@ == query_fingerprints(queries@),
{
    let mut fps: Vec<u64> = Vec::new();
    let mut i: usize = 0;
    while i < queries.len()
        invariant
            i <= queries.len(),
            fps@ =~= query_fingerprints(queries@).take(i as int),
        decreases queries.len() - i,
    {
        fps.push(queries[i].fingerprint);
        i = i + 1;
    }
    proof {
        assert(fps@ =~= query_fingerprints(queries@));
    }
    fps
}

impl WriterCore {
    fn relation_note(&mut self, oid: u32)
        ensures
            final(self)@ == relation_noted(old(self)@, oid),
    {
        oid_insert(&mut self.frame.relation_oids, oid);
        proof {
            assert(self@ =~= relation_noted(old(self)@, oid));
        }
    }

    /// Flag every query over a relation whose image should be complete and is
    /// not.
    pub fn toast_unexpected_invalidate(&mut self, oid: u32)
        ensures
            final(self)@ == unexpected_toast(old(self)@, oid),
    {
        let fps = match self.cache.update_queries.get(&oid) {
            Some(queries) => fingerprints_collect(&queries.queries),
            None => {
                return ;
            },
        };
        fingerprints_insert(&mut self.frame.invalidations, &fps);
        proof {
            assert(self@ =~= unexpected_toast(old(self)@, oid));
        }
    }

    fn event_take(&mut self, event: FrameRowEvent) -> (task: CdcTask)
        requires
            old(self)@.frame.batch_events < usize::MAX,
        ensures
            ({
                let o = collected(old(self)@, event@);
                task@ == o.task && final(self)@ == o.core
            }),
            task_wf(task@),
    {
        let ghost c = self@;
        let ghost e = event@;
        let full = self.frame.event_collect(event);
        proof {
            assert(self@ =~= core_collected(c, e));
        }
        if full {
            CdcTask::Replay(Replay::begin(self))
        } else {
            CdcTask::Publish
        }
    }

    fn recovery_begin(&mut self, table: Option<TableMetadata>) -> (task:
        CdcTask)
        ensures
            ({
                let o = recovery_begun(old(self)@, table);
                task@ == o.task && final(self)@ == o.core
            }),
            task_wf(task@),
    {
        if self.frame.chunk_flushed {
            CdcTask::Rollback { table }
        } else {
            self.frame.frame_recover_enter();
            proof {
                assert(self@ =~= (CoreView {
                    frame: recovery_entered(old(self)@.frame),
                    ..old(self)@
                }));
            }
            match table {
                Some(table) => CdcTask::Register { table },
                None => CdcTask::Publish,
            }
        }
    }

    /// Whether a relation is new or defined otherwise than before.
    pub fn definition_changed(&self, table: &TableMetadata) -> (changed: bool)
        ensures
            changed == definition_changed(self@, *table),
    {
        match self.cache.tables.get(&table.relation_oid) {
            Some(current) => !current.schema_eq(table),
            None => true,
        }
    }

    /// Begin a relation's definition.
    pub fn table_register_handle(&mut self, table: TableMetadata) -> (task:
        CdcTask)
        ensures
            ({
                let o = register_begun(old(self)@, table);
                task@ == o.task && final(self)@ == o.core
            }),
            task_wf(task@),
    {
        let ghost c = self@;
        let oid = table.relation_oid;
        let changed = self.definition_changed(&table);
        self.relation_note(oid);
        if !changed {
            return CdcTask::Register { table };
        }
        if self.frame.buf_relations.contains(&oid) {
            return self.recovery_begin(Some(table));
        }
        self.frame.relation_discard(oid);
        proof {
            let noted = relation_noted(c, oid);
            assert(self@ =~= (CoreView { frame: relation_discarded(noted.frame, oid), ..noted }));
        }
        CdcTask::Register { table }
    }

    fn flush_begin(&mut self, lsn: u64, keepalive: Option<u64>) -> (task:
        CdcTask)
        ensures
            ({
                let o = flush_started(old(self)@, lsn, keepalive);
                task@ == o.task && final(self)@ == o.core
            }),
            task_wf(task@),
    {
        CdcTask::Flush { flush: Flush::begin(self, lsn), keepalive }
    }

    /// A source transaction committed: begin to flush the batch, if it is due.
    pub fn commit_mark_handle(
        &mut self,
        lsn: u64,
        queued: usize,
        faults: &Faults,
    ) -> (task: CdcTask)
        requires
            old(self)@.frame.batch_frames < usize::MAX,
        ensures
            ({
                let o = commit_begun(old(self)@, lsn, queued, *faults);
                task@ == o.task && final(self)@ == o.core
            }),
            task_wf(task@),
    {
        let ghost c = self@;
        let held = fault_cdc_hold_flush(faults, self.frame.batch_frames + 1);
        let flush = self.frame.frame_close(lsn, queued, held);
        proof {
            assert(self@ =~= (CoreView { frame: frame_closed(c.frame, lsn), ..c }));
        }
        if flush {
            self.flush_begin(lsn, None)
        } else {
            CdcTask::Publish
        }
    }

    fn insert_handle(
        &mut self,
        oid: u32,
        values: Vec<CdcValue>,
        faults: &mut Faults,
    ) -> (task: CdcTask)
        requires
            old(self)@.frame.batch_events < usize::MAX,
        ensures
            ({
                let o = insert_begun(old(self)@, oid, values@, *old(faults));
                task@ == o.task && final(self)@ == o.core
            }),
            *final(faults) == (if old(self)@.frame.state != FrameState::Recovering && old(
                self,
            )@.cache.cached.len() > 0 {
                Faults { cdc_deadlock_once: false, ..*old(faults) }
            } else {
                *old(faults)
            }),
            task_wf(task@),
    {
        self.relation_note(oid);
        if self.frame.state == FrameState::Recovering {
            return CdcTask::Publish;
        }
        if fault_cdc_deadlock_should_inject(faults, self.cache.cached.len() > 0) {
            return self.recovery_begin(None);
        }
        let (row, toasted) = row_convert(values);
        if toasted.len() > 0 {
            self.toast_unexpected_invalidate(oid);
            return CdcTask::Publish;
        }
        self.event_take(FrameRowEvent::Insert { relation_oid: oid, row_data: row })
    }

    fn update_handle(
        &mut self,
        oid: u32,
        key: Vec<CdcValue>,
        values: Vec<CdcValue>,
    ) -> (task: CdcTask)
        requires
            old(self)@.frame.batch_events < usize::MAX,
        ensures
            ({
                let o = update_begun(old(self)@, oid, key@, values@);
                task@ == o.task && final(self)@ == o.core
            }),
            task_wf(task@),
    {
        self.relation_note(oid);
        if self.frame.state == FrameState::Recovering {
            return CdcTask::Publish;
        }
        let (key_data, key_toasted) = row_convert(key);
        let (new_row_data, toasted) = row_convert(values);
        if key_toasted.len() > 0 {
            self.toast_unexpected_invalidate(oid);
            return CdcTask::Publish;
        }
        let event = if toasted.len() > 0 {
            FrameRowEvent::UpdateToasted { relation_oid: oid, key_data, new_row_data, toasted }
        } else {
            FrameRowEvent::Update { relation_oid: oid, key_data, new_row_data }
        };
        self.event_take(event)
    }

    fn delete_handle(&mut self, oid: u32, values: Vec<CdcValue>) -> (task:
        CdcTask)
        requires
            old(self)@.frame.batch_events < usize::MAX,
        ensures
            ({
                let o = delete_begun(old(self)@, oid, values@);
                task@ == o.task && final(self)@ == o.core
            }),
            task_wf(task@),
    {
        self.relation_note(oid);
        if self.frame.state == FrameState::Recovering {
            return CdcTask::Publish;
        }
        let (row, toasted) = row_convert(values);
        if toasted.len() > 0 {
            self.toast_unexpected_invalidate(oid);
            return CdcTask::Publish;
        }
        self.event_take(FrameRowEvent::Delete { relation_oid: oid, row_data: row })
    }

    fn truncate_handle(&mut self, oids: Vec<u32>) -> (task: CdcTask)
        requires
            old(self)@.frame.batch_events < usize::MAX,
        ensures
            ({
                let o = truncate_begun(old(self)@, oids@);
                task@ == o.task && final(self)@ == o.core
            }),
            task_wf(task@),
    {
        let ghost c = self@;
        oids_insert(&mut self.frame.relation_oids, &oids);
        proof {
            assert(self@ =~= (CoreView {
                frame: FrameView {
                    relation_oids: with_all_distinct(c.frame.relation_oids, oids@),
                    ..c.frame
                },
                ..c
            }));
        }
        if self.frame.state == FrameState::Recovering {
            return CdcTask::Publish;
        }
        self.event_take(FrameRowEvent::Truncate { relation_oids: oids })
    }
}

impl WriterCdc {
    fn keepalive_handle(&mut self, core: &mut WriterCore, lsn: u64) -> (task: CdcTask)
        ensures
            ({
                let o = keepalive_begun(old(core)@, lsn, old(self).last_applied_lsn);
                task@ == o.task && final(core)@ == o.core
            }),
            final(self).last_applied_lsn == command_applied(
                old(core)@,
                CdcCommand::KeepAliveMark { lsn },
                old(self).last_applied_lsn,
            ),
            final(self).statements == old(self).statements,
            task_wf(task@),
    {
        let ghost c = core@;
        if core.frame.open {
            return CdcTask::Publish;
        }
        if core.frame.batch_frames > 0 {
            let up_to = core.frame.batch_last_lsn;
            return core.flush_begin(up_to, Some(lsn));
        }
        self.applied_lsn_advance(lsn);
        core.last_applied_lsn = self.last_applied_lsn;
        proof {
            assert(core@ =~= core_applied(c, self.last_applied_lsn));
        }
        CdcTask::Publish
    }

    /// Begin a command. `queued` commands wait behind it.
    pub fn cdc_command_handle(
        &mut self,
        core: &mut WriterCore,
        cmd: CdcCommand,
        queued: usize,
        faults: &mut Faults,
    ) -> (task: CdcTask)
        requires
            old(core)@.frame.batch_events < usize::MAX,
            old(core)@.frame.batch_frames < usize::MAX,
        ensures
            ({
                let o = command_begun(
                    old(core)@,
                    cmd,
                    queued,
                    *old(faults),
                    old(self).last_applied_lsn,
                );
                task@ == o.task && final(core)@ == o.core
            }),
            final(self).last_applied_lsn == command_applied(
                old(core)@,
                cmd,
                old(self).last_applied_lsn,
            ),
            *final(faults) == faults_left(old(core)@, cmd, *old(faults)),
            final(self).statements == old(self).statements,
            task_wf(task@),
    {
        let ghost c = core@;
        match cmd {
            CdcCommand::Begin { .. } => {
                core.frame.frame_begin();
                proof {
                    assert(core@ =~= (CoreView { frame: frame_begun(c.frame), ..c }));
                }
                CdcTask::Publish
            },
            CdcCommand::TableRegister(table) => core.table_register_handle(table),
            CdcCommand::Insert { relation_oid, row_data } => core.insert_handle(
                relation_oid,
                row_data,
                faults,
            ),
            CdcCommand::Update { relation_oid, key_data, row_data } => core.update_handle(
                relation_oid,
                key_data,
                row_data,
            ),
            CdcCommand::Delete { relation_oid, row_data } => core.delete_handle(
                relation_oid,
                row_data,
            ),
            CdcCommand::Truncate { relation_oids } => core.truncate_handle(
                relation_oids,
            ),
            CdcCommand::CommitMark { lsn } => core.commit_mark_handle(
                lsn,
                queued,
                faults,
            ),
            CdcCommand::KeepAliveMark { lsn } => self.keepalive_handle(core, lsn),
        }
    }
}

} // verus!
