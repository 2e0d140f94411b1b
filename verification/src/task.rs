//! Carrying a command of the CDC stream through to its end.
use vstd::prelude::*;

use crate::cache::tables_dropped;
use crate::cache::tables_invalidated;
use crate::cache::CacheView;
use crate::catalog::TableMetadata;
use crate::cdc::after_recovery;
use crate::cdc::core_applied;
use crate::cdc::definition_changed;
use crate::cdc::task_wf;
use crate::cdc::CdcTask;
use crate::cdc::TaskView;
use crate::error::CacheError;
use crate::flush::advanced;
use crate::flush::flush_answered;
use crate::flush::flush_ask;
use crate::flush::flush_step;
use crate::flush::Flush;
use crate::flush::FlushAsk;
use crate::flush::FlushOutcome;
use crate::flush::FlushStage;
use crate::frame::recovery_entered;
use crate::frame::FrameState;
use crate::handlers::WriterCdc;
use crate::prepared::entries_outside;
use crate::prepared::entries_without;
use crate::prepared::relation_statements;
use crate::prepared::value_under;
use crate::prepared::PreparedView;
use crate::publication::active_oids;
use crate::publication::oids_outside;
use crate::publication::publication_sql;
use crate::publication::same_oids;
use crate::publication::ActiveView;
use crate::publication::PublicationPlan;
use crate::replay::replay_answered;
use crate::replay::replay_ask;
use crate::replay::replay_step;
use crate::replay::Outcome;
use crate::replay::Replay;
use crate::replay::ReplayAsk;
use crate::replay::ReplayReply;
use crate::replay::ReplayReplyView;
use crate::replay::ReplayStage;
use crate::writer_core::CoreView;
use crate::writer_core::WriterCore;

verus! {

broadcast use vstd::std_specs::hash::group_hash_axioms;

/// What a task needs from outside.
#[derive(Clone, Copy, PartialEq, Eq, Structural)]
pub enum CdcAsk {
    /// Nothing: go on.
    Continue,
    /// What the replay needs.
    Replay { ask: ReplayAsk },
    /// What the flush needs.
    Flush { ask: FlushAsk },
    /// Roll the cache transaction back.
    Rollback,
    /// Release the statements, and make the cache table if its definition
    /// changed.
    Register,
    /// Alter the publication.
    Alter,
    /// Nothing more.
    Done,
}

/// What a step or an answer of a task leads to.
#[verifier::ext_equal]
pub struct TaskOutcome {
    pub task: TaskView,
    pub core: CoreView,
    /// The watermark.
    pub applied: u64,
    pub statements: PreparedView,
    pub error: Option<CacheError>,
}

/// No failure.
pub open spec fn carried(task: TaskView, core: CoreView, applied: u64, statements: PreparedView)
    -> TaskOutcome {
    TaskOutcome { task, core, applied, statements, error: None }
}

/// A failure, which ends the task.
pub open spec fn task_failed(
    core: CoreView,
    applied: u64,
    statements: PreparedView,
    error: CacheError,
) -> TaskOutcome {
    TaskOutcome { task: TaskView::Done, core, applied, statements, error: Some(error) }
}

/// The numbers of a relation's statements.
pub open spec fn statements_released(s: PreparedView, oid: u32) -> Seq<u64> {
    let first = match value_under(s.row_change, (oid, 0)) {
        Some(v) => seq![v.1],
        None => Seq::<u64>::empty(),
    };
    first + relation_statements(s.membership, oid)
}

/// The statements but for a relation's.
pub open spec fn statements_left(s: PreparedView, oid: u32) -> PreparedView {
    PreparedView {
        membership: entries_outside(s.membership, oid),
        row_change: entries_without(s.row_change, (oid, 0)),
        ..s
    }
}

/// A relation with a changed definition: its queries go, and the definition
/// holds from here on.
pub open spec fn table_registered(c: CoreView, table: TableMetadata, changed: bool) -> CoreView {
    if changed {
        let cache = tables_invalidated(
            c.cache,
            seq![table.relation_oid],
            c.frame.state == FrameState::TxnOpen,
        );
        CoreView {
            cache: CacheView {
                tables: cache.tables.insert(table.relation_oid, table),
                ..cache
            },
            ..c
        }
    } else {
        c
    }
}

/// The state with the publication's dirty flag taken down.
pub open spec fn core_clean(c: CoreView) -> CoreView {
    CoreView {
        cache: CacheView { active: ActiveView { dirty: false, ..c.cache.active }, ..c.cache },
        ..c
    }
}

/// The state with the publication listing the active relations, and the removed
/// ones forgotten.
pub open spec fn core_published(c: CoreView, removed: Seq<u32>) -> CoreView {
    CoreView {
        cache: tables_dropped(
            CacheView {
                active: ActiveView {
                    dirty: false,
                    publication_oids: active_oids(c.cache.active.counts),
                    ..c.cache.active
                },
                ..c.cache
            },
            removed,
        ),
        ..c
    }
}

/// What the publication drain leads to. The cache transaction's locks make it
/// wait.
pub open spec fn publish_step(c: CoreView, applied: u64, statements: PreparedView) -> TaskOutcome {
    let active = active_oids(c.cache.active.counts);
    let published = c.cache.active.publication_oids;
    if !c.cache.active.dirty || c.frame.state == FrameState::TxnOpen {
        carried(TaskView::Done, c, applied, statements)
    } else if same_oids(active, published) {
        carried(TaskView::Done, core_clean(c), applied, statements)
    } else {
        carried(
            TaskView::Altering {
                sql: publication_sql(c.publication_name, c.cache.tables, published, active),
                removed: oids_outside(published, active),
            },
            core_clean(c),
            applied,
            statements,
        )
    }
}

/// A replay's outcome as its task's.
pub open spec fn replay_carried(o: Outcome, applied: u64, statements: PreparedView) -> TaskOutcome {
    match o.error {
        Some(error) => task_failed(o.core, applied, statements, error),
        None => carried(TaskView::Replay(o.replay), o.core, applied, statements),
    }
}

/// A flush's outcome as its task's.
pub open spec fn flush_carried(
    o: FlushOutcome,
    keepalive: Option<u64>,
    statements: PreparedView,
) -> TaskOutcome {
    match o.error {
        Some(error) => task_failed(o.core, o.applied, statements, error),
        None => carried(
            TaskView::Flush { flush: o.flush, keepalive },
            o.core,
            o.applied,
            statements,
        ),
    }
}

/// A flush that is over: the watermark moves to the keepalive that waited for
/// it, if there is one.
pub open spec fn flush_over(
    c: CoreView,
    keepalive: Option<u64>,
    applied: u64,
    statements: PreparedView,
) -> TaskOutcome {
    match keepalive {
        Some(lsn) => {
            let now = advanced(applied, lsn);
            carried(TaskView::Publish, core_applied(c, now), now, statements)
        },
        None => carried(TaskView::Publish, c, applied, statements),
    }
}

/// What a task asks.
pub open spec fn task_ask(t: TaskView, c: CoreView) -> CdcAsk {
    match t {
        TaskView::Rollback { .. } => CdcAsk::Rollback,
        TaskView::Register { .. } => CdcAsk::Continue,
        TaskView::Registering { .. } => CdcAsk::Register,
        TaskView::Replay(r) => match replay_ask(r, c) {
            ReplayAsk::Continue => CdcAsk::Continue,
            ReplayAsk::Done => CdcAsk::Continue,
            ask => CdcAsk::Replay { ask },
        },
        TaskView::Flush { flush, .. } => match flush_ask(flush, c) {
            FlushAsk::Continue => CdcAsk::Continue,
            FlushAsk::Done => CdcAsk::Continue,
            ask => CdcAsk::Flush { ask },
        },
        TaskView::Publish => CdcAsk::Continue,
        TaskView::Altering { .. } => CdcAsk::Alter,
        TaskView::Done => CdcAsk::Done,
    }
}

/// What a step leads to.
pub open spec fn task_step(t: TaskView, c: CoreView, applied: u64, statements: PreparedView)
    -> TaskOutcome {
    match t {
        TaskView::Register { table } => carried(
            TaskView::Registering {
                table,
                changed: definition_changed(c, table),
                released: statements_released(statements, table.relation_oid),
            },
            c,
            applied,
            statements_left(statements, table.relation_oid),
        ),
        TaskView::Replay(r) => if r.stage == ReplayStage::Done {
            carried(TaskView::Publish, c, applied, statements)
        } else {
            replay_carried(replay_step(r, c), applied, statements)
        },
        TaskView::Flush { flush, keepalive } => if flush.stage == FlushStage::Done {
            flush_over(c, keepalive, applied, statements)
        } else {
            flush_carried(flush_step(flush, c, applied), keepalive, statements)
        },
        TaskView::Publish => publish_step(c, applied, statements),
        _ => carried(t, c, applied, statements),
    }
}

/// What an answer leads to.
pub open spec fn task_answered(
    t: TaskView,
    c: CoreView,
    applied: u64,
    statements: PreparedView,
    reply: ReplayReplyView,
) -> TaskOutcome {
    match (t, reply) {
        (TaskView::Rollback { table }, ReplayReplyView::RolledBack) => carried(
            after_recovery(table),
            CoreView { frame: recovery_entered(c.frame), ..c },
            applied,
            statements,
        ),
        (TaskView::Registering { table, changed, .. }, ReplayReplyView::Sent) => carried(
            TaskView::Publish,
            table_registered(c, table, changed),
            applied,
            statements,
        ),
        (TaskView::Replay(r), _) => replay_carried(
            replay_answered(r, c, reply),
            applied,
            statements,
        ),
        (TaskView::Flush { flush, keepalive }, _) => flush_carried(
            flush_answered(flush, c, applied, reply),
            keepalive,
            statements,
        ),
        (TaskView::Altering { removed, .. }, ReplayReplyView::Sent) => carried(
            TaskView::Done,
            core_published(c, removed),
            applied,
            statements,
        ),
        (_, ReplayReplyView::Failed(error)) => task_failed(c, applied, statements, error),
        _ => task_failed(c, applied, statements, CacheError::Other),
    }
}

/// Whether a step or an answer led to the given state.
pub open spec fn task_taken(
    o: TaskOutcome,
    core: CoreView,
    applied: u64,
    statements: PreparedView,
    done: Result<CdcTask, CacheError>,
) -> bool {
    &&& core == o.core
    &&& applied == o.applied
    &&& statements == o.statements
    &&& match done {
        Ok(task) => o.error is None && task@ == o.task,
        Err(e) => o.error == Some(e),
    }
}

impl WriterCore {
    fn table_register(&mut self, table: TableMetadata, changed: bool)
        ensures
            final(self)@ == table_registered(old(self)@, table, changed),
    {
        if changed {
            let locks_held = self.frame.frame_holds_locks();
            let oids: Vec<u32> = vec![table.relation_oid];
            assert(oids@ =~= seq![table.relation_oid]);
            self.cache.cache_tables_invalidate(&oids, locks_held);
            self.cache.tables.insert(table.relation_oid, table);
            proof {
                assert(self@ =~= table_registered(old(self)@, table, changed));
            }
        }
    }

    fn publish(&mut self) -> (task: CdcTask)
        ensures
            forall|applied: u64, statements: PreparedView|
                #![trigger publish_step(old(self)@, applied, statements)]
                publish_step(old(self)@, applied, statements) == carried(
                    task@,
                    final(self)@,
                    applied,
                    statements,
                ),
    {
        let ghost c = self@;
        let locks_held = self.frame.frame_holds_locks();
        match self.cache.active.publication_dirty_drain(
            locks_held,
            &self.publication_name,
            &self.cache.tables,
        ) {
            None => {
                proof {
                    assert(self@ =~= c);
                }
                CdcTask::Done
            },
            Some(PublicationPlan::InSync) => {
                proof {
                    assert(self@ =~= core_clean(c));
                }
                CdcTask::Done
            },
            Some(PublicationPlan::Alter { sql, removed }) => {
                proof {
                    assert(self@ =~= core_clean(c));
                }
                CdcTask::Altering { sql, removed }
            },
        }
    }
}

impl WriterCdc {
    fn replay_carry(&mut self, core: &mut WriterCore, replay: Replay) -> (done: Result<
        CdcTask,
        CacheError,
    >)
        requires
            task_wf(TaskView::Replay(replay@)),
            old(self).statements.wf(),
        ensures
            task_taken(
                task_step(
                    TaskView::Replay(replay@),
                    old(core)@,
                    old(self).last_applied_lsn,
                    old(self).statements@,
                ),
                final(core)@,
                final(self).last_applied_lsn,
                final(self).statements@,
                done,
            ),
            done matches Ok(t) ==> task_wf(t@),
            final(self).statements.wf(),
    {
        if replay.stage == ReplayStage::Done {
            return Ok(CdcTask::Publish);
        }
        let mut replay = replay;
        match replay.step(self, core) {
            Ok(_) => Ok(CdcTask::Replay(replay)),
            Err(error) => Err(error),
        }
    }

    fn flush_carry(&mut self, core: &mut WriterCore, flush: Flush, keepalive: Option<u64>) -> (done: Result<
        CdcTask,
        CacheError,
    >)
        requires
            task_wf((TaskView::Flush { flush: flush@, keepalive })),
            old(self).statements.wf(),
        ensures
            task_taken(
                task_step(
                    (TaskView::Flush { flush: flush@, keepalive }),
                    old(core)@,
                    old(self).last_applied_lsn,
                    old(self).statements@,
                ),
                final(core)@,
                final(self).last_applied_lsn,
                final(self).statements@,
                done,
            ),
            done matches Ok(t) ==> task_wf(t@),
            final(self).statements.wf(),
    {
        let ghost c = core@;
        if flush.stage == FlushStage::Done {
            if let Some(lsn) = keepalive {
                self.applied_lsn_advance(lsn);
                core.last_applied_lsn = self.last_applied_lsn;
                proof {
                    assert(core@ =~= core_applied(c, self.last_applied_lsn));
                }
            }
            return Ok(CdcTask::Publish);
        }
        let mut flush = flush;
        match flush.step(self, core) {
            Ok(_) => Ok(CdcTask::Flush { flush, keepalive }),
            Err(error) => Err(error),
        }
    }

    fn register_carry(&mut self, core: &mut WriterCore, table: TableMetadata) -> (done: Result<
        CdcTask,
        CacheError,
    >)
        requires
            task_wf((TaskView::Register { table })),
            old(self).statements.wf(),
        ensures
            task_taken(
                task_step(
                    (TaskView::Register { table }),
                    old(core)@,
                    old(self).last_applied_lsn,
                    old(self).statements@,
                ),
                final(core)@,
                final(self).last_applied_lsn,
                final(self).statements@,
                done,
            ),
            done matches Ok(t) ==> task_wf(t@),
            final(self).statements.wf(),
    {
        let changed = core.definition_changed(&table);
        let released = self.statements.relation_drop(table.relation_oid);
        Ok(CdcTask::Registering { table, changed, released })
    }

    /// Take the next step of a task. An error ends it.
    pub fn task_step(&mut self, core: &mut WriterCore, task: CdcTask) -> (done: Result<
        CdcTask,
        CacheError,
    >)
        requires
            task_wf(task@),
            old(self).statements.wf(),
        ensures
            task_taken(
                task_step(
                    task@,
                    old(core)@,
                    old(self).last_applied_lsn,
                    old(self).statements@,
                ),
                final(core)@,
                final(self).last_applied_lsn,
                final(self).statements@,
                done,
            ),
            done matches Ok(t) ==> task_wf(t@),
            final(self).statements.wf(),
    {
        match task {
            CdcTask::Register { table } => self.register_carry(core, table),
            CdcTask::Replay(replay) => self.replay_carry(core, replay),
            CdcTask::Flush { flush, keepalive } => self.flush_carry(core, flush, keepalive),
            CdcTask::Publish => Ok(core.publish()),
            other => Ok(other),
        }
    }

    /// What a task needs from outside.
    pub fn task_ask(&self, core: &WriterCore, task: &CdcTask) -> (ask: CdcAsk)
        ensures
            ask == task_ask(task@, core@),
    {
        match task {
            CdcTask::Rollback { .. } => CdcAsk::Rollback,
            CdcTask::Register { .. } => CdcAsk::Continue,
            CdcTask::Registering { .. } => CdcAsk::Register,
            CdcTask::Replay(replay) => match replay.ask(core) {
                ReplayAsk::Continue => CdcAsk::Continue,
                ReplayAsk::Done => CdcAsk::Continue,
                ask => CdcAsk::Replay { ask },
            },
            CdcTask::Flush { flush, .. } => match flush.ask(core) {
                FlushAsk::Continue => CdcAsk::Continue,
                FlushAsk::Done => CdcAsk::Continue,
                ask => CdcAsk::Flush { ask },
            },
            CdcTask::Publish => CdcAsk::Continue,
            CdcTask::Altering { .. } => CdcAsk::Alter,
            CdcTask::Done => CdcAsk::Done,
        }
    }

    /// Take in what came back from outside. An error ends the task.
    pub fn task_answer(&mut self, core: &mut WriterCore, task: CdcTask, reply: ReplayReply) -> (
    done: Result<CdcTask, CacheError>)
        requires
            task_wf(task@),
        ensures
            task_taken(
                task_answered(
                    task@,
                    old(core)@,
                    old(self).last_applied_lsn,
                    old(self).statements@,
                    reply@,
                ),
                final(core)@,
                final(self).last_applied_lsn,
                final(self).statements@,
                done,
            ),
            done matches Ok(t) ==> task_wf(t@),
            *final(self) == *old(self),
    {
        let ghost c = core@;
        match task {
            CdcTask::Rollback { table } => match reply {
                ReplayReply::RolledBack => {
                    core.frame.frame_recover_enter();
                    proof {
                        assert(core@ =~= (CoreView { frame: recovery_entered(c.frame), ..c }));
                    }
                    match table {
                        Some(table) => Ok(CdcTask::Register { table }),
                        None => Ok(CdcTask::Publish),
                    }
                },
                ReplayReply::Failed(error) => Err(error),
                _ => Err(CacheError::Other),
            },
            CdcTask::Registering { table, changed, .. } => match reply {
                ReplayReply::Sent => {
                    core.table_register(table, changed);
                    Ok(CdcTask::Publish)
                },
                ReplayReply::Failed(error) => Err(error),
                _ => Err(CacheError::Other),
            },
            CdcTask::Replay(mut replay) => {
                match replay.answer(self, core, reply) {
                    Ok(_) => Ok(CdcTask::Replay(replay)),
                    Err(error) => Err(error),
                }
            },
            CdcTask::Flush { mut flush, keepalive } => {
                match flush.answer(self, core, reply) {
                    Ok(_) => Ok(CdcTask::Flush { flush, keepalive }),
                    Err(error) => Err(error),
                }
            },
            CdcTask::Altering { removed, .. } => match reply {
                ReplayReply::Sent => {
                    core.cache.active.publication_updated();
                    proof {
                        assert(core@.cache =~= (CacheView {
                            active: core@.cache.active,
                            ..c.cache
                        }));
                    }
                    core.cache.cache_tables_drop(&removed);
                    proof {
                        assert(core@ =~= core_published(c, removed@));
                    }
                    Ok(CdcTask::Done)
                },
                ReplayReply::Failed(error) => Err(error),
                _ => Err(CacheError::Other),
            },
            _ => match reply {
                ReplayReply::Failed(error) => Err(error),
                _ => Err(CacheError::Other),
            },
        }
    }
}

} // verus!
