//! The writer: one loop that serializes the CDC stream, the query commands and
//! the merges.
use vstd::prelude::*;

use crate::cache::CachePolicy;
use crate::cdc::command_applied;
use crate::cdc::command_begun;
use crate::cdc::faults_left;
use crate::cdc::task_wf;
use crate::cdc::CdcTask;
use crate::cdc::TaskView;
use crate::command::CdcCommand;
use crate::error::CacheError;
use crate::fault::has_sentinel;
use crate::fault::writer_die_check;
use crate::fault::Faults;
use crate::flush::FlushStage;
use crate::frame::FrameState;
use crate::handlers::WriterCdc;
use crate::merge_queue::counted;
use crate::merge_queue::window_due;
use crate::merge_queue::InputQueues;
use crate::merge_queue::MergeQueue;
use crate::reclaim::DiskReclaim;
use crate::prepared::TextsView;
use crate::replay::ReplayReply;
use crate::serving::MvBuilds;
use crate::task::task_answered;
use crate::task::task_step;
use crate::task::task_taken;
use crate::writer_core::core_empty;
use crate::writer_core::WriterCore;

verus! {

/// What the loop woke up for, and how it went.
#[derive(Clone, Copy, PartialEq, Eq, Structural)]
pub enum LoopEvent {
    /// The writer is asked to stop.
    Cancelled,
    /// The periodic maintenance ran.
    Tick,
    /// A query command was handled, or failed.
    Query { failed: bool },
    /// A population's report was handled, or failed.
    Internal { failed: bool },
    /// A CDC command was handled, or failed.
    Cdc { failed: bool },
    /// A status request was answered.
    Status,
    /// One of the command channels closed.
    Closed,
}

/// What the loop does next.
#[derive(Clone, Copy, PartialEq, Eq, Structural)]
pub enum LoopVerdict {
    Continue,
    /// The writer stops in order.
    Stop,
    /// The writer stops with the failure, and the cache starts over.
    Fail,
}

/// What the loop does next. Only a failed CDC command is fatal: what the cache
/// tables hold may be wrong then. A failed query command concerns that query
/// alone.
pub open spec fn loop_verdict(e: LoopEvent) -> LoopVerdict {
    match e {
        LoopEvent::Cancelled => LoopVerdict::Stop,
        LoopEvent::Closed => LoopVerdict::Stop,
        LoopEvent::Cdc { failed } => if failed {
            LoopVerdict::Fail
        } else {
            LoopVerdict::Continue
        },
        _ => LoopVerdict::Continue,
    }
}

/// The writer's state.
pub struct Writer {
    pub core: WriterCore,
    pub cdc: WriterCdc,
    pub merges: MergeQueue,
    pub reclaim: DiskReclaim,
    pub builds: MvBuilds,
    pub faults: Faults,
}

/// Whether a task's next step closes its batch.
pub open spec fn closes_batch(t: TaskView) -> bool {
    t matches TaskView::Flush { flush, .. } && flush.stage == FlushStage::Close
}

/// Whether a command stops an armed writer.
pub open spec fn command_stops(faults: Faults, cmd: CdcCommand) -> bool {
    faults.writer_die && (cmd matches CdcCommand::Insert { row_data, .. } && has_sentinel(
        row_data@,
    ))
}

impl Writer {
    /// A writer that has applied nothing.
    pub fn new(publication_name: String, policy: CachePolicy, faults: Faults) -> (w: Writer)
        ensures
            w.core@ == core_empty(publication_name@, policy),
            w.cdc.last_applied_lsn == 0,
            w.cdc.statements.wf(),
            w.cdc.statements@.membership.len() == 0,
            w.cdc.statements@.row_change.len() == 0,
            w.cdc.statements@.texts == TextsView::empty(),
            w.merges.pending@.len() == 0,
            w.merges.discards@.len() == 0,
            w.merges.active is None,
            w.merges.batch_flush_seq == 0,
            w.merges.commands_handled == 0,
            w.merges.stall_since is None,
            w.merges.flush_marker_lsn == 0,
            w.reclaim == (DiskReclaim { ticks: 0, drop_backoff: false }),
            w.builds.inflight@.len() == 0,
            w.faults == faults,
    {
        Writer {
            core: WriterCore::new(publication_name, policy),
            cdc: WriterCdc::new(),
            merges: MergeQueue::new(),
            reclaim: DiskReclaim::new(),
            builds: MvBuilds { inflight: Vec::new() },
            faults,
        }
    }

    /// What the loop does next.
    pub fn loop_next(&self, event: LoopEvent) -> (verdict: LoopVerdict)
        ensures
            verdict == loop_verdict(event),
    {
        match event {
            LoopEvent::Cancelled => LoopVerdict::Stop,
            LoopEvent::Closed => LoopVerdict::Stop,
            LoopEvent::Cdc { failed } => if failed {
                LoopVerdict::Fail
            } else {
                LoopVerdict::Continue
            },
            _ => LoopVerdict::Continue,
        }
    }

    /// Begin a CDC command. The sentinel stops an armed writer with
    /// [`CacheError::CdcFailure`].
    pub fn command_begin(&mut self, cmd: CdcCommand, queued: usize) -> (task: Result<
        CdcTask,
        CacheError,
    >)
        requires
            old(self).core@.frame.batch_events < usize::MAX,
            old(self).core@.frame.batch_frames < usize::MAX,
        ensures
            match task {
                Ok(t) => {
                    let o = command_begun(
                        old(self).core@,
                        cmd,
                        queued,
                        old(self).faults,
                        old(self).cdc.last_applied_lsn,
                    );
                    &&& !command_stops(old(self).faults, cmd)
                    &&& t@ == o.task
                    &&& task_wf(t@)
                    &&& final(self).core@ == o.core
                    &&& final(self).cdc.last_applied_lsn == command_applied(
                        old(self).core@,
                        cmd,
                        old(self).cdc.last_applied_lsn,
                    )
                    &&& final(self).faults == faults_left(old(self).core@, cmd, old(self).faults)
                },
                Err(e) => {
                    &&& command_stops(old(self).faults, cmd)
                    &&& e == CacheError::CdcFailure
                    &&& *final(self) == (Writer {
                        faults: Faults { writer_die: false, ..old(self).faults },
                        ..*old(self)
                    })
                },
            },
            final(self).cdc.statements == old(self).cdc.statements,
            *final(self) == (Writer {
                core: final(self).core,
                cdc: final(self).cdc,
                faults: final(self).faults,
                ..*old(self)
            }),
    {
        if let CdcCommand::Insert { row_data, .. } = &cmd {
            if writer_die_check(&mut self.faults, row_data) {
                return Err(CacheError::CdcFailure);
            }
        }
        Ok(self.cdc.cdc_command_handle(&mut self.core, cmd, queued, &mut self.faults))
    }

    /// Take the next step of a CDC command. A batch that it closes gives the
    /// merges their turn.
    pub fn command_step(&mut self, task: CdcTask) -> (done: Result<CdcTask, CacheError>)
        requires
            task_wf(task@),
            old(self).cdc.statements.wf(),
        ensures
            task_taken(
                task_step(
                    task@,
                    old(self).core@,
                    old(self).cdc.last_applied_lsn,
                    old(self).cdc.statements@,
                ),
                final(self).core@,
                final(self).cdc.last_applied_lsn,
                final(self).cdc.statements@,
                done,
            ),
            done matches Ok(t) ==> task_wf(t@),
            final(self).cdc.statements.wf(),
            final(self).merges == (MergeQueue {
                batch_flush_seq: if closes_batch(task@) {
                    counted(old(self).merges.batch_flush_seq)
                } else {
                    old(self).merges.batch_flush_seq
                },
                ..old(self).merges
            }),
            *final(self) == (Writer {
                core: final(self).core,
                cdc: final(self).cdc,
                merges: final(self).merges,
                ..*old(self)
            }),
    {
        let closes = match &task {
            CdcTask::Flush { flush, .. } => flush.stage == FlushStage::Close,
            _ => false,
        };
        if closes {
            self.merges.batch_flushed();
        }
        self.cdc.task_step(&mut self.core, task)
    }

    /// Take in what came back from outside for a CDC command.
    pub fn command_answer(&mut self, task: CdcTask, reply: ReplayReply) -> (done: Result<
        CdcTask,
        CacheError,
    >)
        requires
            task_wf(task@),
        ensures
            task_taken(
                task_answered(
                    task@,
                    old(self).core@,
                    old(self).cdc.last_applied_lsn,
                    old(self).cdc.statements@,
                    reply@,
                ),
                final(self).core@,
                final(self).cdc.last_applied_lsn,
                final(self).cdc.statements@,
                done,
            ),
            done matches Ok(t) ==> task_wf(t@),
            *final(self) == (Writer { core: final(self).core, ..*old(self) }),
    {
        self.cdc.task_answer(&mut self.core, task, reply)
    }

    /// Whether waiting populations are to be looked at: between batches, so
    /// that a merge never meets the cache transaction.
    pub fn merges_drain_due(&self) -> (due: bool)
        ensures
            due == (self.core@.frame.state == FrameState::Idle && self.merges.pending@.len() > 0),
    {
        self.core.frame.state == FrameState::Idle && self.merges.pending.len() > 0
    }

    /// Whether the drain in progress may take its next window: between batches,
    /// and when the queues have had their turn.
    pub fn chunk_due(&self, queues: InputQueues) -> (due: bool)
        ensures
            due == (self.core@.frame.state == FrameState::Idle && window_due(self.merges, queues)),
    {
        self.core.frame.state == FrameState::Idle && self.merges.chunk_due(queues)
    }
}

} // verus!
