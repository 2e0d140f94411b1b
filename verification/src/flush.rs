//! Flushing a batch: its events are replayed, its writes committed, and what
//! waited for the commit is settled.
//!
//! Memos are bracketed: their versions step before anything of the batch can
//! be seen and again after, whether the commit succeeds or fails, so that a
//! memo taken in between is never used.
use vstd::prelude::*;

use crate::cache::all_cdc_invalidated;
use crate::cache::oids_clone;
use crate::cache::purge_asked;
use crate::cache::purge_bound;
use crate::cache::tables_invalidated;
use crate::cache::CacheView;
use crate::deadlock::error_is_deadlock;
use crate::deadlock::is_deadlock;
use crate::error::CacheError;
use crate::frame::all_abort;
use crate::frame::all_aborted;
use crate::frame::batch_reset;
use crate::frame::losses_cleared;
use crate::frame::losses_stamped;
use crate::frame::recovery_entered;
use crate::frame::txn_committed;
use crate::frame::FrameState;
use crate::frame::FrameView;
use crate::handlers::WriterCdc;
use crate::memo::memos_stepped;
use crate::memo::relations_stepped;
use crate::memo::MemoView;
use crate::replay::replay_answered;
use crate::replay::replay_ask;
use crate::replay::replay_begun;
use crate::replay::replay_step;
use crate::replay::replay_wf;
use crate::replay::Replay;
use crate::replay::ReplayAsk;
use crate::replay::ReplayReply;
use crate::replay::ReplayReplyView;
use crate::replay::ReplayStage;
use crate::replay::ReplayView;
use crate::sql::truncate_sql;
use crate::sql::truncate_sql_build;
use crate::writer_core::CoreView;
use crate::writer_core::WriterCore;

verus! {

broadcast use vstd::std_specs::hash::group_hash_axioms;

/// Where a flush stands.
#[derive(Clone, Copy, PartialEq, Eq, Structural)]
pub enum FlushStage {
    /// The events are being replayed.
    Replay,
    /// The memos' bracket is to open.
    Bracket,
    /// The batch is to be committed or recovered, as its state says.
    Finalize,
    /// The writes are being committed.
    Committing,
    /// The cache transaction is being rolled back.
    RollingBack,
    /// The relations of a lost transaction are to be recovered.
    Recover,
    /// Their cache tables are being emptied.
    Truncating,
    /// The bracket is to close, and the batch with it.
    Close,
    /// The batch is over.
    Done,
}

/// What a flush needs from outside.
#[derive(Clone, Copy, PartialEq, Eq, Structural)]
pub enum FlushAsk {
    /// Nothing: go on.
    Continue,
    /// What the replay needs.
    Replay { ask: ReplayAsk },
    /// Send the buffered writes, which end the transaction.
    Commit,
    /// Roll the cache transaction back.
    Rollback,
    /// Run the statement that empties the recovered relations' cache tables.
    Truncate,
    /// Nothing more.
    Done,
}

/// A flush up to an LSN.
pub struct Flush {
    pub stage: FlushStage,
    pub lsn: u64,
    pub replay: Replay,
    /// Whether relations are bracketed too: there was a memo when the bracket
    /// opened.
    pub memo_active: bool,
    /// Empties the cache tables of the recovered relations.
    pub truncate: String,
}

/// The mathematical value of a [`Flush`].
#[verifier::ext_equal]
pub struct FlushView {
    pub stage: FlushStage,
    pub lsn: u64,
    pub replay: ReplayView,
    pub memo_active: bool,
    pub truncate: Seq<char>,
}

impl View for Flush {
    type V = FlushView;

    open spec fn view(&self) -> FlushView {
        FlushView {
            stage: self.stage,
            lsn: self.lsn,
            replay: self.replay@,
            memo_active: self.memo_active,
            truncate: self.truncate@,
        }
    }
}

/// What a step or an answer of a flush leads to.
#[verifier::ext_equal]
pub struct FlushOutcome {
    pub flush: FlushView,
    pub core: CoreView,
    /// The watermark.
    pub applied: u64,
    pub error: Option<CacheError>,
}

/// The versions of the bracketed memos stepped once.
pub open spec fn bracket_stepped(m: MemoView, f: FrameView, relations_too: bool) -> MemoView {
    memos_stepped(
        if relations_too {
            relations_stepped(m, f.relation_oids)
        } else {
            m
        },
        f.memo_evictions,
    )
}

/// The state with the bracket opened or closed.
pub open spec fn core_bracketed(c: CoreView, relations_too: bool) -> CoreView {
    CoreView {
        cache: CacheView { memo: bracket_stepped(c.cache.memo, c.frame, relations_too), ..c.cache },
        ..c
    }
}

/// The state with the flagged queries invalidated.
pub open spec fn invalidations_flushed(c: CoreView) -> CoreView {
    CoreView {
        cache: all_cdc_invalidated(
            c.cache,
            c.frame.invalidations,
            c.frame.state == FrameState::TxnOpen,
        ),
        ..c
    }
}

/// The state with the end of the transaction buffered.
pub open spec fn commit_buffered(c: CoreView) -> CoreView {
    CoreView { frame: FrameView { buf: c.frame.buf + "COMMIT"@, ..c.frame }, ..c }
}

/// The state with the queries over a lost transaction's relations evicted: the
/// populations in flight over them will abort.
pub open spec fn relations_recovered(c: CoreView) -> CoreView {
    CoreView {
        cache: tables_invalidated(
            c.cache,
            c.frame.relation_oids,
            c.frame.state == FrameState::TxnOpen,
        ),
        frame: FrameView {
            batch_truncated_relations: c.frame.batch_truncated_relations + c.frame.relation_oids,
            ..c.frame
        },
        ..c
    }
}

/// The statement that empties the given relations' cache tables in a
/// transaction of its own.
pub open spec fn recovery_sql(truncate: Seq<char>) -> Seq<char> {
    "BEGIN; "@ + truncate + "; COMMIT"@
}

/// A watermark moves forward only.
pub open spec fn advanced(applied: u64, lsn: u64) -> u64 {
    if lsn > applied {
        lsn
    } else {
        applied
    }
}

/// The state of a batch that is over: what it lost is stamped, what waited for
/// its locks is asked for, and everything up to `applied` is applied.
pub open spec fn batch_closed(c: CoreView, lsn: u64, applied: u64) -> CoreView {
    let f = batch_reset(c.frame);
    CoreView {
        cache: if c.cache.purge_pending {
            CacheView {
                purge_pending: false,
                ..purge_asked(c.cache, purge_bound(c.cache.generations), false)
            }
        } else {
            c.cache
        },
        frame: FrameView { batch_truncated_relations: Seq::empty(), ..losses_cleared(f) },
        keys: all_aborted(losses_stamped(c.keys, f, lsn), f.batch_truncated_relations, lsn),
        last_applied_lsn: applied,
        ..c
    }
}

/// What a flush asks.
pub open spec fn flush_ask(f: FlushView, c: CoreView) -> FlushAsk {
    match f.stage {
        FlushStage::Replay => match replay_ask(f.replay, c) {
            ReplayAsk::Continue => FlushAsk::Continue,
            ReplayAsk::Done => FlushAsk::Continue,
            ask => FlushAsk::Replay { ask },
        },
        FlushStage::Committing => FlushAsk::Commit,
        FlushStage::RollingBack => FlushAsk::Rollback,
        FlushStage::Truncating => FlushAsk::Truncate,
        FlushStage::Done => FlushAsk::Done,
        _ => FlushAsk::Continue,
    }
}

pub open spec fn flush_at(f: FlushView, stage: FlushStage) -> FlushView {
    FlushView { stage, ..f }
}

pub open spec fn flushing(f: FlushView, core: CoreView, applied: u64) -> FlushOutcome {
    FlushOutcome { flush: f, core, applied, error: None }
}

/// The replay of a flush went on.
pub open spec fn replay_moved(
    f: FlushView,
    o: crate::replay::Outcome,
    applied: u64,
) -> FlushOutcome {
    FlushOutcome {
        flush: FlushView { replay: o.replay, ..f },
        core: o.core,
        applied,
        error: o.error,
    }
}

/// What a step that asks nothing leads to.
#[verifier::opaque]
pub open spec fn flush_step(f: FlushView, c: CoreView, applied: u64) -> FlushOutcome {
    match f.stage {
        FlushStage::Replay => if f.replay.stage == ReplayStage::Done {
            flushing(flush_at(f, FlushStage::Bracket), c, applied)
        } else {
            replay_moved(f, replay_step(f.replay, c), applied)
        },
        FlushStage::Bracket => {
            let active = c.cache.memo.memos.len() > 0;
            flushing(
                FlushView { memo_active: active, stage: FlushStage::Finalize, ..f },
                core_bracketed(c, active),
                applied,
            )
        },
        FlushStage::Finalize => match c.frame.state {
            FrameState::TxnOpen => flushing(
                flush_at(f, FlushStage::Committing),
                commit_buffered(invalidations_flushed(c)),
                applied,
            ),
            FrameState::Active => flushing(
                flush_at(f, FlushStage::Close),
                invalidations_flushed(c),
                applied,
            ),
            FrameState::Recovering => flushing(flush_at(f, FlushStage::Recover), c, applied),
            FrameState::Idle => flushing(flush_at(f, FlushStage::Close), c, applied),
        },
        FlushStage::Recover => match truncate_sql(c.cache.tables, c.frame.relation_oids) {
            Some(sql) => flushing(
                FlushView { truncate: recovery_sql(sql), stage: FlushStage::Truncating, ..f },
                relations_recovered(c),
                applied,
            ),
            None => flushing(flush_at(f, FlushStage::Close), relations_recovered(c), applied),
        },
        FlushStage::Close => {
            let now = advanced(applied, f.lsn);
            flushing(
                flush_at(f, FlushStage::Done),
                batch_closed(core_bracketed(c, f.memo_active), f.lsn, now),
                now,
            )
        },
        _ => flushing(f, c, applied),
    }
}

/// Whether the memos' bracket is open.
pub open spec fn bracket_open(stage: FlushStage) -> bool {
    match stage {
        FlushStage::Replay => false,
        FlushStage::Bracket => false,
        FlushStage::Done => false,
        _ => true,
    }
}

/// A flush that fails: an open bracket is closed before the failure is told.
pub open spec fn flush_failing(f: FlushView, c: CoreView, applied: u64, error: CacheError)
    -> FlushOutcome {
    FlushOutcome {
        flush: flush_at(f, FlushStage::Done),
        core: if bracket_open(f.stage) {
            core_bracketed(c, f.memo_active)
        } else {
            c
        },
        applied,
        error: Some(error),
    }
}

/// What a failed commit leads to: a deadlock makes the batch recover, anything
/// else is the caller's.
pub open spec fn commit_failed(f: FlushView, c: CoreView, applied: u64, error: CacheError)
    -> FlushOutcome {
    if is_deadlock(error) && c.frame.state != FrameState::Recovering {
        if c.frame.chunk_flushed {
            flushing(flush_at(f, FlushStage::RollingBack), c, applied)
        } else {
            flushing(
                flush_at(f, FlushStage::Recover),
                CoreView { frame: recovery_entered(c.frame), ..c },
                applied,
            )
        }
    } else {
        flush_failing(f, c, applied, error)
    }
}

/// What an answer leads to. A failure that answers no question is that of work
/// the last step left to do.
#[verifier::opaque]
pub open spec fn flush_answered(f: FlushView, c: CoreView, applied: u64, reply: ReplayReplyView)
    -> FlushOutcome {
    match (flush_ask(f, c), reply) {
        (FlushAsk::Replay { .. }, _) => replay_moved(
            f,
            replay_answered(f.replay, c, reply),
            applied,
        ),
        (FlushAsk::Commit, ReplayReplyView::Sent) => flushing(
            flush_at(f, FlushStage::Close),
            CoreView { frame: txn_committed(c.frame), ..c },
            applied,
        ),
        (FlushAsk::Commit, ReplayReplyView::Failed(error)) => commit_failed(f, c, applied, error),
        (FlushAsk::Rollback, ReplayReplyView::RolledBack) => flushing(
            flush_at(f, FlushStage::Recover),
            CoreView { frame: recovery_entered(c.frame), ..c },
            applied,
        ),
        (FlushAsk::Truncate, ReplayReplyView::Sent) => flushing(
            flush_at(f, FlushStage::Close),
            c,
            applied,
        ),
        (_, ReplayReplyView::Failed(error)) => flush_failing(f, c, applied, error),
        _ => flush_failing(f, c, applied, CacheError::Other),
    }
}

/// A flush before anything was asked.
pub open spec fn flush_begun(c: CoreView, lsn: u64) -> FlushView {
    FlushView {
        stage: FlushStage::Replay,
        lsn,
        replay: replay_begun(c).replay,
        memo_active: false,
        truncate: Seq::empty(),
    }
}

/// Whether a step or an answer led to the given state.
pub open spec fn flush_taken(
    o: FlushOutcome,
    after: FlushView,
    core: CoreView,
    applied: u64,
    done: Result<(), CacheError>,
) -> bool {
    &&& after == o.flush
    &&& core == o.core
    &&& applied == o.applied
    &&& match done {
        Ok(_) => o.error is None,
        Err(e) => o.error == Some(e),
    }
}

impl WriterCore {
    fn memo_bracket_step(&mut self, relations_too: bool)
        ensures
            final(self)@ == core_bracketed(old(self)@, relations_too),
    {
        if relations_too {
            self.cache.memo.relations_step(&self.frame.relation_oids);
        }
        self.cache.memo.memos_step(&self.frame.memo_evictions);
        proof {
            assert(self@ =~= core_bracketed(old(self)@, relations_too));
        }
    }

    fn frame_invalidations_flush(&mut self)
        ensures
            final(self)@ == invalidations_flushed(old(self)@),
    {
        let locks_held = self.frame.frame_holds_locks();
        let ghost start = self.cache@;
        let ghost fps = self.frame.invalidations@;
        let mut i: usize = 0;
        proof {
            assert(fps.take(0) =~= Seq::<u64>::empty());
        }
        while i < self.frame.invalidations.len()
            invariant
                i <= fps.len(),
                fps == self.frame.invalidations@,
                self.frame@ == old(self)@.frame,
                self.deleted_keys@ == old(self)@.keys,
                self.last_applied_lsn == old(self)@.last_applied_lsn,
                self.publication_name@ == old(self)@.publication_name,
                self.cache@ == all_cdc_invalidated(start, fps.take(i as int), locks_held),
            decreases fps.len() - i,
        {
            proof {
                assert(fps.take(i + 1).drop_last() =~= fps.take(i as int));
            }
            let fingerprint = self.frame.invalidations[i];
            self.cache.cache_query_cdc_invalidate(fingerprint, locks_held);
            i = i + 1;
        }
        proof {
            assert(fps.take(i as int) =~= fps);
            assert(self@ =~= invalidations_flushed(old(self)@));
        }
    }

    fn frame_recover(&mut self) -> (truncate: Option<String>)
        ensures
            final(self)@ == relations_recovered(old(self)@),
            match truncate {
                Some(sql) => truncate_sql(
                    old(self)@.cache.tables,
                    old(self)@.frame.relation_oids,
                ) == Some(sql@),
                None => truncate_sql(
                    old(self)@.cache.tables,
                    old(self)@.frame.relation_oids,
                ) is None,
            },
    {
        let truncate = truncate_sql_build(&self.cache.tables, &self.frame.relation_oids);
        let locks_held = self.frame.frame_holds_locks();
        let oids = oids_clone(&self.frame.relation_oids);
        self.cache.cache_tables_invalidate(&oids, locks_held);
        let mut oids_left = oids_clone(&oids);
        self.frame.batch_truncated_relations.append(&mut oids_left);
        proof {
            assert(self.frame@.batch_truncated_relations =~= old(
                self,
            )@.frame.batch_truncated_relations + oids@);
            assert(self@ =~= relations_recovered(old(self)@));
        }
        truncate
    }

    fn batch_close(&mut self, lsn: u64, applied: u64)
        ensures
            final(self)@ == batch_closed(old(self)@, lsn, applied),
    {
        self.frame.batch_reset();
        self.frame.losses_stamp(&mut self.deleted_keys, lsn);
        all_abort(&mut self.deleted_keys, &self.frame.batch_truncated_relations, lsn);
        self.frame.batch_truncated_relations = Vec::new();
        self.last_applied_lsn = applied;
        if self.cache.purge_pending {
            let up_to = self.cache.generation_purge_bound();
            self.cache.generation_purge(up_to, false);
            self.cache.purge_pending = false;
        }
        proof {
            assert(self@ =~= batch_closed(old(self)@, lsn, applied));
        }
    }
}

impl Flush {
    /// Begin to flush the batch, whose last source transaction committed at
    /// `lsn`.
    pub fn begin(core: &mut WriterCore, lsn: u64) -> (f: Flush)
        ensures
            f@ == flush_begun(old(core)@, lsn),
            final(core)@ == replay_begun(old(core)@).core,
            replay_wf(f@.replay),
    {
        let replay = Replay::begin(core);
        let f = Flush {
            stage: FlushStage::Replay,
            lsn,
            replay,
            memo_active: false,
            truncate: String::new(),
        };
        proof {
            assert(f@ =~= flush_begun(old(core)@, lsn));
        }
        f
    }

    fn replay_advance(&mut self, cdc: &WriterCdc, core: &mut WriterCore) -> (ask: Result<
        FlushAsk,
        CacheError,
    >)
        requires
            replay_wf(old(self)@.replay),
            old(self).stage == FlushStage::Replay,
        ensures
            flush_taken(
                flush_step(old(self)@, old(core)@, cdc.last_applied_lsn),
                final(self)@,
                final(core)@,
                cdc.last_applied_lsn,
                match ask {
                    Ok(_) => Ok(()),
                    Err(e) => Err(e),
                },
            ),
            ask matches Ok(a) ==> a == flush_ask(old(self)@, old(core)@),
            replay_wf(final(self)@.replay),
    {
        proof {
            reveal(flush_step);
        }
        let ghost f = self@;
        let ghost c = core@;
        let applied: u64 = cdc.last_applied_lsn;
        if self.replay.stage == ReplayStage::Done {
            self.stage = FlushStage::Bracket;
            proof {
                assert(self@ =~= flush_step(f, c, applied).flush);
            }
            return Ok(FlushAsk::Continue);
        }
        let asked = self.replay.step(cdc, core);
        proof {
            assert(self@ =~= flush_step(f, c, applied).flush);
        }
        match asked {
            Ok(ReplayAsk::Continue) => Ok(FlushAsk::Continue),
            Ok(ReplayAsk::Done) => Ok(FlushAsk::Continue),
            Ok(ask) => Ok(FlushAsk::Replay { ask }),
            Err(error) => Err(error),
        }
    }

    fn finalize(&mut self, core: &mut WriterCore, applied: Ghost<u64>)
        requires
            old(self).stage == FlushStage::Finalize,
        ensures
            flush_taken(
                flush_step(old(self)@, old(core)@, applied@),
                final(self)@,
                final(core)@,
                applied@,
                Ok(()),
            ),
    {
        proof {
            reveal(flush_step);
        }
        let ghost f = self@;
        let ghost c = core@;
        match core.frame.state {
            FrameState::TxnOpen => {
                core.frame_invalidations_flush();
                core.frame.buf.append("COMMIT");
                self.stage = FlushStage::Committing;
                proof {
                    assert(core@ =~= commit_buffered(invalidations_flushed(c)));
                }
            },
            FrameState::Active => {
                core.frame_invalidations_flush();
                self.stage = FlushStage::Close;
            },
            FrameState::Recovering => {
                self.stage = FlushStage::Recover;
            },
            FrameState::Idle => {
                self.stage = FlushStage::Close;
            },
        }
        proof {
            assert(self@ =~= flush_step(f, c, applied@).flush);
        }
    }

    fn recover(&mut self, core: &mut WriterCore, applied: Ghost<u64>)
        requires
            old(self).stage == FlushStage::Recover,
        ensures
            flush_taken(
                flush_step(old(self)@, old(core)@, applied@),
                final(self)@,
                final(core)@,
                applied@,
                Ok(()),
            ),
    {
        proof {
            reveal(flush_step);
        }
        let ghost f = self@;
        let ghost c = core@;
        match core.frame_recover() {
            Some(truncate) => {
                let mut sql = "BEGIN; ".to_owned();
                sql.append(truncate.as_str());
                sql.append("; COMMIT");
                self.truncate = sql;
                self.stage = FlushStage::Truncating;
            },
            None => {
                self.stage = FlushStage::Close;
            },
        }
        proof {
            assert(self@ =~= flush_step(f, c, applied@).flush);
        }
    }

    /// What the next step needs from outside.
    pub fn ask(&self, core: &WriterCore) -> (ask: FlushAsk)
        ensures
            ask == flush_ask(self@, core@),
    {
        match self.stage {
            FlushStage::Replay => match self.replay.ask(core) {
                ReplayAsk::Continue => FlushAsk::Continue,
                ReplayAsk::Done => FlushAsk::Continue,
                ask => FlushAsk::Replay { ask },
            },
            FlushStage::Committing => FlushAsk::Commit,
            FlushStage::RollingBack => FlushAsk::Rollback,
            FlushStage::Truncating => FlushAsk::Truncate,
            FlushStage::Done => FlushAsk::Done,
            _ => FlushAsk::Continue,
        }
    }

    fn bracket_begin(&mut self, core: &mut WriterCore, applied: Ghost<u64>)
        requires
            old(self).stage == FlushStage::Bracket,
        ensures
            flush_taken(
                flush_step(old(self)@, old(core)@, applied@),
                final(self)@,
                final(core)@,
                applied@,
                Ok(()),
            ),
            final(self)@.replay == old(self)@.replay,
    {
        proof {
            reveal(flush_step);
        }
        let ghost f = self@;
        let ghost c = core@;
        self.memo_active = !core.cache.memo.is_empty();
        core.memo_bracket_step(self.memo_active);
        self.stage = FlushStage::Finalize;
        proof {
            assert(self@ =~= flush_step(f, c, applied@).flush);
        }
    }

    fn close(&mut self, cdc: &mut WriterCdc, core: &mut WriterCore)
        requires
            old(self).stage == FlushStage::Close,
        ensures
            flush_taken(
                flush_step(old(self)@, old(core)@, old(cdc).last_applied_lsn),
                final(self)@,
                final(core)@,
                final(cdc).last_applied_lsn,
                Ok(()),
            ),
            final(self)@.replay == old(self)@.replay,
            final(cdc).statements == old(cdc).statements,
    {
        proof {
            reveal(flush_step);
        }
        let ghost f = self@;
        let ghost c = core@;
        core.memo_bracket_step(self.memo_active);
        cdc.applied_lsn_advance(self.lsn);
        core.batch_close(self.lsn, cdc.last_applied_lsn);
        self.stage = FlushStage::Done;
        proof {
            assert(self@ =~= flush_step(f, c, old(cdc).last_applied_lsn).flush);
        }
    }

    /// Take the next step; what is needed from outside before another. An
    /// error ends the flush.
    pub fn step(&mut self, cdc: &mut WriterCdc, core: &mut WriterCore) -> (ask: Result<
        FlushAsk,
        CacheError,
    >)
        requires
            replay_wf(old(self)@.replay),
        ensures
            flush_taken(
                flush_step(old(self)@, old(core)@, old(cdc).last_applied_lsn),
                final(self)@,
                final(core)@,
                final(cdc).last_applied_lsn,
                match ask {
                    Ok(_) => Ok(()),
                    Err(e) => Err(e),
                },
            ),
            ask matches Ok(a) ==> a == flush_ask(old(self)@, old(core)@),
            replay_wf(final(self)@.replay),
            final(cdc).statements == old(cdc).statements,
    {
        proof {
            reveal(flush_step);
        }
        let ghost f = self@;
        let ghost c = core@;
        let applied: u64 = cdc.last_applied_lsn;
        match self.stage {
            FlushStage::Replay => self.replay_advance(cdc, core),
            FlushStage::Bracket => {
                self.bracket_begin(core, Ghost(applied));
                Ok(FlushAsk::Continue)
            },
            FlushStage::Finalize => {
                self.finalize(core, Ghost(applied));
                Ok(FlushAsk::Continue)
            },
            FlushStage::Committing => Ok(FlushAsk::Commit),
            FlushStage::RollingBack => Ok(FlushAsk::Rollback),
            FlushStage::Recover => {
                self.recover(core, Ghost(applied));
                Ok(FlushAsk::Continue)
            },
            FlushStage::Truncating => Ok(FlushAsk::Truncate),
            FlushStage::Close => {
                self.close(cdc, core);
                Ok(FlushAsk::Continue)
            },
            FlushStage::Done => Ok(FlushAsk::Done),
        }
    }

    fn fail(&mut self, core: &mut WriterCore, error: CacheError, applied: Ghost<u64>) -> (done:
        Result<(), CacheError>)
        ensures
            flush_taken(
                flush_failing(old(self)@, old(core)@, applied@, error),
                final(self)@,
                final(core)@,
                applied@,
                done,
            ),
    {
        let ghost f = self@;
        let open = match self.stage {
            FlushStage::Replay => false,
            FlushStage::Bracket => false,
            FlushStage::Done => false,
            _ => true,
        };
        if open {
            core.memo_bracket_step(self.memo_active);
        }
        self.stage = FlushStage::Done;
        proof {
            assert(self@ =~= flush_at(f, FlushStage::Done));
        }
        Err(error)
    }

    fn commit_fail(&mut self, core: &mut WriterCore, error: CacheError, applied: Ghost<u64>) -> (
    done: Result<(), CacheError>)
        ensures
            flush_taken(
                commit_failed(old(self)@, old(core)@, applied@, error),
                final(self)@,
                final(core)@,
                applied@,
                done,
            ),
    {
        let ghost f = self@;
        let ghost c = core@;
        if error_is_deadlock(&error) && core.frame.state != FrameState::Recovering {
            if core.frame.chunk_flushed {
                self.stage = FlushStage::RollingBack;
            } else {
                core.frame.frame_recover_enter();
                self.stage = FlushStage::Recover;
            }
            proof {
                assert(self@ =~= commit_failed(f, c, applied@, error).flush);
                assert(core@ =~= commit_failed(f, c, applied@, error).core);
            }
            Ok(())
        } else {
            self.fail(core, error, applied)
        }
    }

    /// Take in what came back from outside. An error ends the flush.
    pub fn answer(&mut self, cdc: &WriterCdc, core: &mut WriterCore, reply: ReplayReply) -> (done:
        Result<(), CacheError>)
        requires
            replay_wf(old(self)@.replay),
        ensures
            flush_taken(
                flush_answered(old(self)@, old(core)@, cdc.last_applied_lsn, reply@),
                final(self)@,
                final(core)@,
                cdc.last_applied_lsn,
                done,
            ),
            replay_wf(final(self)@.replay),
    {
        proof {
            reveal(flush_answered);
        }
        let ghost f = self@;
        let ghost c = core@;
        let ghost a = cdc.last_applied_lsn;
        let ghost r = reply@;
        match self.stage {
            FlushStage::Replay => {
                let asks = match self.replay.ask(core) {
                    ReplayAsk::Continue => false,
                    ReplayAsk::Done => false,
                    _ => true,
                };
                if asks {
                    let done = self.replay.answer(cdc, core, reply);
                    proof {
                        assert(self@ =~= flush_answered(f, c, a, r).flush);
                    }
                    done
                } else {
                    match reply {
                        ReplayReply::Failed(error) => self.fail(core, error, Ghost(a)),
                        _ => self.fail(core, CacheError::Other, Ghost(a)),
                    }
                }
            },
            FlushStage::Committing => match reply {
                ReplayReply::Sent => {
                    core.frame.txn_committed();
                    self.stage = FlushStage::Close;
                    proof {
                        assert(self@ =~= flush_answered(f, c, a, r).flush);
                        assert(core@ =~= flush_answered(f, c, a, r).core);
                    }
                    Ok(())
                },
                ReplayReply::Failed(error) => self.commit_fail(core, error, Ghost(a)),
                _ => self.fail(core, CacheError::Other, Ghost(a)),
            },
            FlushStage::RollingBack => match reply {
                ReplayReply::RolledBack => {
                    core.frame.frame_recover_enter();
                    self.stage = FlushStage::Recover;
                    proof {
                        assert(self@ =~= flush_answered(f, c, a, r).flush);
                        assert(core@ =~= flush_answered(f, c, a, r).core);
                    }
                    Ok(())
                },
                ReplayReply::Failed(error) => self.fail(core, error, Ghost(a)),
                _ => self.fail(core, CacheError::Other, Ghost(a)),
            },
            FlushStage::Truncating => match reply {
                ReplayReply::Sent => {
                    self.stage = FlushStage::Close;
                    proof {
                        assert(self@ =~= flush_answered(f, c, a, r).flush);
                    }
                    Ok(())
                },
                ReplayReply::Failed(error) => self.fail(core, error, Ghost(a)),
                _ => self.fail(core, CacheError::Other, Ghost(a)),
            },
            _ => match reply {
                ReplayReply::Failed(error) => self.fail(core, error, Ghost(a)),
                _ => self.fail(core, CacheError::Other, Ghost(a)),
            },
        }
    }
}

impl WriterCdc {
    /// Everything up to `lsn` is applied; an older LSN changes nothing.
    pub fn applied_lsn_advance(&mut self, lsn: u64)
        ensures
            final(self).last_applied_lsn == advanced(old(self).last_applied_lsn, lsn),
            final(self).statements == old(self).statements,
    {
        if lsn > self.last_applied_lsn {
            self.last_applied_lsn = lsn;
        }
    }
}

} // verus!
