//! What holds of every flush.
use vstd::prelude::*;

use crate::cache::all_cdc_invalidated;
use crate::flush::advanced;
use crate::flush::batch_closed;
use crate::flush::bracket_open;
use crate::flush::bracket_stepped;
use crate::flush::core_bracketed;
use crate::flush::flush_answered;
use crate::flush::flush_ask;
use crate::flush::flush_step;
use crate::flush::FlushAsk;
use crate::flush::FlushStage;
use crate::flush::FlushView;
use crate::frame::FrameState;
use crate::replay::ReplayReplyView;
use crate::writer_core::CoreView;

verus! {

/// The watermark never falls, and it rises only when a batch has closed
/// without a failure, to the batch's LSN.
pub proof fn watermark_rises_only_with_a_closed_batch(
    f: FlushView,
    c: CoreView,
    applied: u64,
    reply: ReplayReplyView,
)
    ensures
        ({
            let stepped = flush_step(f, c, applied);
            let answered = flush_answered(f, c, applied, reply);
            &&& stepped.applied >= applied
            &&& stepped.applied != applied ==> f.stage == FlushStage::Close
                && stepped.flush.stage == FlushStage::Done && stepped.error is None
                && stepped.applied == f.lsn
            &&& answered.applied == applied
        }),
{
    reveal(flush_step);
    reveal(flush_answered);
}

/// A batch that has closed leaves nothing behind: the writer is between
/// batches, nothing is buffered or flagged, the watermark covers its LSN, and
/// both sides of the writer agree on it.
pub proof fn closed_batch_leaves_nothing(f: FlushView, c: CoreView, applied: u64)
    requires
        f.stage == FlushStage::Close,
    ensures
        ({
            let o = flush_step(f, c, applied);
            &&& o.error is None
            &&& o.applied == advanced(applied, f.lsn)
            &&& o.applied >= f.lsn
            &&& o.core.last_applied_lsn == o.applied
            &&& o.core.frame.state == FrameState::Idle
            &&& o.core.frame.rows.len() == 0
            &&& o.core.frame.buf.len() == 0
            &&& o.core.frame.invalidations.len() == 0
            &&& o.core.frame.memo_evictions.len() == 0
            &&& o.core.frame.relation_oids.len() == 0
            &&& o.core.frame.deleted_keys.len() == 0
            &&& o.core.frame.truncated_relations.len() == 0
            &&& o.core.frame.batch_truncated_relations.len() == 0
            &&& o.core.frame.batch_frames == 0
            &&& o.core.frame.batch_events == 0
            &&& !o.core.frame.chunk_flushed
            &&& o.core.frame.buf_relations == Set::<u32>::empty()
            &&& o.core.frame.batch_deleted_pks == Set::<crate::keymap::RowKey>::empty()
            &&& !o.core.cache.purge_pending
        }),
{
    reveal(flush_step);
}

/// The memos' bracket closes over exactly what it opened over: while it is
/// open, neither the relations nor the memos it covers change.
pub proof fn bracket_covers_the_same_memos(
    f: FlushView,
    c: CoreView,
    applied: u64,
    reply: ReplayReplyView,
)
    requires
        bracket_open(f.stage),
    ensures
        ({
            let stepped = flush_step(f, c, applied);
            &&& bracket_open(stepped.flush.stage) ==> stepped.flush.memo_active == f.memo_active
                && stepped.core.frame.relation_oids == c.frame.relation_oids
                && stepped.core.frame.memo_evictions == c.frame.memo_evictions
        }),
        ({
            let answered = flush_answered(f, c, applied, reply);
            &&& bracket_open(answered.flush.stage) ==> answered.flush.memo_active == f.memo_active
                && answered.core.frame.relation_oids == c.frame.relation_oids
                && answered.core.frame.memo_evictions == c.frame.memo_evictions
        }),
{
    reveal(flush_step);
    reveal(flush_answered);
}

proof fn lemma_step_closes(f: FlushView, c: CoreView, applied: u64)
    requires
        bracket_open(f.stage),
    ensures
        !bracket_open(flush_step(f, c, applied).flush.stage) ==> flush_step(
            f,
            c,
            applied,
        ).core.cache.memo == bracket_stepped(c.cache.memo, c.frame, f.memo_active),
{
    reveal(flush_step);
    let o = flush_step(f, c, applied);
    if f.stage == FlushStage::Close {
        let now = advanced(applied, f.lsn);
        assert(o.core == batch_closed(core_bracketed(c, f.memo_active), f.lsn, now));
    } else {
        assert(bracket_open(o.flush.stage));
    }
}

proof fn lemma_answer_closes(f: FlushView, c: CoreView, applied: u64, reply: ReplayReplyView)
    requires
        bracket_open(f.stage),
    ensures
        ({
            let answered = flush_answered(f, c, applied, reply);
            &&& !bracket_open(answered.flush.stage) ==> answered.core.cache.memo
                == bracket_stepped(c.cache.memo, c.frame, f.memo_active)
            &&& answered.error is Some ==> !bracket_open(answered.flush.stage)
        }),
{
    reveal(flush_answered);
    let o = flush_answered(f, c, applied, reply);
    if !bracket_open(o.flush.stage) {
        assert(o.core == core_bracketed(c, f.memo_active));
    }
}

/// The memos' bracket always closes: a flush whose bracket is open ends by
/// stepping the bracketed versions once more, whether it succeeds or fails.
pub proof fn bracket_always_closes(
    f: FlushView,
    c: CoreView,
    applied: u64,
    reply: ReplayReplyView,
)
    requires
        bracket_open(f.stage),
    ensures
        ({
            let closed = bracket_stepped(c.cache.memo, c.frame, f.memo_active);
            let stepped = flush_step(f, c, applied);
            let answered = flush_answered(f, c, applied, reply);
            &&& !bracket_open(stepped.flush.stage) ==> stepped.core.cache.memo == closed
            &&& !bracket_open(answered.flush.stage) ==> answered.core.cache.memo == closed
            &&& answered.error is Some ==> !bracket_open(answered.flush.stage)
        }),
{
    lemma_step_closes(f, c, applied);
    lemma_answer_closes(f, c, applied, reply);
}

/// A batch that lost its transaction is never committed: from there on the
/// flush only recovers and closes.
pub proof fn lost_transaction_is_recovered(
    f: FlushView,
    c: CoreView,
    applied: u64,
    reply: ReplayReplyView,
)
    requires
        bracket_open(f.stage),
        f.stage != FlushStage::Committing,
        f.stage != FlushStage::RollingBack,
        c.frame.state == FrameState::Recovering,
    ensures
        flush_ask(f, c) != FlushAsk::Commit,
        ({
            let stepped = flush_step(f, c, applied);
            &&& stepped.flush.stage != FlushStage::Committing
            &&& f.stage == FlushStage::Finalize ==> stepped.flush.stage == FlushStage::Recover
            &&& stepped.core.frame.state == FrameState::Recovering || stepped.flush.stage
                == FlushStage::Done
        }),
        ({
            let answered = flush_answered(f, c, applied, reply);
            &&& answered.flush.stage != FlushStage::Committing
            &&& answered.core.frame.state == FrameState::Recovering
        }),
{
    reveal(flush_step);
    reveal(flush_answered);
}

/// The flagged queries are invalidated before the batch's writes are
/// committed: whoever sees the writes finds them invalidated.
pub proof fn invalidations_precede_the_commit(f: FlushView, c: CoreView, applied: u64)
    requires
        f.stage == FlushStage::Finalize,
        c.frame.state == FrameState::TxnOpen,
    ensures
        ({
            let o = flush_step(f, c, applied);
            &&& o.flush.stage == FlushStage::Committing
            &&& o.core.cache == all_cdc_invalidated(c.cache, c.frame.invalidations, true)
            &&& o.core.frame.buf == c.frame.buf + "COMMIT"@
        }),
{
    reveal(flush_step);
}

} // verus!
