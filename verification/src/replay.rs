//! Replaying the row events of a batch, in arrival order.
//!
//! Incomplete images are repaired first. Then the events are handled in
//! segments, each ending with a TRUNCATE: a TRUNCATE evicts queries, so the
//! questions about a segment's rows, which are asked together, never go past
//! one. A deadlock ends the replay, and the batch recovers; any other failure
//! is the caller's.
use vstd::prelude::*;

use crate::catalog::Row;
use crate::catalog::RowView;
use crate::deadlock::error_is_deadlock;
use crate::deadlock::is_deadlock;
use crate::dispatch::core_dirtied;
use crate::dispatch::deletion_tracked;
use crate::dispatch::membership_begun;
use crate::dispatch::membership_plan;
use crate::dispatch::relation_queries;
use crate::dispatch::EvalPlan;
use crate::dispatch::EvalView;
use crate::error::CacheError;
use crate::event::events_view;
use crate::event::EventView;
use crate::event::FrameRowEvent;
use crate::frame::chunk_sent;
use crate::frame::fingerprints_insert;
use crate::frame::recovery_entered;
use crate::frame::FrameState;
use crate::frame::FrameView;
use crate::handlers::delete_ops;
use crate::handlers::insert_checked;
use crate::handlers::insert_ops;
use crate::handlers::known_changes;
use crate::handlers::needs_changes;
use crate::handlers::toast_asked;
use crate::handlers::toast_flagged;
use crate::handlers::toast_ops;
use crate::handlers::truncate_ops;
use crate::handlers::update_checked;
use crate::handlers::update_memos;
use crate::handlers::update_ops;
use crate::handlers::UpdateStart;
use crate::handlers::WriterCdc;
use crate::invalidation::all_joins_covered;
use crate::invalidation::ColumnChange;
use crate::invalidation::RowChanges;
use crate::row_ops::core_flagged;
use crate::row_ops::op_applied;
use crate::row_ops::op_failure;
use crate::row_ops::op_sends;
use crate::row_ops::RowOp;
use crate::segment::PG_EVAL_CHUNK;
use crate::segment_eval::lesser;
use crate::segment_eval::segment_answered;
use crate::segment_eval::segment_ask;
use crate::segment_eval::segment_begun;
use crate::segment_eval::segment_step;
use crate::segment_eval::segment_wf;
use crate::segment_eval::ReplyView;
use crate::segment_eval::SegmentAsk;
use crate::segment_eval::SegmentEval;
use crate::segment_eval::SegmentReply;
use crate::segment_eval::SegmentView;
use crate::text::texts_clone;
use crate::toast::awaits_repair;
use crate::toast::is_pending;
use crate::toast::lookup_images;
use crate::toast::lookup_sql;
use crate::toast::pass_one;
use crate::toast::pass_one_queues_what_it_leaves;
use crate::toast::pass_two;
use crate::toast::pass_two_settles_its_slots;
use crate::toast::pending_view;
use crate::toast::raw_keys;
use crate::toast::rows_view;
use crate::toast::toast_lookup_rows;
use crate::toast::toast_lookup_sql;
use crate::toast::toast_pass_one;
use crate::toast::toast_pass_two;
use crate::toast::toasted_columns_names;
use crate::toast::toasted_names;
use crate::toast::LookupRow;
use crate::toast::LookupView;
use crate::toast::PassTwoView;
use crate::toast::PendingRepairSlot;
use crate::toast::PendingView;
use crate::writer_core::CoreView;
use crate::writer_core::WriterCore;

verus! {

broadcast use vstd::std_specs::hash::group_hash_axioms;

/// Where a replay stands.
#[derive(Clone, Copy, PartialEq, Eq, Structural)]
pub enum ReplayStage {
    /// Incomplete images are being repaired.
    Repair,
    /// The next segment is to begin.
    Segment,
    /// The segment's rows are being asked about.
    Questions,
    /// The next event is to begin.
    Event,
    /// What the UPDATE changed is being asked.
    Changes,
    /// The queries that each need an answer are being asked about the row.
    Fresh,
    /// The queries of which one match is enough are being asked.
    Rest,
    /// The queries over a row with an incomplete image are being asked.
    Toast,
    /// The event's steps are to be listed.
    Plan,
    /// The event's steps are being taken.
    Ops,
    /// The buffered writes are being sent.
    Sending,
    /// The cache transaction is being rolled back.
    RollingBack,
    /// Every event was handled, or the batch recovers.
    Done,
}

/// What a replay needs from outside.
#[derive(Clone, Copy, PartialEq, Eq, Structural)]
pub enum ReplayAsk {
    /// Nothing: go on.
    Continue,
    /// Read the cache table's images for pending repairs.
    Lookup,
    /// Ask about the segment's rows.
    Segment { ask: SegmentAsk },
    /// Ask what the current UPDATE changed.
    RowChanges,
    /// Ask the listed queries about the current row: each of them, or with
    /// `any` whether one holds it.
    Membership { any: bool },
    /// Send the buffered writes.
    Send,
    /// Roll the cache transaction back.
    Rollback,
    /// Nothing more.
    Done,
}

/// What came back from outside.
pub enum ReplayReply {
    /// The rows of a lookup; `None` when it failed.
    Lookup(Option<Vec<Row>>),
    /// An answer about the segment.
    Segment(SegmentReply),
    /// What the UPDATE changed; `None` when its row is not cached.
    Changes(Option<RowChanges>),
    /// For each asked query whether it holds the row, or one answer for all.
    Matches(Vec<bool>),
    /// The buffered writes were sent.
    Sent,
    /// The cache transaction was rolled back.
    RolledBack,
    /// What was asked failed.
    Failed(CacheError),
}

/// The mathematical value of a [`ReplayReply`].
pub enum ReplayReplyView {
    Lookup(Option<Seq<RowView>>),
    Segment(ReplyView),
    Changes(Option<Seq<ColumnChange>>),
    Matches(Seq<bool>),
    Sent,
    RolledBack,
    Failed(CacheError),
}

impl View for ReplayReply {
    type V = ReplayReplyView;

    open spec fn view(&self) -> ReplayReplyView {
        match self {
            ReplayReply::Lookup(Some(rows)) => ReplayReplyView::Lookup(Some(rows_view(rows@))),
            ReplayReply::Lookup(None) => ReplayReplyView::Lookup(None),
            ReplayReply::Segment(reply) => ReplayReplyView::Segment(reply@),
            ReplayReply::Changes(Some(changes)) => ReplayReplyView::Changes(Some(changes@)),
            ReplayReply::Changes(None) => ReplayReplyView::Changes(None),
            ReplayReply::Matches(matches) => ReplayReplyView::Matches(matches@),
            ReplayReply::Sent => ReplayReplyView::Sent,
            ReplayReply::RolledBack => ReplayReplyView::RolledBack,
            ReplayReply::Failed(error) => ReplayReplyView::Failed(*error),
        }
    }
}

/// A replay of row events.
pub struct Replay {
    pub stage: ReplayStage,
    pub events: Vec<FrameRowEvent>,
    /// Repairs that await the cache tables' images.
    pub pending: Vec<PendingRepairSlot>,
    /// The event being handled.
    pub next: usize,
    /// Where the current segment ends.
    pub end: usize,
    /// The answers about the current segment.
    pub eval: SegmentEval,
    /// Whether a query is known to hold the current row.
    pub matched: bool,
    pub fresh: Vec<u64>,
    pub rest: Vec<u64>,
    /// Queries that an incomplete image invalidates.
    pub flagged: Vec<u64>,
    pub asked_from: usize,
    /// The asked queries that hold the row.
    pub hits: Vec<u64>,
    pub ops: Vec<RowOp>,
    pub op_at: usize,
}

/// The mathematical value of a [`Replay`].
#[verifier::ext_equal]
pub struct ReplayView {
    pub stage: ReplayStage,
    pub events: Seq<EventView>,
    pub pending: Seq<PendingView>,
    pub next: int,
    pub end: int,
    pub eval: SegmentView,
    pub matched: bool,
    pub fresh: Seq<u64>,
    pub rest: Seq<u64>,
    pub flagged: Seq<u64>,
    pub asked_from: int,
    pub hits: Seq<u64>,
    pub ops: Seq<RowOp>,
    pub op_at: int,
}

impl View for Replay {
    type V = ReplayView;

    open spec fn view(&self) -> ReplayView {
        ReplayView {
            stage: self.stage,
            events: events_view(self.events@),
            pending: pending_view(self.pending@),
            next: self.next as int,
            end: self.end as int,
            eval: self.eval@,
            matched: self.matched,
            fresh: self.fresh@,
            rest: self.rest@,
            flagged: self.flagged@,
            asked_from: self.asked_from as int,
            hits: self.hits@,
            ops: self.ops@,
            op_at: self.op_at as int,
        }
    }
}

/// What a step or an answer leads to.
#[verifier::ext_equal]
pub struct Outcome {
    pub replay: ReplayView,
    pub core: CoreView,
    /// A failure that ends the replay and is not recovered from.
    pub error: Option<CacheError>,
}

/// No failure.
pub open spec fn going(replay: ReplayView, core: CoreView) -> Outcome {
    Outcome { replay, core, error: None }
}

/// A failure.
pub open spec fn failing(replay: ReplayView, core: CoreView, error: CacheError) -> Outcome {
    Outcome { replay, core, error: Some(error) }
}

/// The pending repairs of one relation (`inside`), or of the others, in order.
pub open spec fn slots_by_relation(pending: Seq<PendingView>, oid: u32, inside: bool) -> Seq<
    PendingView,
>
    decreases pending.len(),
{
    if pending.len() == 0 {
        pending
    } else {
        let rest = slots_by_relation(pending.drop_last(), oid, inside);
        if (pending.last().relation_oid == oid) == inside {
            rest.push(pending.last())
        } else {
            rest
        }
    }
}

/// The relation whose pending repairs come next, and those repairs.
pub open spec fn repair_group(r: ReplayView) -> Seq<PendingView> {
    slots_by_relation(r.pending, r.pending[0].relation_oid, true)
}

/// The lookup of the next pending repairs; `None` when the relation has no
/// usable key.
pub open spec fn repair_lookup(r: ReplayView, c: CoreView) -> Option<Seq<char>> {
    let oid = r.pending[0].relation_oid;
    if c.cache.tables.contains_key(oid) {
        lookup_sql(c.cache.tables[oid], raw_keys(repair_group(r)))
    } else {
        None
    }
}

/// The next pending repairs done with the given images.
pub open spec fn repaired(r: ReplayView, c: CoreView, images: Option<Seq<LookupView>>) -> Outcome {
    let oid = r.pending[0].relation_oid;
    let after = pass_two(c.frame.toast, r.events, c.cache.tables, images, repair_group(r));
    going(
        ReplayView {
            events: after.1,
            pending: slots_by_relation(r.pending, oid, false),
            ..r
        },
        CoreView { frame: FrameView { toast: after.0, ..c.frame }, ..c },
    )
}

/// Where the segment that begins at `from` ends: after its TRUNCATE, or with
/// the events.
pub open spec fn segment_end(events: Seq<EventView>, from: int) -> int
    decreases events.len() - from,
{
    if from >= events.len() || from < 0 {
        events.len() as int
    } else if events[from] is Truncate {
        from + 1
    } else {
        segment_end(events, from + 1)
    }
}

/// Where the rows of a segment end: before its TRUNCATE.
pub open spec fn rows_end(events: Seq<EventView>, end: int) -> int {
    if end > 0 && events[end - 1] is Truncate {
        end - 1
    } else {
        end
    }
}

/// The replay with the current event done.
pub open spec fn event_done(r: ReplayView) -> ReplayView {
    ReplayView { next: r.next + 1, stage: ReplayStage::Event, ..r }
}

/// The replay with the current row's evaluation begun.
pub open spec fn eval_begun(r: ReplayView, plan: EvalView) -> ReplayView {
    ReplayView {
        matched: plan.matched,
        fresh: plan.fresh,
        rest: plan.rest,
        asked_from: 0,
        hits: Seq::empty(),
        stage: ReplayStage::Fresh,
        ..r
    }
}

/// An INSERT begun.
pub open spec fn insert_started(r: ReplayView, c: CoreView, oid: u32, row: RowView) -> Outcome {
    if !c.cache.tables.contains_key(oid) {
        going(event_done(r), c)
    } else {
        let checked = insert_checked(c, oid, row);
        let m = r.eval.membership;
        let idx = r.next as usize;
        going(
            eval_begun(r, membership_plan(checked, m, idx, oid, row)),
            membership_begun(checked, m, idx, oid, row),
        )
    }
}

/// An UPDATE begun, with what the cache database said of its changes, if it
/// was asked.
pub open spec fn update_started(
    r: ReplayView,
    c: CoreView,
    oid: u32,
    key: RowView,
    row: RowView,
    answer: Option<Option<Seq<ColumnChange>>>,
) -> Outcome {
    let m = r.eval.membership;
    let idx = r.next as usize;
    if !c.cache.tables.contains_key(oid) {
        going(event_done(r), c)
    } else if !needs_changes(c.cache, oid) {
        let checked = update_memos(c, oid, key, row);
        going(
            eval_begun(r, membership_plan(checked, m, idx, oid, row)),
            membership_begun(checked, m, idx, oid, row),
        )
    } else {
        match known_changes(c, m, idx, oid, row, answer) {
            None => going(ReplayView { stage: ReplayStage::Changes, ..r }, c),
            Some(known) => if known matches Some(changes) && !all_joins_covered(
                relation_queries(c.cache, oid),
                c.cache.tables[oid],
                row,
                changes,
            ) {
                failing(r, c, CacheError::ColumnMissing)
            } else {
                let checked = update_checked(c, oid, key, row, known);
                going(
                    eval_begun(r, membership_plan(checked, m, idx, oid, row)),
                    membership_begun(checked, m, idx, oid, row),
                )
            },
        }
    }
}

/// An UPDATE with an incomplete image begun.
pub open spec fn toast_started(
    r: ReplayView,
    c: CoreView,
    oid: u32,
    key: RowView,
    row: RowView,
    toasted: Seq<Seq<char>>,
) -> Outcome {
    if !c.cache.tables.contains_key(oid) {
        going(event_done(r), c)
    } else {
        let queries = relation_queries(c.cache, oid);
        let table = c.cache.tables[oid];
        let recording = c.keys.contains_key(oid);
        going(
            ReplayView {
                flagged: toast_flagged(
                    queries,
                    table,
                    row,
                    key,
                    toasted,
                    c.frame.invalidations,
                    recording,
                ),
                fresh: toast_asked(
                    queries,
                    table,
                    row,
                    key,
                    toasted,
                    c.frame.invalidations,
                    recording,
                ),
                asked_from: 0,
                hits: Seq::empty(),
                stage: ReplayStage::Toast,
                ..r
            },
            c,
        )
    }
}

/// The names of the cells that an incomplete image lacks.
pub open spec fn missing_names(c: CoreView, oid: u32, toasted: Seq<usize>) -> Seq<Seq<char>> {
    if c.cache.tables.contains_key(oid) {
        toasted_names(c.cache.tables[oid].columns@, toasted)
    } else {
        Seq::empty()
    }
}

/// An event whose steps need no answer.
pub open spec fn steps_listed(r: ReplayView, ops: Seq<RowOp>) -> ReplayView {
    ReplayView { ops, op_at: 0, stage: ReplayStage::Ops, ..r }
}

/// The current event begun.
pub open spec fn event_started(r: ReplayView, c: CoreView) -> Outcome {
    match r.events[r.next] {
        EventView::Insert { relation_oid, row_data } => insert_started(
            r,
            c,
            relation_oid,
            row_data,
        ),
        EventView::Update { relation_oid, key_data, new_row_data } => update_started(
            r,
            c,
            relation_oid,
            key_data,
            new_row_data,
            None,
        ),
        EventView::UpdateToasted { relation_oid, key_data, new_row_data, toasted } => {
            toast_started(
                r,
                c,
                relation_oid,
                key_data,
                new_row_data,
                missing_names(c, relation_oid, toasted),
            )
        },
        EventView::UpdateToastFallback { relation_oid, key_data, new_row_data, toasted_columns }
            => toast_started(r, c, relation_oid, key_data, new_row_data, toasted_columns),
        EventView::Delete { relation_oid, .. } => going(
            steps_listed(r, delete_ops(c.cache.tables.contains_key(relation_oid))),
            c,
        ),
        EventView::Truncate { .. } => going(steps_listed(r, truncate_ops()), c),
        EventView::Boundary { .. } => going(steps_listed(r, seq![RowOp::Stamp]), c),
    }
}

/// The steps of the current event, once its row's membership is known.
pub open spec fn event_steps(r: ReplayView, c: CoreView) -> Seq<RowOp> {
    match r.events[r.next] {
        EventView::Insert { relation_oid, row_data } => insert_ops(
            r.matched,
            deletion_tracked(c, relation_oid, row_data),
        ),
        EventView::Update { relation_oid, key_data, .. } => update_ops(
            r.matched,
            c.keys.contains_key(relation_oid),
            key_data.len() > 0,
        ),
        EventView::UpdateToasted { relation_oid, key_data, .. } => toast_ops(
            c.keys.contains_key(relation_oid),
            key_data.len() > 0,
        ),
        EventView::UpdateToastFallback { relation_oid, key_data, .. } => toast_ops(
            c.keys.contains_key(relation_oid),
            key_data.len() > 0,
        ),
        _ => Seq::empty(),
    }
}

/// The queries a membership question is about.
pub open spec fn asked_chunk(fps: Seq<u64>, from: int) -> Seq<u64> {
    fps.subrange(from, lesser(from + PG_EVAL_CHUNK, fps.len() as int))
}

/// The asked queries that hold the row.
pub open spec fn matching(asked: Seq<u64>, matches: Seq<bool>) -> Seq<u64>
    decreases asked.len(),
{
    if asked.len() == 0 {
        asked
    } else {
        let rest = matching(asked.drop_last(), matches);
        let i = asked.len() - 1;
        if i < matches.len() && matches[i] {
            rest.push(asked[i])
        } else {
            rest
        }
    }
}

/// What a replay asks.
pub open spec fn replay_ask(r: ReplayView, c: CoreView) -> ReplayAsk {
    match r.stage {
        ReplayStage::Repair => if r.pending.len() > 0 && repair_lookup(r, c) is Some {
            ReplayAsk::Lookup
        } else {
            ReplayAsk::Continue
        },
        ReplayStage::Questions => match segment_ask(r.eval) {
            SegmentAsk::Continue => ReplayAsk::Continue,
            SegmentAsk::Done => ReplayAsk::Continue,
            ask => ReplayAsk::Segment { ask },
        },
        ReplayStage::Changes => ReplayAsk::RowChanges,
        ReplayStage::Fresh => if r.asked_from < r.fresh.len() {
            ReplayAsk::Membership { any: false }
        } else {
            ReplayAsk::Continue
        },
        ReplayStage::Rest => if !r.matched && r.asked_from < r.rest.len() {
            ReplayAsk::Membership { any: true }
        } else {
            ReplayAsk::Continue
        },
        ReplayStage::Toast => if r.asked_from < r.fresh.len() {
            ReplayAsk::Membership { any: false }
        } else {
            ReplayAsk::Continue
        },
        ReplayStage::Sending => ReplayAsk::Send,
        ReplayStage::RollingBack => ReplayAsk::Rollback,
        ReplayStage::Done => ReplayAsk::Done,
        _ => ReplayAsk::Continue,
    }
}

/// The next segment begun, or the replay done.
pub open spec fn segment_started(r: ReplayView, c: CoreView) -> ReplayView {
    if r.next >= r.events.len() || c.frame.state == FrameState::Recovering {
        ReplayView { stage: ReplayStage::Done, ..r }
    } else {
        let end = segment_end(r.events, r.next);
        let rows = rows_end(r.events, end);
        ReplayView {
            end,
            eval: segment_begun(r.events, r.next as usize, rows as usize),
            stage: if r.next < rows {
                ReplayStage::Questions
            } else {
                ReplayStage::Event
            },
            ..r
        }
    }
}

/// The next step of the current event taken.
pub open spec fn op_taken(r: ReplayView, c: CoreView) -> Outcome {
    let e = r.events[r.next];
    let op = r.ops[r.op_at];
    let after = op_applied(c, e, op);
    match op_failure(c, e, op) {
        Some(error) => failing(r, after, error),
        None => going(
            ReplayView {
                op_at: r.op_at + 1,
                stage: if op_sends(c, e, op) {
                    ReplayStage::Sending
                } else {
                    ReplayStage::Ops
                },
                ..r
            },
            after,
        ),
    }
}

/// What a step that asks nothing leads to.
#[verifier::opaque]
pub open spec fn replay_step(r: ReplayView, c: CoreView) -> Outcome {
    match r.stage {
        ReplayStage::Repair => if r.pending.len() == 0 {
            going(ReplayView { stage: ReplayStage::Segment, ..r }, c)
        } else if repair_lookup(r, c) is Some {
            going(r, c)
        } else {
            repaired(r, c, None)
        },
        ReplayStage::Segment => going(segment_started(r, c), c),
        ReplayStage::Questions => if segment_ask(r.eval) == SegmentAsk::Done {
            going(ReplayView { stage: ReplayStage::Event, ..r }, c)
        } else {
            going(ReplayView { eval: segment_step(r.eval, c, r.events), ..r }, c)
        },
        ReplayStage::Event => if c.frame.state == FrameState::Recovering {
            going(ReplayView { stage: ReplayStage::Done, ..r }, c)
        } else if r.next >= r.end {
            going(ReplayView { stage: ReplayStage::Segment, ..r }, c)
        } else {
            event_started(r, c)
        },
        ReplayStage::Changes => going(r, c),
        ReplayStage::Fresh => if r.asked_from < r.fresh.len() {
            going(r, c)
        } else {
            going(
                ReplayView {
                    matched: r.matched || r.hits.len() > 0,
                    asked_from: 0,
                    stage: ReplayStage::Rest,
                    ..r
                },
                core_dirtied(c, r.hits),
            )
        },
        ReplayStage::Rest => if !r.matched && r.asked_from < r.rest.len() {
            going(r, c)
        } else {
            going(ReplayView { stage: ReplayStage::Plan, ..r }, c)
        },
        ReplayStage::Toast => if r.asked_from < r.fresh.len() {
            going(r, c)
        } else {
            going(
                ReplayView { stage: ReplayStage::Plan, ..r },
                core_flagged(core_flagged(c, r.flagged), r.hits),
            )
        },
        ReplayStage::Plan => going(steps_listed(r, event_steps(r, c)), c),
        ReplayStage::Ops => if r.op_at < r.ops.len() {
            op_taken(r, c)
        } else {
            going(event_done(r), c)
        },
        ReplayStage::Sending => going(r, c),
        ReplayStage::RollingBack => going(r, c),
        ReplayStage::Done => going(r, c),
    }
}

/// Whether a step led from one state to another, and told what is asked.
pub open spec fn step_taken(
    r: ReplayView,
    c: CoreView,
    after: ReplayView,
    core: CoreView,
    ask: Result<ReplayAsk, CacheError>,
) -> bool {
    let o = replay_step(r, c);
    &&& after == o.replay
    &&& core == o.core
    &&& match ask {
        Ok(a) => o.error is None && a == replay_ask(r, c),
        Err(e) => o.error == Some(e),
    }
}

/// Whether an answer led to the given state.
pub open spec fn answer_taken(
    o: Outcome,
    after: ReplayView,
    core: CoreView,
    done: Result<(), CacheError>,
) -> bool {
    &&& after == o.replay
    &&& core == o.core
    &&& match done {
        Ok(_) => o.error is None,
        Err(e) => o.error == Some(e),
    }
}

/// The batch recovers: the replay is done.
pub open spec fn replay_recovering(r: ReplayView, c: CoreView) -> Outcome {
    going(
        ReplayView { stage: ReplayStage::Done, ..r },
        CoreView { frame: recovery_entered(c.frame), ..c },
    )
}

/// What a failed statement leads to: a deadlock makes the batch recover, once
/// what was sent is rolled back; anything else is the caller's.
pub open spec fn statement_failed(r: ReplayView, c: CoreView, error: CacheError) -> Outcome {
    if is_deadlock(error) && c.frame.state != FrameState::Recovering {
        if c.frame.chunk_flushed {
            going(ReplayView { stage: ReplayStage::RollingBack, ..r }, c)
        } else {
            replay_recovering(r, c)
        }
    } else {
        failing(r, c, error)
    }
}

/// What an answer to a membership question leads to.
pub open spec fn matches_taken(r: ReplayView, c: CoreView, matches: Seq<bool>) -> Outcome {
    if r.stage == ReplayStage::Rest {
        let asked = asked_chunk(r.rest, r.asked_from);
        going(
            ReplayView {
                matched: matches.contains(true),
                asked_from: r.asked_from + asked.len(),
                ..r
            },
            c,
        )
    } else {
        let asked = asked_chunk(r.fresh, r.asked_from);
        going(
            ReplayView {
                hits: r.hits + matching(asked, matches),
                asked_from: r.asked_from + asked.len(),
                ..r
            },
            c,
        )
    }
}

/// What an answer leads to. One that answers something else than what was
/// asked gives [`CacheError::Other`].
#[verifier::opaque]
pub open spec fn replay_answered(r: ReplayView, c: CoreView, reply: ReplayReplyView) -> Outcome {
    match (replay_ask(r, c), reply) {
        (ReplayAsk::Lookup, ReplayReplyView::Lookup(rows)) => repaired(
            r,
            c,
            match rows {
                Some(rows) => Some(
                    lookup_images(c.cache.tables[r.pending[0].relation_oid], rows),
                ),
                None => None,
            },
        ),
        (ReplayAsk::Segment { .. }, ReplayReplyView::Segment(answer)) => {
            match segment_answered(r.eval, answer) {
                Some(eval) => going(ReplayView { eval, ..r }, c),
                None => failing(r, c, CacheError::Other),
            }
        },
        (ReplayAsk::Segment { .. }, ReplayReplyView::Failed(error)) => {
            match segment_answered(r.eval, ReplyView::Failed) {
                Some(eval) => going(ReplayView { eval, ..r }, c),
                None => statement_failed(r, c, error),
            }
        },
        (ReplayAsk::RowChanges, ReplayReplyView::Changes(changes)) => match r.events[r.next] {
            EventView::Update { relation_oid, key_data, new_row_data } => update_started(
                r,
                c,
                relation_oid,
                key_data,
                new_row_data,
                Some(changes),
            ),
            _ => failing(r, c, CacheError::Other),
        },
        (ReplayAsk::RowChanges, ReplayReplyView::Failed(error)) => statement_failed(r, c, error),
        (ReplayAsk::Membership { .. }, ReplayReplyView::Matches(matches)) => matches_taken(
            r,
            c,
            matches,
        ),
        (ReplayAsk::Membership { .. }, ReplayReplyView::Failed(error)) => statement_failed(
            r,
            c,
            error,
        ),
        (ReplayAsk::Send, ReplayReplyView::Sent) => going(
            ReplayView { stage: ReplayStage::Ops, ..r },
            CoreView { frame: chunk_sent(c.frame), ..c },
        ),
        (ReplayAsk::Send, ReplayReplyView::Failed(error)) => statement_failed(r, c, error),
        (ReplayAsk::Rollback, ReplayReplyView::RolledBack) => replay_recovering(r, c),
        (ReplayAsk::Rollback, ReplayReplyView::Failed(error)) => failing(r, c, error),
        _ => failing(r, c, CacheError::Other),
    }
}

/// What every replay meets: an incomplete image is left only where its repair
/// is pending, and the cursors are within bounds.
pub open spec fn replay_wf(r: ReplayView) -> bool {
    &&& 0 <= r.next <= r.events.len() <= usize::MAX
    &&& r.end <= r.events.len()
    &&& segment_wf(r.eval, r.events.len())
    &&& r.stage == ReplayStage::Questions ==> r.next < r.end
    &&& 0 <= r.asked_from
    &&& 0 <= r.op_at <= r.ops.len()
    &&& forall|i: int|
        0 <= i < r.events.len() && awaits_repair(#[trigger] r.events[i]) ==> r.stage
            == ReplayStage::Repair && is_pending(r.pending, i)
    &&& match r.stage {
        ReplayStage::Changes => r.next < r.events.len() && r.events[r.next] is Update,
        ReplayStage::Fresh => r.next < r.events.len() && r.asked_from <= r.fresh.len(),
        ReplayStage::Rest => r.next < r.events.len() && (r.matched || r.asked_from
            <= r.rest.len()),
        ReplayStage::Toast => r.next < r.events.len() && r.asked_from <= r.fresh.len(),
        ReplayStage::Plan => r.next < r.events.len(),
        ReplayStage::Ops => r.next < r.events.len(),
        ReplayStage::Sending => r.next < r.events.len(),
        _ => true,
    }
}

/// A segment has an event, and a TRUNCATE only at its end.
pub proof fn lemma_segment_end(events: Seq<EventView>, from: int)
    requires
        0 <= from < events.len(),
    ensures
        from < segment_end(events, from) <= events.len(),
        forall|i: int|
            from <= i < segment_end(events, from) - 1 ==> !((#[trigger] events[i]) is Truncate),
    decreases events.len() - from,
{
    if !(events[from] is Truncate) {
        if from + 1 < events.len() {
            lemma_segment_end(events, from + 1);
        } else {
            assert(segment_end(events, from + 1) == events.len());
        }
    }
}

proof fn lemma_slots_cover(pending: Seq<PendingView>, oid: u32, i: int)
    ensures
        is_pending(pending, i) ==> is_pending(slots_by_relation(pending, oid, true), i)
            || is_pending(slots_by_relation(pending, oid, false), i),
        slots_by_relation(pending, oid, true).len() + slots_by_relation(pending, oid, false).len()
            == pending.len(),
    decreases pending.len(),
{
    if pending.len() > 0 {
        let short = pending.drop_last();
        lemma_slots_cover(short, oid, i);
        let x = pending.last();
        let inside = x.relation_oid == oid;
        let part = slots_by_relation(pending, oid, inside);
        let before = slots_by_relation(short, oid, inside);
        assert(part == before.push(x));
        assert(slots_by_relation(pending, oid, !inside) == slots_by_relation(short, oid, !inside));
        if is_pending(pending, i) {
            let k = choose|k: int| 0 <= k < pending.len() && (#[trigger] pending[k]).event_idx == i;
            if k < short.len() {
                assert(short[k].event_idx == i);
                if is_pending(before, i) {
                    let j = choose|j: int|
                        0 <= j < before.len() && (#[trigger] before[j]).event_idx == i;
                    assert(part[j].event_idx == i);
                }
            } else {
                assert(part[before.len() as int].event_idx == i);
            }
        }
    }
}

proof fn lemma_repaired_wf(r: ReplayView, c: CoreView, images: Option<Seq<LookupView>>)
    requires
        replay_wf(r),
        r.stage == ReplayStage::Repair,
        r.pending.len() > 0,
    ensures
        replay_wf(repaired(r, c, images).replay),
{
    let oid = r.pending[0].relation_oid;
    let start = PassTwoView { toast: c.frame.toast, events: r.events, chain: Map::empty() };
    pass_two_settles_its_slots(start, c.cache.tables, images, repair_group(r));
    let after = repaired(r, c, images).replay;
    assert forall|i: int| 0 <= i < after.events.len() && awaits_repair(
        #[trigger] after.events[i],
    ) implies is_pending(after.pending, i) by {
        assert(awaits_repair(r.events[i]));
        assert(is_pending(r.pending, i));
        lemma_slots_cover(r.pending, oid, i);
    }
}

proof fn lemma_event_wf(r: ReplayView, c: CoreView)
    requires
        replay_wf(r),
        r.stage == ReplayStage::Event,
        r.next < r.end,
    ensures
        replay_wf(event_started(r, c).replay),
{
    let after = event_started(r, c).replay;
    assert(after.events == r.events && after.pending == r.pending && after.eval == r.eval
        && after.end == r.end);
    assert(after.next == r.next || after.next == r.next + 1);
    assert(0 <= after.asked_from);
    assert(0 <= after.op_at <= after.ops.len());
}

/// A step keeps the replay well formed. In particular no event begins with an
/// incomplete image.
pub proof fn replay_step_keeps_wf(r: ReplayView, c: CoreView)
    requires
        replay_wf(r),
    ensures
        replay_wf(replay_step(r, c).replay),
{
    reveal(replay_step);
    match r.stage {
        ReplayStage::Repair => {
            if r.pending.len() == 0 {
                assert forall|i: int| 0 <= i < r.events.len() implies !awaits_repair(
                    #[trigger] r.events[i],
                ) by {
                    if awaits_repair(r.events[i]) {
                        assert(is_pending(r.pending, i));
                    }
                }
            } else {
                lemma_repaired_wf(r, c, None);
            }
        },
        ReplayStage::Segment => {
            if r.next < r.events.len() {
                lemma_segment_end(r.events, r.next);
            }
        },
        ReplayStage::Questions => {
            crate::segment_eval::segment_step_keeps_wf(r.eval, c, r.events);
        },
        ReplayStage::Event => {
            if r.next < r.end {
                lemma_event_wf(r, c);
            }
        },
        _ => {},
    }
}

/// An answer keeps the replay well formed.
pub proof fn replay_answer_keeps_wf(r: ReplayView, c: CoreView, reply: ReplayReplyView)
    requires
        replay_wf(r),
    ensures
        replay_wf(replay_answered(r, c, reply).replay),
{
    reveal(replay_answered);
    match (replay_ask(r, c), reply) {
        (ReplayAsk::Lookup, ReplayReplyView::Lookup(rows)) => {
            lemma_repaired_wf(
                r,
                c,
                match rows {
                    Some(rows) => Some(
                        lookup_images(c.cache.tables[r.pending[0].relation_oid], rows),
                    ),
                    None => None,
                },
            );
        },
        (ReplayAsk::Segment { .. }, ReplayReplyView::Segment(answer)) => {
            crate::segment_eval::segment_answer_keeps_wf(r.eval, answer, r.events.len());
        },
        (ReplayAsk::Segment { .. }, ReplayReplyView::Failed(_)) => {
            crate::segment_eval::segment_answer_keeps_wf(
                r.eval,
                ReplyView::Failed,
                r.events.len(),
            );
        },
        _ => {},
    }
}

/// A replay of the batch's events before anything was asked: the first pass of
/// the repair is done.
pub open spec fn replay_begun(c: CoreView) -> Outcome {
    let first = pass_one(c.frame.toast, c.cache.tables, c.frame.rows);
    going(
        ReplayView {
            stage: ReplayStage::Repair,
            events: first.events,
            pending: first.pending,
            next: 0,
            end: 0,
            eval: segment_begun(first.events, 0, 0),
            matched: false,
            fresh: Seq::empty(),
            rest: Seq::empty(),
            flagged: Seq::empty(),
            asked_from: 0,
            hits: Seq::empty(),
            ops: Seq::empty(),
            op_at: 0,
        },
        CoreView {
            frame: FrameView { rows: Seq::empty(), toast: first.toast, ..c.frame },
            ..c
        },
    )
}

fn slots_collect(pending: &Vec<PendingRepairSlot>, oid: u32, inside: bool) -> (slots: Vec<
    PendingRepairSlot,
>)
    ensures
        pending_view(slots@) == slots_by_relation(pending_view(pending@), oid, inside),
{
    let ghost view = pending_view(pending@);
    let mut slots: Vec<PendingRepairSlot> = Vec::new();
    let mut i: usize = 0;
    proof {
        assert(pending_view(slots@) =~= slots_by_relation(view.take(0), oid, inside));
    }
    while i < pending.len()
        invariant
            i <= pending.len(),
            view == pending_view(pending@),
            pending_view(slots@) == slots_by_relation(view.take(i as int), oid, inside),
        decreases pending.len() - i,
    {
        let slot = &pending[i];
        proof {
            assert(view.take(i + 1).drop_last() =~= view.take(i as int));
            assert(view.take(i + 1).last() == slot@);
        }
        if (slot.relation_oid == oid) == inside {
            let ghost before = pending_view(slots@);
            let copy = PendingRepairSlot {
                event_idx: slot.event_idx,
                relation_oid: slot.relation_oid,
                overlay_key: slot.overlay_key.clone(),
                raw_pk: texts_clone(&slot.raw_pk),
            };
            let ghost value = copy@;
            slots.push(copy);
            proof {
                assert(value == slot@);
                assert(pending_view(slots@) =~= before.push(value));
            }
        }
        i = i + 1;
    }
    proof {
        assert(view.take(i as int) =~= view);
    }
    slots
}

fn matching_collect(hits: &mut Vec<u64>, asked: &Vec<u64>, matches: &Vec<bool>)
    ensures
        final(hits)@ == old(hits)@ + matching(asked@, matches@),
{
    let ghost start = hits@;
    let mut i: usize = 0;
    proof {
        assert(start + matching(asked@.take(0), matches@) =~= start);
    }
    while i < asked.len()
        invariant
            i <= asked.len(),
            hits@ == start + matching(asked@.take(i as int), matches@),
        decreases asked.len() - i,
    {
        proof {
            assert(asked@.take(i + 1).drop_last() =~= asked@.take(i as int));
        }
        if i < matches.len() && matches[i] {
            hits.push(asked[i]);
        }
        proof {
            assert(hits@ =~= start + matching(asked@.take(i as int + 1), matches@));
        }
        i = i + 1;
    }
    proof {
        assert(asked@.take(i as int) =~= asked@);
    }
}

fn any_true(matches: &Vec<bool>) -> (found: bool)
    ensures
        found == matches@.contains(true),
{
    let mut i: usize = 0;
    while i < matches.len()
        invariant
            i <= matches.len(),
            forall|j: int| 0 <= j < i ==> !matches@[j],
        decreases matches.len() - i,
    {
        if matches[i] {
            assert(matches@[i as int]);
            return true;
        }
        i = i + 1;
    }
    false
}

fn segment_end_find(events: &Vec<FrameRowEvent>, from: usize) -> (end: usize)
    requires
        from < events@.len(),
    ensures
        end == segment_end(events_view(events@), from as int),
{
    let ghost view = events_view(events@);
    let mut i: usize = from;
    while i < events.len()
        invariant
            from <= i <= events@.len(),
            view == events_view(events@),
            segment_end(view, from as int) == segment_end(view, i as int),
        decreases events.len() - i,
    {
        proof {
            assert(view[i as int] == events@[i as int]@);
        }
        if let FrameRowEvent::Truncate { .. } = &events[i] {
            return i + 1;
        }
        i = i + 1;
    }
    i
}

impl Replay {
    /// Take the batch's events, and repair what the batch's own images can
    /// tell.
    pub fn begin(core: &mut WriterCore) -> (r: Replay)
        ensures
            r@ == replay_begun(old(core)@).replay,
            final(core)@ == replay_begun(old(core)@).core,
            replay_wf(r@),
    {
        let ghost c = core@;
        let mut rows: Vec<FrameRowEvent> = Vec::new();
        std::mem::swap(&mut rows, &mut core.frame.rows);
        let count: usize = rows.len();
        let ghost taken = events_view(rows@);
        let (events, pending) = toast_pass_one(&core.cache.tables, &mut core.frame.toast, rows);
        let eval = SegmentEval::new(&events, 0, 0);
        proof {
            pass_one_queues_what_it_leaves(c.frame.toast, c.cache.tables, taken);
            assert(events_view(core.frame.rows@) =~= Seq::<EventView>::empty());
            assert(core@ =~= replay_begun(c).core);
        }
        let r = Replay {
            stage: ReplayStage::Repair,
            events,
            pending,
            next: 0,
            end: 0,
            eval,
            matched: false,
            fresh: Vec::new(),
            rest: Vec::new(),
            flagged: Vec::new(),
            asked_from: 0,
            hits: Vec::new(),
            ops: Vec::new(),
            op_at: 0,
        };
        proof {
            assert(r@ =~= replay_begun(c).replay);
        }
        r
    }

    fn repair(&mut self, core: &mut WriterCore, images: Option<&Vec<LookupRow>>)
        requires
            old(self)@.pending.len() > 0,
        ensures
            ({
                let o = repaired(
                    old(self)@,
                    old(core)@,
                    match images {
                        Some(rows) => Some(crate::toast::lookup_view(rows@)),
                        None => None,
                    },
                );
                final(self)@ == o.replay && final(core)@ == o.core
            }),
    {
        let ghost r = self@;
        let ghost c = core@;
        let oid = self.pending[0].relation_oid;
        proof {
            assert(r.pending[0] == self.pending@[0]@);
        }
        let mine = slots_collect(&self.pending, oid, true);
        let others = slots_collect(&self.pending, oid, false);
        toast_pass_two(
            &core.cache.tables,
            &mut core.frame.toast,
            &mut self.events,
            images,
            &mine,
        );
        self.pending = others;
        proof {
            let images_v = match images {
                Some(rows) => Some(crate::toast::lookup_view(rows@)),
                None => None,
            };
            assert(self@ =~= repaired(r, c, images_v).replay);
            assert(core@ =~= repaired(r, c, images_v).core);
        }
    }

    /// The statement that reads the cache table's images for the next pending
    /// repairs. `None` when there is nothing to read.
    pub fn lookup(&self, core: &WriterCore) -> (sql: Option<String>)
        ensures
            match sql {
                Some(s) => self@.pending.len() > 0 && repair_lookup(self@, core@) == Some(s@),
                None => self@.pending.len() == 0 || repair_lookup(self@, core@) is None,
            },
    {
        if self.pending.len() == 0 {
            return None;
        }
        let oid = self.pending[0].relation_oid;
        proof {
            assert(self@.pending[0] == self.pending@[0]@);
        }
        let mine = slots_collect(&self.pending, oid, true);
        match core.cache.tables.get(&oid) {
            Some(table) => toast_lookup_sql(table, &mine),
            None => None,
        }
    }

    /// The queries the current membership question is about.
    pub fn asked_queries(&self) -> (fingerprints: Vec<u64>)
        requires
            self.stage == ReplayStage::Rest ==> self@.asked_from <= self@.rest.len(),
            self.stage != ReplayStage::Rest ==> self@.asked_from <= self@.fresh.len(),
        ensures
            fingerprints@ == (if self.stage == ReplayStage::Rest {
                asked_chunk(self@.rest, self@.asked_from)
            } else {
                asked_chunk(self@.fresh, self@.asked_from)
            }),
    {
        let list = if self.stage == ReplayStage::Rest {
            &self.rest
        } else {
            &self.fresh
        };
        crate::segment_eval::numbers_range(
            list,
            self.asked_from,
            crate::segment_eval::range_end(self.asked_from, PG_EVAL_CHUNK, list.len()),
        )
    }

    fn eval_begin(&mut self, plan: EvalPlan)
        ensures
            final(self)@ == eval_begun(old(self)@, plan@),
    {
        self.matched = plan.matched;
        self.fresh = plan.fresh;
        self.rest = plan.rest;
        self.asked_from = 0;
        self.hits = Vec::new();
        self.stage = ReplayStage::Fresh;
        proof {
            assert(self@ =~= eval_begun(old(self)@, plan@));
        }
    }

    fn update_begin(
        &mut self,
        cdc: &WriterCdc,
        core: &mut WriterCore,
        answer: Option<Option<RowChanges>>,
    ) -> (done: Result<(), CacheError>)
        requires
            replay_wf(old(self)@),
            old(self)@.next < old(self)@.events.len(),
            old(self)@.events[old(self)@.next] is Update,
        ensures
            ({
                let r = old(self)@;
                let o = match r.events[r.next] {
                    EventView::Update { relation_oid, key_data, new_row_data } => update_started(
                        r,
                        old(core)@,
                        relation_oid,
                        key_data,
                        new_row_data,
                        match answer {
                            Some(Some(a)) => Some(Some(a@)),
                            Some(None) => Some(None),
                            None => None,
                        },
                    ),
                    _ => going(r, old(core)@),
                };
                &&& final(self)@ == o.replay
                &&& final(core)@ == o.core
                &&& match done {
                    Ok(_) => o.error is None,
                    Err(e) => o.error == Some(e),
                }
            }),
    {
        let ghost r = self@;
        let ghost c = core@;
        proof {
            assert(r.events[r.next] == self.events@[r.next]@);
        }
        if let FrameRowEvent::Update { relation_oid, key_data, new_row_data } =
            &self.events[self.next] {
            let known = match &answer {
                Some(Some(changes)) => Some(Some(changes)),
                Some(None) => Some(None),
                None => None,
            };
            match cdc.handle_update(
                core,
                *relation_oid,
                key_data,
                new_row_data,
                &self.eval.membership,
                self.next,
                known,
            ) {
                Ok(UpdateStart::Skip) => {
                    self.next = self.next + 1;
                    self.stage = ReplayStage::Event;
                    proof {
                        assert(self@ =~= event_done(r));
                    }
                    Ok(())
                },
                Ok(UpdateStart::AskChanges) => {
                    self.stage = ReplayStage::Changes;
                    proof {
                        assert(self@ =~= (ReplayView { stage: ReplayStage::Changes, ..r }));
                    }
                    Ok(())
                },
                Ok(UpdateStart::Evaluate(plan)) => {
                    self.eval_begin(plan);
                    Ok(())
                },
                Err(error) => Err(error),
            }
        } else {
            Ok(())
        }
    }

    fn toast_begin(&mut self, cdc: &WriterCdc, core: &WriterCore)
        requires
            replay_wf(old(self)@),
            old(self)@.next < old(self)@.events.len(),
            old(self)@.events[old(self)@.next] is UpdateToasted || old(self)@.events[old(
                self,
            )@.next] is UpdateToastFallback,
        ensures
            ({
                let o = event_started(old(self)@, core@);
                final(self)@ == o.replay && core@ == o.core && o.error is None
            }),
    {
        let ghost r = self@;
        proof {
            assert(r.events[r.next] == self.events@[r.next]@);
        }
        let start = match &self.events[self.next] {
            FrameRowEvent::UpdateToasted { relation_oid, key_data, new_row_data, toasted } => {
                let names = match core.cache.tables.get(relation_oid) {
                    Some(table) => toasted_columns_names(table, toasted),
                    None => Vec::new(),
                };
                cdc.handle_update_toast_fallback(
                    core,
                    *relation_oid,
                    key_data,
                    new_row_data,
                    &names,
                )
            },
            FrameRowEvent::UpdateToastFallback {
                relation_oid,
                key_data,
                new_row_data,
                toasted_columns,
            } => cdc.handle_update_toast_fallback(
                core,
                *relation_oid,
                key_data,
                new_row_data,
                toasted_columns,
            ),
            _ => None,
        };
        match start {
            Some(s) => {
                self.flagged = s.flagged;
                self.fresh = s.asked;
                self.asked_from = 0;
                self.hits = Vec::new();
                self.stage = ReplayStage::Toast;
            },
            None => {
                self.next = self.next + 1;
                self.stage = ReplayStage::Event;
            },
        }
        proof {
            assert(self@ =~= event_started(r, core@).replay);
        }
    }

    fn steps_begin(&mut self, ops: Vec<RowOp>)
        ensures
            final(self)@ == steps_listed(old(self)@, ops@),
    {
        self.ops = ops;
        self.op_at = 0;
        self.stage = ReplayStage::Ops;
        proof {
            assert(self@ =~= steps_listed(old(self)@, ops@));
        }
    }

    fn event_begin(&mut self, cdc: &WriterCdc, core: &mut WriterCore) -> (done: Result<
        (),
        CacheError,
    >)
        requires
            replay_wf(old(self)@),
            old(self)@.next < old(self)@.events.len(),
        ensures
            ({
                let o = event_started(old(self)@, old(core)@);
                &&& final(self)@ == o.replay
                &&& final(core)@ == o.core
                &&& match done {
                    Ok(_) => o.error is None,
                    Err(e) => o.error == Some(e),
                }
            }),
    {
        let ghost r = self@;
        let ghost c = core@;
        proof {
            assert(r.events[r.next] == self.events@[r.next]@);
        }
        match &self.events[self.next] {
            FrameRowEvent::Insert { relation_oid, row_data } => {
                match cdc.handle_insert(
                    core,
                    *relation_oid,
                    row_data,
                    &self.eval.membership,
                    self.next,
                ) {
                    Some(plan) => {
                        self.eval_begin(plan);
                    },
                    None => {
                        self.next = self.next + 1;
                        self.stage = ReplayStage::Event;
                        proof {
                            assert(self@ =~= event_done(r));
                        }
                    },
                }
                Ok(())
            },
            FrameRowEvent::Update { .. } => self.update_begin(cdc, core, None),
            FrameRowEvent::UpdateToasted { .. } => {
                self.toast_begin(cdc, core);
                Ok(())
            },
            FrameRowEvent::UpdateToastFallback { .. } => {
                self.toast_begin(cdc, core);
                Ok(())
            },
            FrameRowEvent::Delete { relation_oid, .. } => {
                let ops = cdc.handle_delete(core, *relation_oid);
                self.steps_begin(ops);
                Ok(())
            },
            FrameRowEvent::Truncate { .. } => {
                let ops = cdc.handle_truncate();
                self.steps_begin(ops);
                Ok(())
            },
            FrameRowEvent::Boundary { .. } => {
                let ops = vec![RowOp::Stamp];
                proof {
                    assert(ops@ =~= seq![RowOp::Stamp]);
                }
                self.steps_begin(ops);
                Ok(())
            },
        }
    }

    fn steps_plan(&mut self, cdc: &WriterCdc, core: &WriterCore)
        requires
            old(self)@.next < old(self)@.events.len(),
        ensures
            final(self)@ == steps_listed(old(self)@, event_steps(old(self)@, core@)),
    {
        let ghost r = self@;
        proof {
            assert(r.events[r.next] == self.events@[r.next]@);
        }
        let matched = self.matched;
        let ops = match &self.events[self.next] {
            FrameRowEvent::Insert { relation_oid, row_data } => cdc.insert_finish(
                core,
                *relation_oid,
                row_data,
                matched,
            ),
            FrameRowEvent::Update { relation_oid, key_data, .. } => cdc.update_finish(
                core,
                *relation_oid,
                key_data,
                matched,
            ),
            FrameRowEvent::UpdateToasted { relation_oid, key_data, .. } => {
                cdc.toast_fallback_finish(core, *relation_oid, key_data)
            },
            FrameRowEvent::UpdateToastFallback { relation_oid, key_data, .. } => {
                cdc.toast_fallback_finish(core, *relation_oid, key_data)
            },
            _ => Vec::new(),
        };
        proof {
            assert(ops@ =~= event_steps(r, core@));
        }
        self.steps_begin(ops);
    }

    fn segment_begin(&mut self, core: &WriterCore)
        requires
            replay_wf(old(self)@),
            old(self).stage == ReplayStage::Segment,
        ensures
            final(self)@ == segment_started(old(self)@, core@),
    {
        let ghost r = self@;
        if self.next >= self.events.len() || core.frame.state == FrameState::Recovering {
            self.stage = ReplayStage::Done;
        } else {
            proof {
                lemma_segment_end(r.events, r.next);
            }
            let end = segment_end_find(&self.events, self.next);
            proof {
                assert(r.events[end - 1] == self.events@[end - 1]@);
            }
            let rows = match &self.events[end - 1] {
                FrameRowEvent::Truncate { .. } => end - 1,
                _ => end,
            };
            self.end = end;
            self.eval = SegmentEval::new(&self.events, self.next, rows);
            self.stage = if self.next < rows {
                ReplayStage::Questions
            } else {
                ReplayStage::Event
            };
        }
        proof {
            assert(self@ =~= segment_started(r, core@));
        }
    }

    fn op_take(&mut self, core: &mut WriterCore) -> (done: Result<(), CacheError>)
        requires
            replay_wf(old(self)@),
            old(self).stage == ReplayStage::Ops,
            old(self)@.op_at < old(self)@.ops.len(),
        ensures
            ({
                let o = op_taken(old(self)@, old(core)@);
                &&& final(self)@ == o.replay
                &&& final(core)@ == o.core
                &&& match done {
                    Ok(_) => o.error is None,
                    Err(e) => o.error == Some(e),
                }
            }),
    {
        let ghost r = self@;
        let ghost c = core@;
        proof {
            assert(r.events[r.next] == self.events@[r.next]@);
        }
        let count: usize = self.ops.len();
        match core.op_apply(&self.events[self.next], self.ops[self.op_at]) {
            Ok(send) => {
                assert(self.op_at < count);
                self.op_at = self.op_at + 1;
                self.stage = if send {
                    ReplayStage::Sending
                } else {
                    ReplayStage::Ops
                };
                proof {
                    assert(self@ =~= op_taken(r, c).replay);
                }
                Ok(())
            },
            Err(error) => Err(error),
        }
    }

    fn repair_step(&mut self, core: &mut WriterCore) -> (ask: Result<ReplayAsk, CacheError>)
        requires
            replay_wf(old(self)@),
            old(self).stage == ReplayStage::Repair,
        ensures
            step_taken(old(self)@, old(core)@, final(self)@, final(core)@, ask),
    {
        proof {
            reveal(replay_step);
        }
        let ghost r = self@;
        let ghost c = core@;
        if self.pending.len() == 0 {
            self.stage = ReplayStage::Segment;
            proof {
                assert(self@ =~= replay_step(r, c).replay);
            }
            return Ok(ReplayAsk::Continue);
        }
        match self.lookup(core) {
            Some(_) => Ok(ReplayAsk::Lookup),
            None => {
                self.repair(core, None);
                Ok(ReplayAsk::Continue)
            },
        }
    }

    fn questions_step(&mut self, core: &WriterCore) -> (ask: Result<ReplayAsk, CacheError>)
        requires
            replay_wf(old(self)@),
            old(self).stage == ReplayStage::Questions,
        ensures
            step_taken(old(self)@, core@, final(self)@, core@, ask),
    {
        proof {
            reveal(replay_step);
        }
        let ghost r = self@;
        let ghost c = core@;
        let ask = self.eval.step(core, &self.events);
        match ask {
            SegmentAsk::Done => {
                self.stage = ReplayStage::Event;
                proof {
                    assert(self@ =~= replay_step(r, c).replay);
                }
                Ok(ReplayAsk::Continue)
            },
            SegmentAsk::Continue => {
                proof {
                    assert(self@ =~= replay_step(r, c).replay);
                }
                Ok(ReplayAsk::Continue)
            },
            _ => {
                proof {
                    assert(self@ =~= replay_step(r, c).replay);
                }
                Ok(ReplayAsk::Segment { ask })
            },
        }
    }

    fn event_step(&mut self, cdc: &WriterCdc, core: &mut WriterCore) -> (ask: Result<
        ReplayAsk,
        CacheError,
    >)
        requires
            replay_wf(old(self)@),
            old(self).stage == ReplayStage::Event,
        ensures
            step_taken(old(self)@, old(core)@, final(self)@, final(core)@, ask),
    {
        proof {
            reveal(replay_step);
        }
        let ghost r = self@;
        let ghost c = core@;
        if core.frame.state == FrameState::Recovering {
            self.stage = ReplayStage::Done;
            proof {
                assert(self@ =~= replay_step(r, c).replay);
            }
            Ok(ReplayAsk::Continue)
        } else if self.next >= self.end {
            self.stage = ReplayStage::Segment;
            proof {
                assert(self@ =~= replay_step(r, c).replay);
            }
            Ok(ReplayAsk::Continue)
        } else {
            match self.event_begin(cdc, core) {
                Ok(_) => Ok(ReplayAsk::Continue),
                Err(error) => Err(error),
            }
        }
    }

    fn membership_step(&mut self, core: &mut WriterCore) -> (ask: Result<ReplayAsk, CacheError>)
        requires
            replay_wf(old(self)@),
            old(self).stage == ReplayStage::Fresh || old(self).stage == ReplayStage::Rest || old(
                self,
            ).stage == ReplayStage::Toast,
        ensures
            step_taken(old(self)@, old(core)@, final(self)@, final(core)@, ask),
    {
        proof {
            reveal(replay_step);
        }
        let ghost r = self@;
        let ghost c = core@;
        if self.stage == ReplayStage::Rest {
            if !self.matched && self.asked_from < self.rest.len() {
                return Ok(ReplayAsk::Membership { any: true });
            }
            self.stage = ReplayStage::Plan;
        } else if self.asked_from < self.fresh.len() {
            return Ok(ReplayAsk::Membership { any: false });
        } else if self.stage == ReplayStage::Fresh {
            core.cache.mv_dirty_mark_all(&self.hits);
            self.matched = self.matched || self.hits.len() > 0;
            self.asked_from = 0;
            self.stage = ReplayStage::Rest;
            proof {
                assert(core@ =~= core_dirtied(c, r.hits));
            }
        } else {
            fingerprints_insert(&mut core.frame.invalidations, &self.flagged);
            proof {
                assert(core@ =~= core_flagged(c, r.flagged));
            }
            fingerprints_insert(&mut core.frame.invalidations, &self.hits);
            self.stage = ReplayStage::Plan;
            proof {
                assert(core@ =~= core_flagged(core_flagged(c, r.flagged), r.hits));
            }
        }
        proof {
            assert(self@ =~= replay_step(r, c).replay);
        }
        Ok(ReplayAsk::Continue)
    }

    fn ops_step(&mut self, core: &mut WriterCore) -> (ask: Result<ReplayAsk, CacheError>)
        requires
            replay_wf(old(self)@),
            old(self).stage == ReplayStage::Ops,
        ensures
            step_taken(old(self)@, old(core)@, final(self)@, final(core)@, ask),
    {
        proof {
            reveal(replay_step);
        }
        let ghost r = self@;
        if self.op_at < self.ops.len() {
            match self.op_take(core) {
                Ok(_) => Ok(ReplayAsk::Continue),
                Err(error) => Err(error),
            }
        } else {
            self.next = self.next + 1;
            self.stage = ReplayStage::Event;
            proof {
                assert(self@ =~= event_done(r));
            }
            Ok(ReplayAsk::Continue)
        }
    }

    /// What the next step needs from outside.
    pub fn ask(&self, core: &WriterCore) -> (ask: ReplayAsk)
        ensures
            ask == replay_ask(self@, core@),
    {
        match self.stage {
            ReplayStage::Repair => match self.lookup(core) {
                Some(_) => ReplayAsk::Lookup,
                None => ReplayAsk::Continue,
            },
            ReplayStage::Questions => match self.eval.ask() {
                SegmentAsk::Continue => ReplayAsk::Continue,
                SegmentAsk::Done => ReplayAsk::Continue,
                ask => ReplayAsk::Segment { ask },
            },
            ReplayStage::Changes => ReplayAsk::RowChanges,
            ReplayStage::Fresh | ReplayStage::Toast => {
                if self.asked_from < self.fresh.len() {
                    ReplayAsk::Membership { any: false }
                } else {
                    ReplayAsk::Continue
                }
            },
            ReplayStage::Rest => {
                if !self.matched && self.asked_from < self.rest.len() {
                    ReplayAsk::Membership { any: true }
                } else {
                    ReplayAsk::Continue
                }
            },
            ReplayStage::Sending => ReplayAsk::Send,
            ReplayStage::RollingBack => ReplayAsk::Rollback,
            ReplayStage::Done => ReplayAsk::Done,
            _ => ReplayAsk::Continue,
        }
    }

    /// Take the next step; what is needed from outside before another. An
    /// error ends the replay.
    pub fn step(&mut self, cdc: &WriterCdc, core: &mut WriterCore) -> (ask: Result<
        ReplayAsk,
        CacheError,
    >)
        requires
            replay_wf(old(self)@),
        ensures
            step_taken(old(self)@, old(core)@, final(self)@, final(core)@, ask),
            replay_wf(final(self)@),
    {
        proof {
            reveal(replay_step);
        }
        let ghost r = self@;
        let ghost c = core@;
        proof {
            replay_step_keeps_wf(r, c);
        }
        match self.stage {
            ReplayStage::Repair => self.repair_step(core),
            ReplayStage::Segment => {
                self.segment_begin(core);
                Ok(ReplayAsk::Continue)
            },
            ReplayStage::Questions => self.questions_step(core),
            ReplayStage::Event => self.event_step(cdc, core),
            ReplayStage::Changes => Ok(ReplayAsk::RowChanges),
            ReplayStage::Fresh => self.membership_step(core),
            ReplayStage::Rest => self.membership_step(core),
            ReplayStage::Toast => self.membership_step(core),
            ReplayStage::Plan => {
                self.steps_plan(cdc, core);
                Ok(ReplayAsk::Continue)
            },
            ReplayStage::Ops => self.ops_step(core),
            ReplayStage::Sending => Ok(ReplayAsk::Send),
            ReplayStage::RollingBack => Ok(ReplayAsk::Rollback),
            ReplayStage::Done => Ok(ReplayAsk::Done),
        }
    }

    fn recover(&mut self, core: &mut WriterCore)
        ensures
            final(self)@ == replay_recovering(old(self)@, old(core)@).replay,
            final(core)@ == replay_recovering(old(self)@, old(core)@).core,
    {
        let ghost r = self@;
        let ghost c = core@;
        core.frame.frame_recover_enter();
        self.stage = ReplayStage::Done;
        proof {
            assert(self@ =~= replay_recovering(r, c).replay);
            assert(core@ =~= replay_recovering(r, c).core);
        }
    }

    fn statement_fail(&mut self, core: &mut WriterCore, error: CacheError) -> (done: Result<
        (),
        CacheError,
    >)
        ensures
            answer_taken(
                statement_failed(old(self)@, old(core)@, error),
                final(self)@,
                final(core)@,
                done,
            ),
    {
        let ghost r = self@;
        if error_is_deadlock(&error) && core.frame.state != FrameState::Recovering {
            if core.frame.chunk_flushed {
                self.stage = ReplayStage::RollingBack;
                proof {
                    assert(self@ =~= (ReplayView { stage: ReplayStage::RollingBack, ..r }));
                }
            } else {
                self.recover(core);
            }
            Ok(())
        } else {
            Err(error)
        }
    }

    fn lookup_take(&mut self, core: &mut WriterCore, rows: Option<Vec<Row>>)
        requires
            replay_wf(old(self)@),
            replay_ask(old(self)@, old(core)@) == ReplayAsk::Lookup,
        ensures
            ({
                let o = replay_answered(
                    old(self)@,
                    old(core)@,
                    ReplayReplyView::Lookup(
                        match rows {
                            Some(list) => Some(rows_view(list@)),
                            None => None,
                        },
                    ),
                );
                final(self)@ == o.replay && final(core)@ == o.core && o.error is None
            }),
    {
        proof {
            reveal(replay_answered);
        }
        let oid = self.pending[0].relation_oid;
        proof {
            assert(self@.pending[0] == self.pending@[0]@);
        }
        let images = match (core.cache.tables.get(&oid), &rows) {
            (Some(table), Some(list)) => Some(toast_lookup_rows(table, list)),
            _ => None,
        };
        match &images {
            Some(list) => self.repair(core, Some(list)),
            None => self.repair(core, None),
        }
    }

    fn matches_take(&mut self, matches: &Vec<bool>, core: Ghost<CoreView>)
        requires
            replay_wf(old(self)@),
            replay_ask(old(self)@, core@) is Membership,
        ensures
            final(self)@ == matches_taken(old(self)@, core@, matches@).replay,
    {
        let ghost r = self@;
        let asked = self.asked_queries();
        let total: usize = if self.stage == ReplayStage::Rest {
            self.rest.len()
        } else {
            self.fresh.len()
        };
        proof {
            assert(asked@.len() <= total - self.asked_from);
        }
        if self.stage == ReplayStage::Rest {
            self.matched = any_true(matches);
        } else {
            matching_collect(&mut self.hits, &asked, matches);
        }
        self.asked_from = self.asked_from + asked.len();
        proof {
            assert(self@ =~= matches_taken(r, core@, matches@).replay);
        }
    }

    fn segment_take(&mut self, core: &mut WriterCore, reply: ReplayReply) -> (done: Result<
        (),
        CacheError,
    >)
        requires
            replay_wf(old(self)@),
            replay_ask(old(self)@, old(core)@) is Segment,
        ensures
            answer_taken(
                replay_answered(old(self)@, old(core)@, reply@),
                final(self)@,
                final(core)@,
                done,
            ),
    {
        proof {
            reveal(replay_answered);
        }
        let ghost r = self@;
        let ghost c = core@;
        match reply {
            ReplayReply::Segment(answer) => {
                let ghost a = answer@;
                if self.eval.answer(answer, &self.events) {
                    proof {
                        assert(self@ =~= (ReplayView { eval: segment_answered(r.eval, a)->0, ..r }));
                    }
                    Ok(())
                } else {
                    proof {
                        assert(self@ =~= r);
                    }
                    Err(CacheError::Other)
                }
            },
            ReplayReply::Failed(error) => {
                if self.eval.answer(SegmentReply::Failed, &self.events) {
                    proof {
                        assert(self@ =~= (ReplayView {
                            eval: segment_answered(r.eval, ReplyView::Failed)->0,
                            ..r
                        }));
                    }
                    Ok(())
                } else {
                    proof {
                        assert(self@ =~= r);
                    }
                    self.statement_fail(core, error)
                }
            },
            _ => Err(CacheError::Other),
        }
    }

    /// Take in what came back from outside. An error ends the replay.
    pub fn answer(&mut self, cdc: &WriterCdc, core: &mut WriterCore, reply: ReplayReply) -> (done:
        Result<(), CacheError>)
        requires
            replay_wf(old(self)@),
        ensures
            answer_taken(
                replay_answered(old(self)@, old(core)@, reply@),
                final(self)@,
                final(core)@,
                done,
            ),
            replay_wf(final(self)@),
    {
        proof {
            reveal(replay_answered);
        }
        let ghost r = self@;
        let ghost c = core@;
        proof {
            replay_answer_keeps_wf(r, c, reply@);
        }
        match self.stage {
            ReplayStage::Repair => {
                match (self.lookup(core), reply) {
                    (Some(_), ReplayReply::Lookup(rows)) => {
                        self.lookup_take(core, rows);
                        Ok(())
                    },
                    _ => Err(CacheError::Other),
                }
            },
            ReplayStage::Questions => {
                match self.eval.ask() {
                    SegmentAsk::Continue => Err(CacheError::Other),
                    SegmentAsk::Done => Err(CacheError::Other),
                    _ => self.segment_take(core, reply),
                }
            },
            ReplayStage::Changes => match reply {
                ReplayReply::Changes(changes) => self.update_begin(cdc, core, Some(changes)),
                ReplayReply::Failed(error) => self.statement_fail(core, error),
                _ => Err(CacheError::Other),
            },
            ReplayStage::Fresh | ReplayStage::Toast | ReplayStage::Rest => {
                let open = if self.stage == ReplayStage::Rest {
                    !self.matched && self.asked_from < self.rest.len()
                } else {
                    self.asked_from < self.fresh.len()
                };
                if !open {
                    return Err(CacheError::Other);
                }
                match reply {
                    ReplayReply::Matches(matches) => {
                        self.matches_take(&matches, Ghost(c));
                        Ok(())
                    },
                    ReplayReply::Failed(error) => self.statement_fail(core, error),
                    _ => Err(CacheError::Other),
                }
            },
            ReplayStage::Sending => match reply {
                ReplayReply::Sent => {
                    core.frame.chunk_sent();
                    self.stage = ReplayStage::Ops;
                    proof {
                        assert(core@ =~= (CoreView { frame: chunk_sent(c.frame), ..c }));
                        assert(self@ =~= (ReplayView { stage: ReplayStage::Ops, ..r }));
                    }
                    Ok(())
                },
                ReplayReply::Failed(error) => self.statement_fail(core, error),
                _ => Err(CacheError::Other),
            },
            ReplayStage::RollingBack => match reply {
                ReplayReply::RolledBack => {
                    self.recover(core);
                    Ok(())
                },
                ReplayReply::Failed(error) => Err(error),
                _ => Err(CacheError::Other),
            },
            _ => Err(CacheError::Other),
        }
    }
}

} // verus!
