//! Asking the cache database about the rows of a segment, many at a time.
//!
//! A segment is asked relation by relation: first which queries hold its rows,
//! then what its updates changed. A question goes out as prepared statements
//! over a chunk of rows; where those fail, the chunk is asked again with its
//! values written out.
use std::collections::HashMap;

use vstd::prelude::*;

use crate::event::events_view;
use crate::event::EventView;
use crate::event::FrameRowEvent;
use crate::handlers::needs_changes;
use crate::invalidation::ColumnChange;
use crate::invalidation::RowChanges;
use crate::query::UpdateQuery;
use crate::segment::asked_relations;
use crate::segment::asked_relations_collect;
use crate::segment::asked_rows;
use crate::segment::asked_rows_collect;
use crate::segment::batch_empty;
use crate::segment::changes_view;
use crate::segment::lemma_asked_rows_bounded;
use crate::segment::membership_answered;
use crate::segment::ordinal_hits;
use crate::segment::ordinal_hits_fold;
use crate::segment::pair_hits;
use crate::segment::pair_hits_fold;
use crate::segment::relation_plan;
use crate::segment::relation_plan_build;
use crate::segment::rest_rows;
use crate::segment::rest_rows_select;
use crate::segment::BatchView;
use crate::segment::Hit;
use crate::segment::PlanView;
use crate::segment::RelationPlan;
use crate::segment::SegmentMembership;
use crate::segment::PG_EVAL_CHUNK;
use crate::segment::PG_EVAL_ROW_CHUNK;
use crate::writer_core::CoreView;
use crate::writer_core::WriterCore;

verus! {

broadcast use vstd::std_specs::hash::group_hash_axioms;

/// Where the questions about a segment stand.
#[derive(Clone, Copy, PartialEq, Eq, Structural)]
pub enum SegmentStage {
    /// The next relation's rows are to be planned.
    Relation,
    /// The relation's fresh queries, or the remaining ones, are asked for the
    /// next chunk of rows.
    Ask { rest: bool },
    /// The same chunk is asked again, values written out.
    Inline { rest: bool },
    /// The next relation's updates are to be planned.
    Changes,
    /// What the next chunk of updates changed is asked.
    ChangeRows,
    /// The same chunk is asked again, values written out.
    ChangeInline,
    /// Everything was asked.
    Done,
}

/// What to do next about a segment.
#[derive(Clone, Copy, PartialEq, Eq, Structural)]
pub enum SegmentAsk {
    /// Nothing outside: go on.
    Continue,
    /// Run the prepared statement of each asked query over the asked rows.
    Prepared,
    /// Run one statement over the asked queries and rows.
    Inline,
    /// Run the relation's prepared row-change statement over the asked rows.
    PreparedChanges,
    /// Run one row-change statement over the asked rows.
    InlineChanges,
    /// Everything was asked.
    Done,
}

/// What came back of a question.
pub enum SegmentReply {
    /// The ordinals of the matching rows, for each query whose statement
    /// succeeded; `complete` when all did.
    Ordinals { matches: Vec<(u64, Vec<i32>)>, complete: bool },
    /// The ordinals of the matching queries and rows.
    Pairs { matches: Vec<(usize, usize)> },
    /// What changed, by the row's ordinal.
    Changes { changes: Vec<(usize, RowChanges)> },
    /// The statement failed.
    Failed,
}

/// The questions about one segment, and the answers so far.
pub struct SegmentEval {
    pub from: usize,
    pub to: usize,
    pub stage: SegmentStage,
    /// The relations of the current kind of question.
    pub relations: Vec<u32>,
    pub at: usize,
    pub plan: RelationPlan,
    /// The rows of the current relation's questions.
    pub rows: Vec<usize>,
    pub row_from: usize,
    pub query_from: usize,
    pub hits: Vec<Hit>,
    pub changes: HashMap<usize, RowChanges>,
    pub membership: SegmentMembership,
}

/// The mathematical value of a [`SegmentEval`].
#[verifier::ext_equal]
pub struct SegmentView {
    pub from: usize,
    pub to: usize,
    pub stage: SegmentStage,
    pub relations: Seq<u32>,
    pub at: int,
    pub plan: PlanView,
    pub rows: Seq<usize>,
    pub row_from: int,
    pub query_from: int,
    pub hits: Seq<Hit>,
    pub changes: Map<usize, Seq<ColumnChange>>,
    pub membership: Map<u32, BatchView>,
}

impl View for SegmentEval {
    type V = SegmentView;

    open spec fn view(&self) -> SegmentView {
        SegmentView {
            from: self.from,
            to: self.to,
            stage: self.stage,
            relations: self.relations@,
            at: self.at as int,
            plan: self.plan@,
            rows: self.rows@,
            row_from: self.row_from as int,
            query_from: self.query_from as int,
            hits: self.hits@,
            changes: changes_view(self.changes@),
            membership: self.membership@,
        }
    }
}

/// The mathematical value of a [`SegmentReply`].
pub enum ReplyView {
    Ordinals { matches: Seq<(u64, Seq<i32>)>, complete: bool },
    Pairs { matches: Seq<(usize, usize)> },
    Changes { changes: Seq<(usize, Seq<ColumnChange>)> },
    Failed,
}

impl View for SegmentReply {
    type V = ReplyView;

    open spec fn view(&self) -> ReplyView {
        match self {
            SegmentReply::Ordinals { matches, complete } => ReplyView::Ordinals {
                matches: ordinals_view(matches@),
                complete: *complete,
            },
            SegmentReply::Pairs { matches } => ReplyView::Pairs { matches: matches@ },
            SegmentReply::Changes { changes } => ReplyView::Changes {
                changes: change_rows_view(changes@),
            },
            SegmentReply::Failed => ReplyView::Failed,
        }
    }
}

pub open spec fn ordinals_view(list: Seq<(u64, Vec<i32>)>) -> Seq<(u64, Seq<i32>)> {
    Seq::new(list.len(), |i: int| (list[i].0, list[i].1@))
}

pub open spec fn change_rows_view(list: Seq<(usize, RowChanges)>) -> Seq<
    (usize, Seq<ColumnChange>),
> {
    Seq::new(list.len(), |i: int| (list[i].0, list[i].1@))
}

pub open spec fn lesser(a: int, b: int) -> int {
    if a < b {
        a
    } else {
        b
    }
}

/// The rows a question is about.
pub open spec fn chunk_of(s: SegmentView) -> Seq<usize> {
    s.rows.subrange(s.row_from, lesser(s.row_from + PG_EVAL_ROW_CHUNK, s.rows.len() as int))
}

/// The fresh queries of the current relation, or the remaining ones.
pub open spec fn part_queries(s: SegmentView, rest: bool) -> Seq<u64> {
    if rest {
        s.plan.rest
    } else {
        s.plan.fresh
    }
}

/// The queries that one statement with its values written out is about.
pub open spec fn query_chunk_of(s: SegmentView, rest: bool) -> Seq<u64> {
    let fps = part_queries(s, rest);
    fps.subrange(s.query_from, lesser(s.query_from + PG_EVAL_CHUNK, fps.len() as int))
}

/// Whether a question about the current part is left.
pub open spec fn rows_left(s: SegmentView, rest: bool) -> bool {
    part_queries(s, rest).len() > 0 && s.row_from < s.rows.len()
}

/// What a state's next step asks.
pub open spec fn segment_ask(s: SegmentView) -> SegmentAsk {
    match s.stage {
        SegmentStage::Relation => SegmentAsk::Continue,
        SegmentStage::Ask { rest } => if rows_left(s, rest) {
            SegmentAsk::Prepared
        } else {
            SegmentAsk::Continue
        },
        SegmentStage::Inline { rest } => if s.query_from < part_queries(s, rest).len() {
            SegmentAsk::Inline
        } else {
            SegmentAsk::Continue
        },
        SegmentStage::Changes => SegmentAsk::Continue,
        SegmentStage::ChangeRows => if s.row_from < s.rows.len() {
            SegmentAsk::PreparedChanges
        } else {
            SegmentAsk::Continue
        },
        SegmentStage::ChangeInline => SegmentAsk::InlineChanges,
        SegmentStage::Done => SegmentAsk::Done,
    }
}

/// The answers for a relation, or none yet.
pub open spec fn batch_of(m: Map<u32, BatchView>, oid: u32) -> BatchView {
    if m.contains_key(oid) {
        m[oid]
    } else {
        batch_empty()
    }
}

/// The queries over a relation; none when it has none.
pub open spec fn queries_over(c: CoreView, oid: u32) -> Seq<UpdateQuery> {
    if c.cache.update_queries.contains_key(oid) {
        c.cache.update_queries[oid]
    } else {
        Seq::empty()
    }
}

/// The rows to ask the remaining queries for, once the fresh ones are
/// answered.
pub open spec fn rest_part_rows(s: SegmentView, c: CoreView, events: Seq<EventView>) -> Seq<usize> {
    if s.plan.rest.len() == 0 {
        Seq::empty()
    } else {
        rest_rows(
            events,
            queries_over(c, s.plan.relation_oid),
            c.frame.invalidations,
            s.plan.fresh,
            s.hits,
            s.rows,
        )
    }
}

/// Whether what the relation's updates changed is to be asked in batches.
pub open spec fn changes_wanted(c: CoreView, oid: u32) -> bool {
    &&& needs_changes(c.cache, oid)
    &&& c.cache.tables.contains_key(oid)
    &&& c.cache.tables[oid].primary_key_columns@.len() > 0
}

/// The state after a step that asks nothing.
pub open spec fn segment_step(s: SegmentView, c: CoreView, events: Seq<EventView>) -> SegmentView {
    match s.stage {
        SegmentStage::Relation => if s.at < s.relations.len() {
            match relation_plan(c.cache, events, s.relations[s.at], s.from as int, s.to as int) {
                Some(plan) => SegmentView {
                    plan,
                    rows: plan.rows,
                    row_from: 0,
                    hits: Seq::empty(),
                    stage: SegmentStage::Ask { rest: false },
                    ..s
                },
                None => SegmentView { at: s.at + 1, ..s },
            }
        } else {
            SegmentView {
                relations: asked_relations(events, true, s.from as int, s.to as int),
                at: 0,
                stage: SegmentStage::Changes,
                ..s
            }
        },
        SegmentStage::Ask { rest } => if rows_left(s, rest) {
            s
        } else if !rest {
            SegmentView {
                rows: rest_part_rows(s, c, events),
                row_from: 0,
                stage: SegmentStage::Ask { rest: true },
                ..s
            }
        } else {
            SegmentView {
                membership: s.membership.insert(
                    s.plan.relation_oid,
                    membership_answered(
                        batch_of(s.membership, s.plan.relation_oid),
                        s.plan,
                        s.rows,
                        s.hits,
                    ),
                ),
                at: s.at + 1,
                stage: SegmentStage::Relation,
                ..s
            }
        },
        SegmentStage::Inline { rest } => if s.query_from < part_queries(s, rest).len() {
            s
        } else {
            SegmentView {
                row_from: s.row_from + chunk_of(s).len(),
                stage: SegmentStage::Ask { rest },
                ..s
            }
        },
        SegmentStage::Changes => if s.at < s.relations.len() {
            let oid = s.relations[s.at];
            if changes_wanted(c, oid) {
                SegmentView {
                    rows: asked_rows(
                        events,
                        true,
                        oid,
                        c.cache.tables[oid].columns@.len(),
                        s.from as int,
                        s.to as int,
                    ),
                    row_from: 0,
                    changes: Map::empty(),
                    stage: SegmentStage::ChangeRows,
                    ..s
                }
            } else {
                SegmentView { at: s.at + 1, ..s }
            }
        } else {
            SegmentView { stage: SegmentStage::Done, ..s }
        },
        SegmentStage::ChangeRows => if s.row_from < s.rows.len() {
            s
        } else {
            let oid = s.relations[s.at];
            let b = batch_of(s.membership, oid);
            SegmentView {
                membership: s.membership.insert(
                    oid,
                    BatchView {
                        row_change_covered: b.row_change_covered + s.rows,
                        row_changes: s.changes,
                        ..b
                    },
                ),
                changes: Map::empty(),
                at: s.at + 1,
                stage: SegmentStage::Changes,
                ..s
            }
        },
        SegmentStage::ChangeInline => s,
        SegmentStage::Done => s,
    }
}

/// The matches of several queries' statements, one after the other.
pub open spec fn all_ordinal_hits(list: Seq<(u64, Seq<i32>)>, chunk: Seq<usize>) -> Seq<Hit>
    decreases list.len(),
{
    if list.len() == 0 {
        Seq::empty()
    } else {
        all_ordinal_hits(list.drop_last(), chunk) + ordinal_hits(
            list.last().1,
            chunk,
            list.last().0,
        )
    }
}

/// What changed, by event. A row outside the chunk is ignored.
pub open spec fn changes_noted(
    m: Map<usize, Seq<ColumnChange>>,
    list: Seq<(usize, Seq<ColumnChange>)>,
    chunk: Seq<usize>,
) -> Map<usize, Seq<ColumnChange>>
    decreases list.len(),
{
    if list.len() == 0 {
        m
    } else {
        let rest = changes_noted(m, list.drop_last(), chunk);
        if list.last().0 < chunk.len() {
            rest.insert(chunk[list.last().0 as int], list.last().1)
        } else {
            rest
        }
    }
}

/// The state after a question was answered; `None` when the segment cannot be
/// evaluated.
pub open spec fn segment_answered(s: SegmentView, reply: ReplyView) -> Option<SegmentView> {
    let chunk = chunk_of(s);
    match (segment_ask(s), reply) {
        (SegmentAsk::Prepared, ReplyView::Ordinals { matches, complete }) => {
            let hits = s.hits + all_ordinal_hits(matches, chunk);
            let rest = s.stage->Ask_rest;
            Some(
                if complete {
                    SegmentView { hits, row_from: s.row_from + chunk.len(), ..s }
                } else {
                    SegmentView { hits, query_from: 0, stage: SegmentStage::Inline { rest }, ..s }
                },
            )
        },
        (SegmentAsk::Prepared, _) => Some(
            SegmentView {
                query_from: 0,
                stage: SegmentStage::Inline { rest: s.stage->Ask_rest },
                ..s
            },
        ),
        (SegmentAsk::Inline, ReplyView::Pairs { matches }) => {
            let queries = query_chunk_of(s, s.stage->Inline_rest);
            Some(
                SegmentView {
                    hits: s.hits + pair_hits(matches, queries, chunk),
                    query_from: s.query_from + queries.len(),
                    ..s
                },
            )
        },
        (SegmentAsk::PreparedChanges, ReplyView::Changes { changes }) => Some(
            SegmentView {
                changes: changes_noted(s.changes, changes, chunk),
                row_from: s.row_from + chunk.len(),
                ..s
            },
        ),
        (SegmentAsk::PreparedChanges, _) => Some(
            SegmentView { stage: SegmentStage::ChangeInline, ..s },
        ),
        (SegmentAsk::InlineChanges, ReplyView::Changes { changes }) => Some(
            SegmentView {
                changes: changes_noted(s.changes, changes, chunk),
                row_from: s.row_from + chunk.len(),
                stage: SegmentStage::ChangeRows,
                ..s
            },
        ),
        _ => None,
    }
}

/// The questions about the rows `from..to` before any was asked.
pub open spec fn segment_begun(events: Seq<EventView>, from: usize, to: usize) -> SegmentView {
    SegmentView {
        from,
        to,
        stage: SegmentStage::Relation,
        relations: asked_relations(events, false, from as int, to as int),
        at: 0,
        plan: PlanView {
            relation_oid: 0,
            fresh: Seq::empty(),
            rest: Seq::empty(),
            rows: Seq::empty(),
        },
        rows: Seq::empty(),
        row_from: 0,
        query_from: 0,
        hits: Seq::empty(),
        changes: Map::empty(),
        membership: Map::empty(),
    }
}

/// What every state of the questions about a segment of `events` meets.
pub open spec fn segment_wf(s: SegmentView, events: nat) -> bool {
    &&& s.from <= s.to <= events
    &&& 0 <= s.at <= s.relations.len()
    &&& 0 <= s.row_from <= s.rows.len()
    &&& 0 <= s.query_from
    &&& forall|i: int| 0 <= i < s.rows.len() ==> (#[trigger] s.rows[i]) < events
    &&& match s.stage {
        SegmentStage::Relation => true,
        SegmentStage::Ask { rest } => {
            &&& s.at < s.relations.len()
            &&& !rest ==> s.rows == s.plan.rows
        },
        SegmentStage::Inline { rest } => {
            &&& s.at < s.relations.len()
            &&& !rest ==> s.rows == s.plan.rows
            &&& s.row_from < s.rows.len()
            &&& s.query_from <= part_queries(s, rest).len()
        },
        SegmentStage::Changes => true,
        SegmentStage::ChangeRows => s.at < s.relations.len(),
        SegmentStage::ChangeInline => s.at < s.relations.len() && s.row_from < s.rows.len(),
        SegmentStage::Done => true,
    }
}

proof fn lemma_rest_rows_bounded(
    events: Seq<EventView>,
    queries: Seq<UpdateQuery>,
    invalidations: Seq<u64>,
    fresh: Seq<u64>,
    hits: Seq<Hit>,
    rows: Seq<usize>,
    bound: nat,
)
    requires
        forall|i: int| 0 <= i < rows.len() ==> (#[trigger] rows[i]) < bound,
    ensures
        forall|i: int|
            0 <= i < rest_rows(events, queries, invalidations, fresh, hits, rows).len() ==> (
            #[trigger] rest_rows(events, queries, invalidations, fresh, hits, rows)[i]) < bound,
    decreases rows.len(),
{
    if rows.len() > 0 {
        let short = rows.drop_last();
        assert forall|i: int| 0 <= i < short.len() implies (#[trigger] short[i]) < bound by {
            assert(rows[i] < bound);
        }
        lemma_rest_rows_bounded(events, queries, invalidations, fresh, hits, short, bound);
        let rest = rest_rows(events, queries, invalidations, fresh, hits, short);
        let all = rest_rows(events, queries, invalidations, fresh, hits, rows);
        assert(rows[rows.len() - 1] < bound);
        assert forall|i: int| 0 <= i < all.len() implies (#[trigger] all[i]) < bound by {
            if i < rest.len() {
                assert(all[i] == rest[i]);
            }
        }
    }
}

/// A step keeps the state well formed.
pub proof fn segment_step_keeps_wf(s: SegmentView, c: CoreView, events: Seq<EventView>)
    requires
        segment_wf(s, events.len()),
        events.len() <= usize::MAX,
    ensures
        segment_wf(segment_step(s, c, events), events.len()),
{
    match s.stage {
        SegmentStage::Relation => {
            if s.at < s.relations.len() {
                let oid = s.relations[s.at];
                lemma_asked_rows_bounded(
                    events,
                    false,
                    oid,
                    c.cache.tables[oid].columns@.len(),
                    s.from as int,
                    s.to as int,
                );
            }
        },
        SegmentStage::Ask { rest } => {
            lemma_rest_rows_bounded(
                events,
                queries_over(c, s.plan.relation_oid),
                c.frame.invalidations,
                s.plan.fresh,
                s.hits,
                s.rows,
                events.len(),
            );
        },
        SegmentStage::Changes => {
            if s.at < s.relations.len() {
                let oid = s.relations[s.at];
                lemma_asked_rows_bounded(
                    events,
                    true,
                    oid,
                    c.cache.tables[oid].columns@.len(),
                    s.from as int,
                    s.to as int,
                );
            }
        },
        _ => {},
    }
}

/// An answer keeps the state well formed.
pub proof fn segment_answer_keeps_wf(s: SegmentView, reply: ReplyView, events: nat)
    requires
        segment_wf(s, events),
    ensures
        segment_answered(s, reply) matches Some(next) ==> segment_wf(next, events),
{
}

/// The numbers from `from` up to `to`.
pub fn numbers_range(list: &Vec<u64>, from: usize, to: usize) -> (part: Vec<u64>)
    requires
        from <= to <= list@.len(),
    ensures
        part@ == list@.subrange(from as int, to as int),
{
    let mut part: Vec<u64> = Vec::new();
    let mut i: usize = from;
    while i < to
        invariant
            from <= i <= to <= list@.len(),
            part@ =~= list@.subrange(from as int, i as int),
        decreases to - i,
    {
        part.push(list[i]);
        i = i + 1;
    }
    part
}

fn positions_range(list: &Vec<usize>, from: usize, to: usize) -> (part: Vec<usize>)
    requires
        from <= to <= list@.len(),
    ensures
        part@ == list@.subrange(from as int, to as int),
{
    let mut part: Vec<usize> = Vec::new();
    let mut i: usize = from;
    while i < to
        invariant
            from <= i <= to <= list@.len(),
            part@ =~= list@.subrange(from as int, i as int),
        decreases to - i,
    {
        part.push(list[i]);
        i = i + 1;
    }
    part
}

/// Where the next `step` of `len` end.
pub fn range_end(from: usize, step: usize, len: usize) -> (end: usize)
    requires
        from <= len,
    ensures
        end == lesser(from + step, len as int),
{
    if len - from < step {
        len
    } else {
        from + step
    }
}

fn all_ordinals_fold(hits: &mut Vec<Hit>, list: &Vec<(u64, Vec<i32>)>, chunk: &Vec<usize>)
    ensures
        final(hits)@ == old(hits)@ + all_ordinal_hits(ordinals_view(list@), chunk@),
{
    let ghost start = hits@;
    let ghost view = ordinals_view(list@);
    let mut i: usize = 0;
    proof {
        assert(start + all_ordinal_hits(view.take(0), chunk@) =~= start);
    }
    while i < list.len()
        invariant
            i <= list.len(),
            view == ordinals_view(list@),
            hits@ == start + all_ordinal_hits(view.take(i as int), chunk@),
        decreases list.len() - i,
    {
        proof {
            assert(view.take(i + 1).drop_last() =~= view.take(i as int));
            assert(view.take(i + 1).last() == (list@[i as int].0, list@[i as int].1@));
        }
        let item = &list[i];
        ordinal_hits_fold(hits, &item.1, chunk, item.0);
        proof {
            assert(hits@ =~= start + all_ordinal_hits(view.take(i + 1), chunk@));
        }
        i = i + 1;
    }
    proof {
        assert(view.take(i as int) =~= view);
    }
}

fn changes_note(
    noted: &mut HashMap<usize, RowChanges>,
    list: Vec<(usize, RowChanges)>,
    chunk: &Vec<usize>,
)
    ensures
        changes_view(final(noted)@) == changes_noted(
            changes_view(old(noted)@),
            change_rows_view(list@),
            chunk@,
        ),
{
    let ghost start = changes_view(noted@);
    let ghost view = change_rows_view(list@);
    let ghost whole = list@;
    proof {
        assert(view.take(0) =~= Seq::<(usize, Seq<ColumnChange>)>::empty());
    }
    for item in it: list
        invariant
            it.seq() == whole,
            view == change_rows_view(whole),
            changes_view(noted@) == changes_noted(start, view.take(it.index() as int), chunk@),
    {
        let ghost i = it.index();
        proof {
            assert(view.take(i + 1).drop_last() =~= view.take(i as int));
            assert(view.take(i + 1).last() == (item.0, item.1@));
        }
        let (local, changes) = item;
        if local < chunk.len() {
            let ghost before = noted@;
            let ghost value = changes;
            noted.insert(chunk[local], changes);
            proof {
                assert(changes_view(before.insert(chunk@[local as int], value)) =~= changes_view(
                    before,
                ).insert(chunk@[local as int], value@));
            }
        }
    }
    proof {
        assert(view.take(view.len() as int) =~= view);
    }
}

impl SegmentEval {
    /// The questions about the rows `from..to`.
    pub fn new(events: &Vec<FrameRowEvent>, from: usize, to: usize) -> (s: SegmentEval)
        requires
            from <= to <= events@.len(),
        ensures
            s@ == segment_begun(events_view(events@), from, to),
            segment_wf(s@, events@.len()),
    {
        let s = SegmentEval {
            from,
            to,
            stage: SegmentStage::Relation,
            relations: asked_relations_collect(events, false, from, to),
            at: 0,
            plan: RelationPlan {
                relation_oid: 0,
                fresh: Vec::new(),
                rest: Vec::new(),
                rows: Vec::new(),
            },
            rows: Vec::new(),
            row_from: 0,
            query_from: 0,
            hits: Vec::new(),
            changes: HashMap::new(),
            membership: SegmentMembership::new(),
        };
        proof {
            let none = segment_begun(events_view(events@), from, to).plan;
            assert(s.plan@.fresh =~= none.fresh);
            assert(s.plan@.rest =~= none.rest);
            assert(s.plan@.rows =~= none.rows);
            assert(s@ =~= segment_begun(events_view(events@), from, to));
        }
        s
    }

    /// The events whose rows the current question is about.
    pub fn asked_rows(&self) -> (rows: Vec<usize>)
        requires
            self@.row_from <= self@.rows.len(),
        ensures
            rows@ == chunk_of(self@),
    {
        let end = range_end(self.row_from, PG_EVAL_ROW_CHUNK, self.rows.len());
        positions_range(&self.rows, self.row_from, end)
    }

    /// The queries the current question is about; none when it is about
    /// changes.
    pub fn asked_queries(&self) -> (fingerprints: Vec<u64>)
        requires
            self.stage is Inline ==> self@.query_from <= part_queries(
                self@,
                self.stage->Inline_rest,
            ).len(),
        ensures
            fingerprints@ == (match self.stage {
                SegmentStage::Ask { rest } => part_queries(self@, rest),
                SegmentStage::Inline { rest } => query_chunk_of(self@, rest),
                _ => Seq::<u64>::empty(),
            }),
    {
        let none: Vec<u64> = Vec::new();
        match self.stage {
            SegmentStage::Ask { rest } => {
                let fps = if rest {
                    &self.plan.rest
                } else {
                    &self.plan.fresh
                };
                let part = numbers_range(fps, 0, fps.len());
                proof {
                    assert(part@ =~= fps@);
                }
                part
            },
            SegmentStage::Inline { rest } => {
                let fps = if rest {
                    &self.plan.rest
                } else {
                    &self.plan.fresh
                };
                numbers_range(
                    fps,
                    self.query_from,
                    range_end(self.query_from, PG_EVAL_CHUNK, fps.len()),
                )
            },
            _ => none,
        }
    }

    /// The relation the current question is about.
    pub fn asked_relation(&self) -> (oid: Option<u32>)
        ensures
            oid == (if self@.at < self@.relations.len() {
                Some(self@.relations[self@.at])
            } else {
                None
            }),
    {
        if self.at < self.relations.len() {
            Some(self.relations[self.at])
        } else {
            None
        }
    }

    /// What the next step asks.
    pub fn ask(&self) -> (ask: SegmentAsk)
        ensures
            ask == segment_ask(self@),
    {
        match self.stage {
            SegmentStage::Relation => SegmentAsk::Continue,
            SegmentStage::Ask { rest } => {
                let asked = if rest {
                    self.plan.rest.len()
                } else {
                    self.plan.fresh.len()
                };
                if asked > 0 && self.row_from < self.rows.len() {
                    SegmentAsk::Prepared
                } else {
                    SegmentAsk::Continue
                }
            },
            SegmentStage::Inline { rest } => {
                let asked = if rest {
                    self.plan.rest.len()
                } else {
                    self.plan.fresh.len()
                };
                if self.query_from < asked {
                    SegmentAsk::Inline
                } else {
                    SegmentAsk::Continue
                }
            },
            SegmentStage::Changes => SegmentAsk::Continue,
            SegmentStage::ChangeRows => if self.row_from < self.rows.len() {
                SegmentAsk::PreparedChanges
            } else {
                SegmentAsk::Continue
            },
            SegmentStage::ChangeInline => SegmentAsk::InlineChanges,
            SegmentStage::Done => SegmentAsk::Done,
        }
    }

    fn changes_wanted(&self, core: &WriterCore, oid: u32) -> (wanted: Option<usize>)
        ensures
            wanted == (if changes_wanted(core@, oid) {
                Some(core@.cache.tables[oid].columns@.len() as usize)
            } else {
                None
            }),
            wanted matches Some(width) ==> width == core@.cache.tables[oid].columns@.len(),
    {
        match (core.cache.update_queries.get(&oid), core.cache.tables.get(&oid)) {
            (Some(queries), Some(table)) => {
                let needed = queries.needs_change_eval();
                proof {
                    assert(core@.cache.update_queries[oid] == queries.queries@);
                }
                if needed && table.primary_key_columns.len() > 0 {
                    Some(table.columns.len())
                } else {
                    None
                }
            },
            _ => None,
        }
    }

    /// Take the next step; what has to be asked before another.
    pub fn step(&mut self, core: &WriterCore, events: &Vec<FrameRowEvent>) -> (ask: SegmentAsk)
        requires
            segment_wf(old(self)@, events@.len()),
        ensures
            ask == segment_ask(old(self)@),
            final(self)@ == segment_step(old(self)@, core@, events_view(events@)),
            segment_wf(final(self)@, events@.len()),
    {
        let ghost s = self@;
        let ghost view = events_view(events@);
        let count: usize = events.len();
        let relations: usize = self.relations.len();
        proof {
            assert(view.len() == count);
            segment_step_keeps_wf(s, core@, view);
        }
        match self.stage {
            SegmentStage::Relation => {
                if self.at < relations {
                    let oid = self.relations[self.at];
                    match relation_plan_build(&core.cache, events, oid, self.from, self.to) {
                        Some(plan) => {
                            self.rows = positions_range(&plan.rows, 0, plan.rows.len());
                            self.row_from = 0;
                            self.hits = Vec::new();
                            self.plan = plan;
                            self.stage = SegmentStage::Ask { rest: false };
                            proof {
                                assert(self.rows@ =~= plan.rows@);
                            }
                        },
                        None => {
                            self.at = self.at + 1;
                        },
                    }
                } else {
                    self.relations = asked_relations_collect(events, true, self.from, self.to);
                    self.at = 0;
                    self.stage = SegmentStage::Changes;
                }
                proof {
                    assert(self@ =~= segment_step(s, core@, view));
                }
                SegmentAsk::Continue
            },
            SegmentStage::Ask { rest } => {
                let asked = if rest {
                    self.plan.rest.len()
                } else {
                    self.plan.fresh.len()
                };
                if asked > 0 && self.row_from < self.rows.len() {
                    return SegmentAsk::Prepared;
                }
                if !rest {
                    self.rest_part_begin(core, events);
                } else {
                    self.membership.membership_record(&self.plan, &self.rows, &self.hits);
                    assert(self.at < relations);
                    self.at = self.at + 1;
                    self.stage = SegmentStage::Relation;
                    proof {
                        assert(self@ =~= segment_step(s, core@, view));
                    }
                }
                SegmentAsk::Continue
            },
            SegmentStage::Inline { rest } => {
                let asked = if rest {
                    self.plan.rest.len()
                } else {
                    self.plan.fresh.len()
                };
                if self.query_from < asked {
                    return SegmentAsk::Inline;
                }
                self.row_from = range_end(self.row_from, PG_EVAL_ROW_CHUNK, self.rows.len());
                self.stage = SegmentStage::Ask { rest };
                proof {
                    assert(self@ =~= segment_step(s, core@, view));
                }
                SegmentAsk::Continue
            },
            SegmentStage::Changes => {
                if self.at < relations {
                    let oid = self.relations[self.at];
                    match self.changes_wanted(core, oid) {
                        Some(width) => {
                            self.rows = asked_rows_collect(
                                events,
                                true,
                                oid,
                                width,
                                self.from,
                                self.to,
                            );
                            self.row_from = 0;
                            self.changes = HashMap::new();
                            self.stage = SegmentStage::ChangeRows;
                            proof {
                                assert(changes_view(self.changes@) =~= Map::<
                                    usize,
                                    Seq<ColumnChange>,
                                >::empty());
                            }
                        },
                        None => {
                            self.at = self.at + 1;
                        },
                    }
                } else {
                    self.stage = SegmentStage::Done;
                }
                proof {
                    assert(self@ =~= segment_step(s, core@, view));
                }
                SegmentAsk::Continue
            },
            SegmentStage::ChangeRows => {
                if self.row_from < self.rows.len() {
                    return SegmentAsk::PreparedChanges;
                }
                let oid = self.relations[self.at];
                let mut changes: HashMap<usize, RowChanges> = HashMap::new();
                std::mem::swap(&mut changes, &mut self.changes);
                self.membership.row_changes_record(oid, &self.rows, changes);
                self.at = self.at + 1;
                self.stage = SegmentStage::Changes;
                proof {
                    assert(changes_view(self.changes@) =~= Map::<
                        usize,
                        Seq<ColumnChange>,
                    >::empty());
                    assert(self@ =~= segment_step(s, core@, view));
                }
                SegmentAsk::Continue
            },
            SegmentStage::ChangeInline => SegmentAsk::InlineChanges,
            SegmentStage::Done => SegmentAsk::Done,
        }
    }

    fn rest_part_begin(&mut self, core: &WriterCore, events: &Vec<FrameRowEvent>)
        requires
            segment_wf(old(self)@, events@.len()),
            old(self).stage == (SegmentStage::Ask { rest: false }),
            !rows_left(old(self)@, false),
        ensures
            final(self)@ == segment_step(old(self)@, core@, events_view(events@)),
    {
        let none: Vec<UpdateQuery> = Vec::new();
        if self.plan.rest.len() == 0 {
            self.rows = Vec::new();
        } else {
            let queries = match core.cache.update_queries.get(&self.plan.relation_oid) {
                Some(u) => &u.queries,
                None => &none,
            };
            proof {
                assert(queries@ =~= queries_over(core@, self.plan.relation_oid));
            }
            self.rows = rest_rows_select(
                events,
                queries,
                &core.frame.invalidations,
                &self.plan,
                &self.hits,
            );
        }
        self.row_from = 0;
        self.stage = SegmentStage::Ask { rest: true };
        proof {
            assert(self@ =~= segment_step(old(self)@, core@, events_view(events@)));
        }
    }

    /// Take in an answer; whether the segment can still be evaluated.
    pub fn answer(&mut self, reply: SegmentReply, events: &Vec<FrameRowEvent>) -> (ok: bool)
        requires
            segment_wf(old(self)@, events@.len()),
        ensures
            match segment_answered(old(self)@, reply@) {
                Some(next) => ok && final(self)@ == next && segment_wf(next, events@.len()),
                None => !ok && final(self)@ == old(self)@,
            },
    {
        let ghost s = self@;
        let ghost r = reply@;
        proof {
            segment_answer_keeps_wf(s, r, events@.len());
        }
        let chunk = self.asked_rows();
        let total: usize = self.rows.len();
        proof {
            assert(chunk@.len() <= total - self.row_from);
        }
        match self.stage {
            SegmentStage::Ask { rest } => {
                let asked = if rest {
                    self.plan.rest.len()
                } else {
                    self.plan.fresh.len()
                };
                if asked == 0 || self.row_from >= self.rows.len() {
                    return false;
                }
                match reply {
                    SegmentReply::Ordinals { matches, complete } => {
                        all_ordinals_fold(&mut self.hits, &matches, &chunk);
                        if complete {
                            self.row_from = self.row_from + chunk.len();
                        } else {
                            self.query_from = 0;
                            self.stage = SegmentStage::Inline { rest };
                        }
                    },
                    _ => {
                        self.query_from = 0;
                        self.stage = SegmentStage::Inline { rest };
                    },
                }
                proof {
                    assert(self@ =~= segment_answered(s, r)->0);
                }
                true
            },
            SegmentStage::Inline { rest } => {
                let queries = self.asked_queries();
                let asked = if rest {
                    self.plan.rest.len()
                } else {
                    self.plan.fresh.len()
                };
                if self.query_from >= asked {
                    return false;
                }
                match reply {
                    SegmentReply::Pairs { matches } => {
                        pair_hits_fold(&mut self.hits, &matches, &queries, &chunk);
                        self.query_from = self.query_from + queries.len();
                        proof {
                            assert(self@ =~= segment_answered(s, r)->0);
                        }
                        true
                    },
                    _ => false,
                }
            },
            SegmentStage::ChangeRows => {
                if self.row_from >= self.rows.len() {
                    return false;
                }
                match reply {
                    SegmentReply::Changes { changes } => {
                        changes_note(&mut self.changes, changes, &chunk);
                        self.row_from = self.row_from + chunk.len();
                    },
                    _ => {
                        self.stage = SegmentStage::ChangeInline;
                    },
                }
                proof {
                    assert(self@ =~= segment_answered(s, r)->0);
                }
                true
            },
            SegmentStage::ChangeInline => match reply {
                SegmentReply::Changes { changes } => {
                    changes_note(&mut self.changes, changes, &chunk);
                    self.row_from = self.row_from + chunk.len();
                    self.stage = SegmentStage::ChangeRows;
                    proof {
                        assert(self@ =~= segment_answered(s, r)->0);
                    }
                    true
                },
                _ => false,
            },
            SegmentStage::Relation => false,
            SegmentStage::Changes => false,
            SegmentStage::Done => false,
        }
    }
}

} // verus!
