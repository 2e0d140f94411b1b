//! Batched evaluation of a segment of row events: which rows and queries to
//! ask the cache database about together, and what it answered.
use std::collections::HashMap;

use vstd::prelude::*;
use vstd::string::*;

use crate::cache::dirty_eval_required;
use crate::cache::Cache;
use crate::cache::CacheView;
use crate::catalog::row_get;
use crate::catalog::ColumnMetadata;
use crate::catalog::Row;
use crate::catalog::RowView;
use crate::catalog::TableMetadata;
use crate::event::events_view;
use crate::event::EventView;
use crate::event::FrameRowEvent;
use crate::frame::fingerprint_contains;
use crate::frame::oid_insert;
use crate::frame::with_distinct;
use crate::invalidation::ColumnChange;
use crate::invalidation::RowChanges;
use crate::query::matches_locally;
use crate::query::update_query_matches_locally;
use crate::query::UpdateEvalStrategy;
use crate::query::UpdateQuery;
use crate::toast::cell_clone;
use crate::toast::cell_or_null;

verus! {

broadcast use vstd::std_specs::hash::group_hash_axioms;

/// Predicates combined into one statement at most.
pub const PG_EVAL_CHUNK: usize = 32;

/// Rows combined into one statement at most.
pub const PG_EVAL_ROW_CHUNK: usize = 64;

/// The image of an event whose membership can be asked: that of an INSERT or a
/// complete UPDATE. The images of the others are absent or incomplete.
pub open spec fn membership_image(e: EventView) -> Option<(u32, RowView)> {
    match e {
        EventView::Insert { relation_oid, row_data } => Some((relation_oid, row_data)),
        EventView::Update { relation_oid, new_row_data, .. } => Some(
            (relation_oid, new_row_data),
        ),
        _ => None,
    }
}

/// The new image of a complete UPDATE.
pub open spec fn update_image(e: EventView) -> Option<(u32, RowView)> {
    match e {
        EventView::Update { relation_oid, new_row_data, .. } => Some(
            (relation_oid, new_row_data),
        ),
        _ => None,
    }
}

/// The image of an event whose membership can be asked.
pub fn membership_image_get(e: &FrameRowEvent) -> (image: Option<(u32, &Row)>)
    ensures
        match image {
            Some((oid, row)) => membership_image(e@) == Some((oid, row.deep_view())),
            None => membership_image(e@) is None,
        },
{
    match e {
        FrameRowEvent::Insert { relation_oid, row_data } => Some((*relation_oid, row_data)),
        FrameRowEvent::Update { relation_oid, new_row_data, .. } => Some(
            (*relation_oid, new_row_data),
        ),
        _ => None,
    }
}

/// The new image of a complete UPDATE.
pub fn update_image_get(e: &FrameRowEvent) -> (image: Option<(u32, &Row)>)
    ensures
        match image {
            Some((oid, row)) => update_image(e@) == Some((oid, row.deep_view())),
            None => update_image(e@) is None,
        },
{
    match e {
        FrameRowEvent::Update { relation_oid, new_row_data, .. } => Some(
            (*relation_oid, new_row_data),
        ),
        _ => None,
    }
}

/// The relations with an image to ask about among the first `to` events from
/// `from` on, in order of first occurrence.
pub open spec fn asked_relations(
    events: Seq<EventView>,
    updates_only: bool,
    from: int,
    to: int,
) -> Seq<u32>
    decreases to - from,
{
    if to <= from {
        Seq::empty()
    } else {
        let rest = asked_relations(events, updates_only, from, to - 1);
        let image = if updates_only {
            update_image(events[to - 1])
        } else {
            membership_image(events[to - 1])
        };
        match image {
            Some((oid, _)) => with_distinct(rest, oid),
            None => rest,
        }
    }
}

/// The events of one relation whose image has the full width of the relation:
/// a statement over several rows needs rows of one width.
pub open spec fn asked_rows(
    events: Seq<EventView>,
    updates_only: bool,
    oid: u32,
    width: nat,
    from: int,
    to: int,
) -> Seq<usize>
    decreases to - from,
{
    if to <= from {
        Seq::empty()
    } else {
        let rest = asked_rows(events, updates_only, oid, width, from, to - 1);
        let image = if updates_only {
            update_image(events[to - 1])
        } else {
            membership_image(events[to - 1])
        };
        match image {
            Some((o, row)) => if o == oid && row.len() == width {
                rest.push((to - 1) as usize)
            } else {
                rest
            },
            None => rest,
        }
    }
}

/// The relations with an image to ask about in a segment.
pub fn asked_relations_collect(
    events: &Vec<FrameRowEvent>,
    updates_only: bool,
    from: usize,
    to: usize,
) -> (oids: Vec<u32>)
    requires
        from <= to <= events@.len(),
    ensures
        oids@ == asked_relations(events_view(events@), updates_only, from as int, to as int),
{
    let ghost view = events_view(events@);
    let mut oids: Vec<u32> = Vec::new();
    let mut i: usize = from;
    while i < to
        invariant
            from <= i <= to <= events@.len(),
            view == events_view(events@),
            oids@ == asked_relations(view, updates_only, from as int, i as int),
        decreases to - i,
    {
        let image = if updates_only {
            update_image_get(&events[i])
        } else {
            membership_image_get(&events[i])
        };
        assert(view[i as int] == events@[i as int]@);
        if let Some((oid, _)) = image {
            oid_insert(&mut oids, oid);
        }
        i = i + 1;
    }
    oids
}

/// The events of one relation whose image has the given width.
pub fn asked_rows_collect(
    events: &Vec<FrameRowEvent>,
    updates_only: bool,
    oid: u32,
    width: usize,
    from: usize,
    to: usize,
) -> (rows: Vec<usize>)
    requires
        from <= to <= events@.len(),
    ensures
        rows@ == asked_rows(
            events_view(events@),
            updates_only,
            oid,
            width as nat,
            from as int,
            to as int,
        ),
{
    let ghost view = events_view(events@);
    let mut rows: Vec<usize> = Vec::new();
    let mut i: usize = from;
    while i < to
        invariant
            from <= i <= to <= events@.len(),
            view == events_view(events@),
            rows@ == asked_rows(view, updates_only, oid, width as nat, from as int, i as int),
        decreases to - i,
    {
        let image = if updates_only {
            update_image_get(&events[i])
        } else {
            membership_image_get(&events[i])
        };
        assert(view[i as int] == events@[i as int]@);
        if let Some((o, row)) = image {
            if o == oid && row.len() == width {
                rows.push(i);
            }
        }
        i = i + 1;
    }
    rows
}

/// Whether the query's membership can be asked for many rows at once.
pub open spec fn is_batchable(q: UpdateQuery) -> bool {
    q.eval_strategy == UpdateEvalStrategy::PgEval && q.pg_batchable
}

/// Fingerprints of the batchable queries whose materialized result a change
/// can (`dirtyable`) or cannot dirty.
pub open spec fn batchable_fingerprints(
    queries: Seq<UpdateQuery>,
    c: CacheView,
    dirtyable: bool,
) -> Seq<u64>
    decreases queries.len(),
{
    if queries.len() == 0 {
        Seq::empty()
    } else {
        let rest = batchable_fingerprints(queries.drop_last(), c, dirtyable);
        let q = queries.last();
        if is_batchable(q) && dirty_eval_required(c.entries, q.fingerprint) == dirtyable {
            rest.push(q.fingerprint)
        } else {
            rest
        }
    }
}

fn batchable_fingerprints_collect(
    cache: &Cache,
    queries: &Vec<UpdateQuery>,
    dirtyable: bool,
) -> (fps: Vec<u64>)
    ensures
        fps@ == batchable_fingerprints(queries@, cache@, dirtyable),
{
    let mut fps: Vec<u64> = Vec::new();
    let mut i: usize = 0;
    while i < queries.len()
        invariant
            i <= queries.len(),
            fps@ =~= batchable_fingerprints(queries@.take(i as int), cache@, dirtyable),
        decreases queries.len() - i,
    {
        proof {
            assert(queries@.take(i + 1).drop_last() =~= queries@.take(i as int));
        }
        let q = &queries[i];
        if q.eval_strategy == UpdateEvalStrategy::PgEval && q.pg_batchable
            && cache.mv_dirty_eval_required(q.fingerprint) == dirtyable {
            fps.push(q.fingerprint);
        }
        i = i + 1;
    }
    proof {
        assert(queries@.take(i as int) =~= queries@);
    }
    fps
}

/// What to ask about one relation's rows of a segment.
pub struct RelationPlan {
    pub relation_oid: u32,
    /// Queries asked for every row: a match dirties their materialized result.
    pub fresh: Vec<u64>,
    /// Queries asked only for rows that nothing else matched.
    pub rest: Vec<u64>,
    /// Events whose image is asked.
    pub rows: Vec<usize>,
}

/// The mathematical value of a [`RelationPlan`].
pub struct PlanView {
    pub relation_oid: u32,
    pub fresh: Seq<u64>,
    pub rest: Seq<u64>,
    pub rows: Seq<usize>,
}

impl View for RelationPlan {
    type V = PlanView;

    open spec fn view(&self) -> PlanView {
        PlanView {
            relation_oid: self.relation_oid,
            fresh: self.fresh@,
            rest: self.rest@,
            rows: self.rows@,
        }
    }
}

/// What to ask about one relation's rows of a segment; `None` when there is
/// nothing to ask.
pub open spec fn relation_plan(
    c: CacheView,
    events: Seq<EventView>,
    oid: u32,
    from: int,
    to: int,
) -> Option<PlanView> {
    if c.update_queries.contains_key(oid) && c.tables.contains_key(oid) {
        let queries = c.update_queries[oid];
        let plan = PlanView {
            relation_oid: oid,
            fresh: batchable_fingerprints(queries, c, true),
            rest: batchable_fingerprints(queries, c, false),
            rows: asked_rows(events, false, oid, c.tables[oid].columns@.len(), from, to),
        };
        if plan.fresh.len() + plan.rest.len() > 0 && plan.rows.len() > 0 {
            Some(plan)
        } else {
            None
        }
    } else {
        None
    }
}

/// Plan the membership questions about one relation's rows of a segment.
pub fn relation_plan_build(
    cache: &Cache,
    events: &Vec<FrameRowEvent>,
    oid: u32,
    from: usize,
    to: usize,
) -> (plan: Option<RelationPlan>)
    requires
        from <= to <= events@.len(),
    ensures
        match plan {
            Some(p) => relation_plan(
                cache@,
                events_view(events@),
                oid,
                from as int,
                to as int,
            ) == Some(p@),
            None => relation_plan(
                cache@,
                events_view(events@),
                oid,
                from as int,
                to as int,
            ) is None,
        },
{
    let queries = match cache.update_queries.get(&oid) {
        Some(u) => &u.queries,
        None => {
            return None;
        },
    };
    let table = match cache.tables.get(&oid) {
        Some(t) => t,
        None => {
            return None;
        },
    };
    let fresh = batchable_fingerprints_collect(cache, queries, true);
    let rest = batchable_fingerprints_collect(cache, queries, false);
    let rows = asked_rows_collect(events, false, oid, table.columns.len(), from, to);
    if (fresh.len() == 0 && rest.len() == 0) || rows.len() == 0 {
        return None;
    }
    Some(RelationPlan { relation_oid: oid, fresh, rest, rows })
}

/// A match: the event whose row matched, and the query it matched.
#[derive(Clone, Copy, Debug, PartialEq, Eq, Structural)]
pub struct Hit {
    pub event_idx: usize,
    pub fingerprint: u64,
}

/// Whether a match is recorded.
pub fn hit_contains(hits: &Vec<Hit>, event_idx: usize, fingerprint: u64) -> (found: bool)
    ensures
        found == hits@.contains(Hit { event_idx, fingerprint }),
{
    let mut i: usize = 0;
    while i < hits.len()
        invariant
            i <= hits.len(),
            forall|j: int| 0 <= j < i ==> hits@[j] != (Hit { event_idx, fingerprint }),
        decreases hits.len() - i,
    {
        if hits[i].event_idx == event_idx && hits[i].fingerprint == fingerprint {
            assert(hits@[i as int] == (Hit { event_idx, fingerprint }));
            return true;
        }
        i = i + 1;
    }
    false
}

/// Whether the event's row matched one of the queries.
pub open spec fn any_hit(hits: Seq<Hit>, event_idx: usize, fingerprints: Seq<u64>) -> bool {
    exists|i: int|
        0 <= i < fingerprints.len() && hits.contains(
            Hit { event_idx, fingerprint: #[trigger] fingerprints[i] },
        )
}

fn any_hit_exec(hits: &Vec<Hit>, event_idx: usize, fingerprints: &Vec<u64>) -> (any: bool)
    ensures
        any == any_hit(hits@, event_idx, fingerprints@),
{
    let mut i: usize = 0;
    while i < fingerprints.len()
        invariant
            i <= fingerprints.len(),
            forall|j: int|
                0 <= j < i ==> !hits@.contains(
                    Hit { event_idx, fingerprint: #[trigger] fingerprints@[j] },
                ),
        decreases fingerprints.len() - i,
    {
        if hit_contains(hits, event_idx, fingerprints[i]) {
            assert(hits@.contains(Hit { event_idx, fingerprint: fingerprints@[i as int] }));
            return true;
        }
        i = i + 1;
    }
    false
}

/// Whether a locally evaluated query that is not being invalidated accepts the
/// row.
pub open spec fn any_local_match(
    queries: Seq<UpdateQuery>,
    invalidations: Seq<u64>,
    row: RowView,
) -> bool {
    exists|i: int|
        0 <= i < queries.len() && (#[trigger] queries[i]).eval_strategy
            == UpdateEvalStrategy::LocalEval && !invalidations.contains(queries[i].fingerprint)
            && matches_locally(queries[i], row)
}

fn any_local_match_exec(
    queries: &Vec<UpdateQuery>,
    invalidations: &Vec<u64>,
    row: &Row,
) -> (any: bool)
    ensures
        any == any_local_match(queries@, invalidations@, row.deep_view()),
{
    let mut i: usize = 0;
    while i < queries.len()
        invariant
            i <= queries.len(),
            forall|j: int|
                0 <= j < i ==> !((#[trigger] queries@[j]).eval_strategy
                    == UpdateEvalStrategy::LocalEval && !invalidations@.contains(
                    queries@[j].fingerprint,
                ) && matches_locally(queries@[j], row.deep_view())),
        decreases queries.len() - i,
    {
        let q = &queries[i];
        if q.eval_strategy == UpdateEvalStrategy::LocalEval && !fingerprint_contains(
            invalidations,
            q.fingerprint,
        ) && update_query_matches_locally(q, row) {
            assert(queries@[i as int].eval_strategy == UpdateEvalStrategy::LocalEval);
            return true;
        }
        i = i + 1;
    }
    false
}

/// The rows that the remaining queries are asked for: those that neither a
/// locally evaluated query nor a fresh one matched.
pub open spec fn rest_rows(
    events: Seq<EventView>,
    queries: Seq<UpdateQuery>,
    invalidations: Seq<u64>,
    fresh: Seq<u64>,
    hits: Seq<Hit>,
    rows: Seq<usize>,
) -> Seq<usize>
    decreases rows.len(),
{
    if rows.len() == 0 {
        rows
    } else {
        let rest = rest_rows(events, queries, invalidations, fresh, hits, rows.drop_last());
        let r = rows.last();
        let image = membership_image(events[r as int]);
        if any_hit(hits, r, fresh) || (image matches Some((_, row)) && any_local_match(
            queries,
            invalidations,
            row,
        )) {
            rest
        } else {
            rest.push(r)
        }
    }
}

/// Select the rows that the remaining queries are asked for.
pub fn rest_rows_select(
    events: &Vec<FrameRowEvent>,
    queries: &Vec<UpdateQuery>,
    invalidations: &Vec<u64>,
    plan: &RelationPlan,
    hits: &Vec<Hit>,
) -> (rows: Vec<usize>)
    requires
        forall|i: int|
            0 <= i < plan.rows@.len() ==> (#[trigger] plan.rows@[i]) < events@.len(),
    ensures
        rows@ == rest_rows(
            events_view(events@),
            queries@,
            invalidations@,
            plan.fresh@,
            hits@,
            plan.rows@,
        ),
{
    let ghost view = events_view(events@);
    let ghost all = plan.rows@;
    let mut rows: Vec<usize> = Vec::new();
    let mut i: usize = 0;
    while i < plan.rows.len()
        invariant
            i <= plan.rows.len(),
            all == plan.rows@,
            view == events_view(events@),
            forall|i: int| 0 <= i < all.len() ==> (#[trigger] all[i]) < events@.len(),
            rows@ =~= rest_rows(
                view,
                queries@,
                invalidations@,
                plan.fresh@,
                hits@,
                all.take(i as int),
            ),
        decreases plan.rows.len() - i,
    {
        let r = plan.rows[i];
        proof {
            assert(all.take(i + 1).drop_last() =~= all.take(i as int));
            assert(view[r as int] == events@[r as int]@);
        }
        let matched = any_hit_exec(hits, r, &plan.fresh) || (match membership_image_get(
            &events[r],
        ) {
            Some((_, row)) => any_local_match_exec(queries, invalidations, row),
            None => false,
        });
        if !matched {
            rows.push(r);
        }
        i = i + 1;
    }
    proof {
        assert(all.take(i as int) =~= all);
    }
    rows
}

/// The planned rows are events of the segment.
pub proof fn lemma_asked_rows_bounded(
    events: Seq<EventView>,
    updates_only: bool,
    oid: u32,
    width: nat,
    from: int,
    to: int,
)
    requires
        0 <= from,
        to <= usize::MAX,
    ensures
        forall|i: int|
            0 <= i < asked_rows(events, updates_only, oid, width, from, to).len() ==> from <= (
            #[trigger] asked_rows(events, updates_only, oid, width, from, to)[i]) < to,
    decreases to - from,
{
    if to > from {
        lemma_asked_rows_bounded(events, updates_only, oid, width, from, to - 1);
        let rest = asked_rows(events, updates_only, oid, width, from, to - 1);
        let all = asked_rows(events, updates_only, oid, width, from, to);
        assert forall|i: int| 0 <= i < all.len() implies from <= (#[trigger] all[i]) < to by {
            if i < rest.len() {
                assert(all[i] == rest[i]);
            }
        }
    }
}

/// One relation's answers within a segment.
pub struct RelationBatch {
    pub fresh_fps: Vec<u64>,
    pub rest_fps: Vec<u64>,
    /// Events whose row was asked of the fresh queries.
    pub covered: Vec<usize>,
    /// Events whose row was asked of the remaining queries.
    pub rest_covered: Vec<usize>,
    pub hits: Vec<Hit>,
    /// Updates whose changed columns were asked.
    pub row_change_covered: Vec<usize>,
    /// What changed, for the asked updates whose row is cached.
    pub row_changes: HashMap<usize, RowChanges>,
}

/// The mathematical value of a [`RelationBatch`].
#[verifier::ext_equal]
pub struct BatchView {
    pub fresh_fps: Seq<u64>,
    pub rest_fps: Seq<u64>,
    pub covered: Seq<usize>,
    pub rest_covered: Seq<usize>,
    pub hits: Seq<Hit>,
    pub row_change_covered: Seq<usize>,
    pub row_changes: Map<usize, Seq<ColumnChange>>,
}

pub open spec fn changes_view(m: Map<usize, RowChanges>) -> Map<usize, Seq<ColumnChange>> {
    m.map_values(|c: RowChanges| c@)
}

impl View for RelationBatch {
    type V = BatchView;

    open spec fn view(&self) -> BatchView {
        BatchView {
            fresh_fps: self.fresh_fps@,
            rest_fps: self.rest_fps@,
            covered: self.covered@,
            rest_covered: self.rest_covered@,
            hits: self.hits@,
            row_change_covered: self.row_change_covered@,
            row_changes: changes_view(self.row_changes@),
        }
    }
}

/// Nothing asked.
pub open spec fn batch_empty() -> BatchView {
    BatchView {
        fresh_fps: Seq::empty(),
        rest_fps: Seq::empty(),
        covered: Seq::empty(),
        rest_covered: Seq::empty(),
        hits: Seq::empty(),
        row_change_covered: Seq::empty(),
        row_changes: Map::empty(),
    }
}

impl RelationBatch {
    /// Nothing asked.
    pub fn new() -> (b: RelationBatch)
        ensures
            b@ == batch_empty(),
    {
        let b = RelationBatch {
            fresh_fps: Vec::new(),
            rest_fps: Vec::new(),
            covered: Vec::new(),
            rest_covered: Vec::new(),
            hits: Vec::new(),
            row_change_covered: Vec::new(),
            row_changes: HashMap::new(),
        };
        proof {
            assert(b@ =~= batch_empty());
        }
        b
    }
}

/// The answers for one segment, by relation.
pub struct SegmentMembership {
    pub relations: HashMap<u32, RelationBatch>,
}

impl View for SegmentMembership {
    type V = Map<u32, BatchView>;

    open spec fn view(&self) -> Map<u32, BatchView> {
        self.relations@.map_values(|b: RelationBatch| b@)
    }
}

fn position_contains(list: &Vec<usize>, item: usize) -> (found: bool)
    ensures
        found == list@.contains(item),
{
    let mut i: usize = 0;
    while i < list.len()
        invariant
            i <= list.len(),
            forall|j: int| 0 <= j < i ==> list@[j] != item,
        decreases list.len() - i,
    {
        if list[i] == item {
            assert(list@[i as int] == item);
            return true;
        }
        i = i + 1;
    }
    false
}

/// Whether the query's membership of the event's row was asked in the batch.
pub open spec fn batch_covers(m: Map<u32, BatchView>, oid: u32, idx: usize, fp: u64) -> bool {
    m.contains_key(oid) && (m[oid].covered.contains(idx) && m[oid].fresh_fps.contains(fp)
        || m[oid].rest_covered.contains(idx) && m[oid].rest_fps.contains(fp))
}

/// Whether the event's row matched the query in the batch.
pub open spec fn batch_hit(m: Map<u32, BatchView>, oid: u32, idx: usize, fp: u64) -> bool {
    m.contains_key(oid) && m[oid].hits.contains(Hit { event_idx: idx, fingerprint: fp })
}

/// What the batch says of the event's changed columns: `None` when it was not
/// asked, `Some(None)` when the row is not cached.
pub open spec fn batch_row_change(m: Map<u32, BatchView>, oid: u32, idx: usize) -> Option<
    Option<Seq<ColumnChange>>,
> {
    if m.contains_key(oid) && m[oid].row_change_covered.contains(idx) {
        if m[oid].row_changes.contains_key(idx) {
            Some(Some(m[oid].row_changes[idx]))
        } else {
            Some(None)
        }
    } else {
        None
    }
}

impl SegmentMembership {
    /// Nothing asked.
    pub fn new() -> (m: SegmentMembership)
        ensures
            m@ == Map::<u32, BatchView>::empty(),
    {
        let m = SegmentMembership { relations: HashMap::new() };
        proof {
            assert(m@ =~= Map::<u32, BatchView>::empty());
        }
        m
    }

    /// Whether the query's membership of the event's row was asked.
    pub fn covers(&self, oid: u32, idx: usize, fingerprint: u64) -> (covered: bool)
        ensures
            covered == batch_covers(self@, oid, idx, fingerprint),
    {
        match self.relations.get(&oid) {
            Some(b) => (position_contains(&b.covered, idx) && fingerprint_contains(
                &b.fresh_fps,
                fingerprint,
            )) || (position_contains(&b.rest_covered, idx) && fingerprint_contains(
                &b.rest_fps,
                fingerprint,
            )),
            None => false,
        }
    }

    /// Whether the event's row matched the query.
    pub fn hit(&self, oid: u32, idx: usize, fingerprint: u64) -> (matched: bool)
        ensures
            matched == batch_hit(self@, oid, idx, fingerprint),
    {
        match self.relations.get(&oid) {
            Some(b) => hit_contains(&b.hits, idx, fingerprint),
            None => false,
        }
    }

    /// What is known of the event's changed columns.
    pub fn row_change(&self, oid: u32, idx: usize) -> (change: Option<Option<&RowChanges>>)
        ensures
            match change {
                Some(Some(c)) => batch_row_change(self@, oid, idx) == Some(Some(c@)),
                Some(None) => batch_row_change(self@, oid, idx) == Some(None::<Seq<ColumnChange>>),
                None => batch_row_change(self@, oid, idx) is None,
            },
    {
        match self.relations.get(&oid) {
            Some(b) => if position_contains(&b.row_change_covered, idx) {
                Some(b.row_changes.get(&idx))
            } else {
                None
            },
            None => None,
        }
    }
}

/// The batch with the membership answers of a plan.
pub open spec fn membership_answered(
    b: BatchView,
    plan: PlanView,
    rest_rows: Seq<usize>,
    hits: Seq<Hit>,
) -> BatchView {
    BatchView {
        fresh_fps: plan.fresh,
        rest_fps: plan.rest,
        covered: b.covered + plan.rows,
        rest_covered: b.rest_covered + rest_rows,
        hits: b.hits + hits,
        ..b
    }
}

impl SegmentMembership {
    /// Record a plan's answers: the fresh queries were asked for every planned
    /// row, the others for `rest_rows`, and `hits` matched.
    pub fn membership_record(
        &mut self,
        plan: &RelationPlan,
        rest_rows: &Vec<usize>,
        hits: &Vec<Hit>,
    )
        ensures
            final(self)@ == old(self)@.insert(
                plan.relation_oid,
                membership_answered(
                    if old(self)@.contains_key(plan.relation_oid) {
                        old(self)@[plan.relation_oid]
                    } else {
                        batch_empty()
                    },
                    plan@,
                    rest_rows@,
                    hits@,
                ),
            ),
    {
        let oid = plan.relation_oid;
        let mut b = match self.relations.remove(&oid) {
            Some(b) => b,
            None => RelationBatch::new(),
        };
        let ghost before = b@;
        b.fresh_fps = numbers_clone(&plan.fresh);
        b.rest_fps = numbers_clone(&plan.rest);
        positions_append(&mut b.covered, &plan.rows);
        positions_append(&mut b.rest_covered, rest_rows);
        hits_append(&mut b.hits, hits);
        let ghost after = b@;
        self.relations.insert(oid, b);
        proof {
            assert(after =~= membership_answered(before, plan@, rest_rows@, hits@));
            assert(self@ =~= old(self)@.insert(oid, after));
        }
    }

    /// Record which columns the updates of `rows` changed. An update that is
    /// asked but not in `changes` is of a row that is not cached.
    pub fn row_changes_record(
        &mut self,
        oid: u32,
        rows: &Vec<usize>,
        changes: HashMap<usize, RowChanges>,
    )
        ensures
            ({
                let b = if old(self)@.contains_key(oid) {
                    old(self)@[oid]
                } else {
                    batch_empty()
                };
                final(self)@ == old(self)@.insert(
                    oid,
                    BatchView {
                        row_change_covered: b.row_change_covered + rows@,
                        row_changes: changes_view(changes@),
                        ..b
                    },
                )
            }),
    {
        let mut b = match self.relations.remove(&oid) {
            Some(b) => b,
            None => RelationBatch::new(),
        };
        let ghost before = b@;
        positions_append(&mut b.row_change_covered, rows);
        b.row_changes = changes;
        let ghost after = b@;
        self.relations.insert(oid, b);
        proof {
            assert(after =~= (BatchView {
                row_change_covered: before.row_change_covered + rows@,
                row_changes: changes_view(changes@),
                ..before
            }));
            assert(self@ =~= old(self)@.insert(oid, after));
        }
    }
}

fn numbers_clone(list: &Vec<u64>) -> (copy: Vec<u64>)
    ensures
        copy@ == list@,
{
    let mut copy: Vec<u64> = Vec::new();
    let mut i: usize = 0;
    while i < list.len()
        invariant
            i <= list.len(),
            copy@ =~= list@.take(i as int),
        decreases list.len() - i,
    {
        copy.push(list[i]);
        i = i + 1;
    }
    copy
}

fn positions_append(list: &mut Vec<usize>, more: &Vec<usize>)
    ensures
        final(list)@ == old(list)@ + more@,
{
    let ghost start = list@;
    let mut i: usize = 0;
    while i < more.len()
        invariant
            i <= more.len(),
            list@ =~= start + more@.take(i as int),
        decreases more.len() - i,
    {
        list.push(more[i]);
        i = i + 1;
    }
    proof {
        assert(more@.take(i as int) =~= more@);
    }
}

fn hits_append(list: &mut Vec<Hit>, more: &Vec<Hit>)
    ensures
        final(list)@ == old(list)@ + more@,
{
    let ghost start = list@;
    let mut i: usize = 0;
    while i < more.len()
        invariant
            i <= more.len(),
            list@ =~= start + more@.take(i as int),
        decreases more.len() - i,
    {
        list.push(more[i]);
        i = i + 1;
    }
    proof {
        assert(more@.take(i as int) =~= more@);
    }
}

/// One parameter array: a column's cells over the rows.
pub open spec fn column_array(column: ColumnMetadata, rows: Seq<RowView>) -> Seq<Option<Seq<char>>> {
    Seq::new(rows.len(), |r: int| cell_or_null(rows[r], column.index_spec()))
}

/// The values of a list of parameter arrays.
pub open spec fn arrays_view(arrays: Seq<Vec<Option<String>>>) -> Seq<Seq<Option<Seq<char>>>> {
    Seq::new(arrays.len(), |i: int| arrays[i].deep_view())
}

/// The values of a list of borrowed rows.
pub open spec fn row_refs_view(rows: Seq<&Row>) -> Seq<RowView> {
    Seq::new(rows.len(), |i: int| rows[i].deep_view())
}

/// The parameters of a prepared statement over one chunk of rows: the rows'
/// ordinals, and one array per column in column order.
pub fn chunk_arrays_build(table: &TableMetadata, rows: &Vec<&Row>) -> (arrays: (
    Vec<i32>,
    Vec<Vec<Option<String>>>,
))
    requires
        rows@.len() <= PG_EVAL_ROW_CHUNK,
    ensures
        arrays.0@ == Seq::new(rows@.len(), |i: int| i as i32),
        arrays_view(arrays.1@) == Seq::new(
            table.columns@.len(),
            |c: int| column_array(table.columns@[c], row_refs_view(rows@)),
        ),
{
    let mut ordinals: Vec<i32> = Vec::new();
    let mut i: usize = 0;
    while i < rows.len()
        invariant
            i <= rows.len() <= PG_EVAL_ROW_CHUNK,
            ordinals@ =~= Seq::new(i as nat, |k: int| k as i32),
        decreases rows.len() - i,
    {
        ordinals.push(i as i32);
        i = i + 1;
    }
    let ghost cols = table.columns@;
    let ghost views = row_refs_view(rows@);
    let mut arrays: Vec<Vec<Option<String>>> = Vec::new();
    let mut c: usize = 0;
    while c < table.columns.len()
        invariant
            c <= cols.len(),
            cols == table.columns@,
            views == row_refs_view(rows@),
            arrays_view(arrays@) =~= Seq::new(c as nat, |k: int| column_array(cols[k], views)),
        decreases cols.len() - c,
    {
        let array = column_array_build(&table.columns[c], rows);
        let ghost before = arrays@;
        let ghost added = array.deep_view();
        arrays.push(array);
        proof {
            assert(arrays_view(arrays@) =~= arrays_view(before).push(added));
        }
        c = c + 1;
    }
    (ordinals, arrays)
}

fn column_array_build(column: &ColumnMetadata, rows: &Vec<&Row>) -> (array: Vec<Option<String>>)
    ensures
        array.deep_view() == column_array(*column, row_refs_view(rows@)),
{
    let ghost views = row_refs_view(rows@);
    let mut array: Vec<Option<String>> = Vec::new();
    let mut r: usize = 0;
    while r < rows.len()
        invariant
            r <= rows.len(),
            views == row_refs_view(rows@),
            array.deep_view() =~= column_array(*column, views.take(r as int)),
        decreases rows.len() - r,
    {
        let row: &Row = rows[r];
        let cell = match row_get(row, column.index()) {
            Some(cell) => cell_clone(cell),
            None => None,
        };
        let ghost before = array.deep_view();
        let ghost added = cell.deep_view();
        array.push(cell);
        proof {
            assert(array.deep_view() =~= before.push(added));
            assert(views[r as int] == row.deep_view());
            assert(column_array(*column, views.take(r + 1)) =~= column_array(
                *column,
                views.take(r as int),
            ).push(added));
        }
        r = r + 1;
    }
    proof {
        assert(views.take(r as int) =~= views);
    }
    array
}

/// The matches a prepared statement reported for one query: the ordinals of
/// the rows that matched, in the chunk it was asked about.
pub open spec fn ordinal_hits(ordinals: Seq<i32>, chunk: Seq<usize>, fingerprint: u64) -> Seq<Hit>
    decreases ordinals.len(),
{
    if ordinals.len() == 0 {
        Seq::empty()
    } else {
        let rest = ordinal_hits(ordinals.drop_last(), chunk, fingerprint);
        let o = ordinals.last();
        if 0 <= o < chunk.len() {
            rest.push(Hit { event_idx: chunk[o as int], fingerprint })
        } else {
            rest
        }
    }
}

/// Add the matches a prepared statement reported for one query. An ordinal
/// outside the chunk is ignored.
pub fn ordinal_hits_fold(
    hits: &mut Vec<Hit>,
    ordinals: &Vec<i32>,
    chunk: &Vec<usize>,
    fingerprint: u64,
)
    ensures
        final(hits)@ == old(hits)@ + ordinal_hits(ordinals@, chunk@, fingerprint),
{
    let ghost start = hits@;
    let mut i: usize = 0;
    while i < ordinals.len()
        invariant
            i <= ordinals.len(),
            hits@ =~= start + ordinal_hits(ordinals@.take(i as int), chunk@, fingerprint),
        decreases ordinals.len() - i,
    {
        proof {
            assert(ordinals@.take(i + 1).drop_last() =~= ordinals@.take(i as int));
        }
        let o = ordinals[i];
        if o >= 0 && (o as usize) < chunk.len() {
            hits.push(Hit { event_idx: chunk[o as usize], fingerprint });
        }
        i = i + 1;
    }
    proof {
        assert(ordinals@.take(i as int) =~= ordinals@);
    }
}

/// The matches an inlined statement reported: pairs of a query's ordinal in
/// its chunk and a row's ordinal in its chunk.
pub open spec fn pair_hits(
    pairs: Seq<(usize, usize)>,
    queries: Seq<u64>,
    chunk: Seq<usize>,
) -> Seq<Hit>
    decreases pairs.len(),
{
    if pairs.len() == 0 {
        Seq::empty()
    } else {
        let rest = pair_hits(pairs.drop_last(), queries, chunk);
        let p = pairs.last();
        if p.0 < queries.len() && p.1 < chunk.len() {
            rest.push(Hit { event_idx: chunk[p.1 as int], fingerprint: queries[p.0 as int] })
        } else {
            rest
        }
    }
}

/// Add the matches an inlined statement reported. A pair outside the chunks is
/// ignored.
pub fn pair_hits_fold(
    hits: &mut Vec<Hit>,
    pairs: &Vec<(usize, usize)>,
    queries: &Vec<u64>,
    chunk: &Vec<usize>,
)
    ensures
        final(hits)@ == old(hits)@ + pair_hits(pairs@, queries@, chunk@),
{
    let ghost start = hits@;
    let mut i: usize = 0;
    while i < pairs.len()
        invariant
            i <= pairs.len(),
            hits@ =~= start + pair_hits(pairs@.take(i as int), queries@, chunk@),
        decreases pairs.len() - i,
    {
        proof {
            assert(pairs@.take(i + 1).drop_last() =~= pairs@.take(i as int));
        }
        let p = pairs[i];
        if p.0 < queries.len() && p.1 < chunk.len() {
            hits.push(Hit { event_idx: chunk[p.1], fingerprint: queries[p.0] });
        }
        i = i + 1;
    }
    proof {
        assert(pairs@.take(i as int) =~= pairs@);
    }
}

/// The queries covered by one event's view are exactly those that were asked
/// about it: a covered query's answer is in the matches, and one that is not
/// covered falls back to being asked alone.
pub proof fn recorded_answers_are_covered(
    m: Map<u32, BatchView>,
    plan: PlanView,
    rest: Seq<usize>,
    hits: Seq<Hit>,
    idx: usize,
    fp: u64,
)
    requires
        !m.contains_key(plan.relation_oid),
    ensures
        ({
            let after = m.insert(
                plan.relation_oid,
                membership_answered(batch_empty(), plan, rest, hits),
            );
            &&& batch_covers(after, plan.relation_oid, idx, fp) <==> plan.rows.contains(idx)
                && plan.fresh.contains(fp) || rest.contains(idx) && plan.rest.contains(fp)
            &&& batch_hit(after, plan.relation_oid, idx, fp) <==> hits.contains(
                Hit { event_idx: idx, fingerprint: fp },
            )
        }),
{
    assert(Seq::<usize>::empty() + plan.rows =~= plan.rows);
    assert(Seq::<usize>::empty() + rest =~= rest);
    assert(Seq::<Hit>::empty() + hits =~= hits);
}

} // verus!
