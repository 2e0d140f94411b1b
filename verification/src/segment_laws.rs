//! What the questions about a segment find out: whatever is answered truly, row
//! by row and query by query, the batch tells truly.
use vstd::prelude::*;

use crate::cache::dirty_eval_required;
use crate::cache::CacheView;
use crate::catalog::ColumnMetadata;
use crate::catalog::RowView;
use crate::event::EventView;
use crate::invalidation::ColumnChange;
use crate::query::UpdateQuery;
use crate::segment::any_hit;
use crate::segment::any_local_match;
use crate::segment::asked_relations;
use crate::segment::asked_rows;
use crate::segment::batch_covers;
use crate::segment::batch_hit;
use crate::segment::batch_row_change;
use crate::segment::batchable_fingerprints;
use crate::segment::column_array;
use crate::segment::is_batchable;
use crate::segment::membership_image;
use crate::segment::ordinal_hits;
use crate::segment::pair_hits;
use crate::segment::relation_plan;
use crate::segment::rest_rows;
use crate::segment::update_image;
use crate::segment::BatchView;
use crate::segment::Hit;
use crate::segment_eval::all_ordinal_hits;
use crate::segment_eval::batch_of;
use crate::segment_eval::changes_noted;
use crate::segment_eval::changes_wanted;
use crate::segment_eval::chunk_of;
use crate::segment_eval::part_queries;
use crate::segment_eval::queries_over;
use crate::segment_eval::query_chunk_of;
use crate::segment_eval::segment_answered;
use crate::segment_eval::segment_begun;
use crate::segment_eval::segment_step;
use crate::segment_eval::segment_wf;
use crate::segment_eval::ReplyView;
use crate::segment_eval::SegmentStage;
use crate::segment_eval::SegmentView;
use crate::writer_core::CoreView;

verus! {

/// The image that an event is asked about.
pub open spec fn asked_image(e: EventView, updates_only: bool) -> Option<(u32, RowView)> {
    if updates_only {
        update_image(e)
    } else {
        membership_image(e)
    }
}

/// Whether an event has an image of a relation to ask about.
pub open spec fn asks_of(e: EventView, updates_only: bool, oid: u32) -> bool {
    asked_image(e, updates_only) is Some && (asked_image(e, updates_only)->0).0 == oid
}

/// The images are those of inserts and of complete updates, the new row of each;
/// for what an update changed, of updates alone. No other event has one.
pub proof fn images_are_the_new_rows(e: EventView)
    ensures
        asked_image(e, false) == match e {
            EventView::Insert { relation_oid, row_data } => Some((relation_oid, row_data)),
            EventView::Update { relation_oid, new_row_data, .. } => Some(
                (relation_oid, new_row_data),
            ),
            _ => None,
        },
        asked_image(e, true) == (if e is Update {
            asked_image(e, false)
        } else {
            None
        }),
{
}

/// A segment's relations are those of its images, each once.
pub proof fn asked_relations_are_those_of_the_images(
    events: Seq<EventView>,
    updates_only: bool,
    from: int,
    to: int,
    oid: u32,
)
    requires
        0 <= from <= to <= events.len(),
    ensures
        asked_relations(events, updates_only, from, to).contains(oid) <==> exists|i: int|
            from <= i < to && asks_of(#[trigger] events[i], updates_only, oid),
        asked_relations(events, updates_only, from, to).no_duplicates(),
    decreases to - from,
{
    let all = asked_relations(events, updates_only, from, to);
    if from < to {
        asked_relations_are_those_of_the_images(events, updates_only, from, to - 1, oid);
        let rest = asked_relations(events, updates_only, from, to - 1);
        let e = events[to - 1];
        match asked_image(e, updates_only) {
            Some((o, _)) => {
                if !rest.contains(o) {
                    assert(all == rest.push(o));
                    assert(all[rest.len() as int] == o);
                    assert(all.contains(oid) <==> rest.contains(oid) || oid == o) by {
                        if rest.contains(oid) {
                            let k = choose|k: int| 0 <= k < rest.len() && rest[k] == oid;
                            assert(all[k] == oid);
                        }
                        if all.contains(oid) && oid != o {
                            let k = choose|k: int| 0 <= k < all.len() && all[k] == oid;
                            assert(rest[k] == oid);
                        }
                    }
                    assert forall|i: int, j: int|
                        0 <= i < all.len() && 0 <= j < all.len() && i != j implies all[i]
                        != all[j] by {
                        if i < rest.len() {
                            assert(rest[i] == all[i]);
                            assert(rest.contains(rest[i]));
                        }
                        if j < rest.len() {
                            assert(rest[j] == all[j]);
                            assert(rest.contains(rest[j]));
                        }
                    }
                } else {
                    assert(all == rest);
                }
                if oid == o {
                    assert(asks_of(events[to - 1], updates_only, oid));
                    assert(all.contains(oid));
                }
            },
            None => {},
        }
        if all.contains(oid) && !rest.contains(oid) {
            assert(asks_of(events[to - 1], updates_only, oid));
        }
        if exists|i: int| from <= i < to && asks_of(#[trigger] events[i], updates_only, oid) {
            let i = choose|i: int|
                from <= i < to && asks_of(#[trigger] events[i], updates_only, oid);
            if i < to - 1 {
                assert(rest.contains(oid));
            }
        }
    }
}

/// A relation's rows are the events of the segment with an image of it, of its
/// full width, in order.
pub proof fn asked_rows_are_the_images_of_the_relation(
    events: Seq<EventView>,
    updates_only: bool,
    oid: u32,
    width: nat,
    from: int,
    to: int,
    at: usize,
)
    requires
        0 <= from <= to <= events.len(),
        to <= usize::MAX,
    ensures
        asked_rows(events, updates_only, oid, width, from, to).contains(at) <==> (from <= at < to
            && asks_of(events[at as int], updates_only, oid) && (asked_image(
            events[at as int],
            updates_only,
        )->0).1.len() == width),
        ({
            let rows = asked_rows(events, updates_only, oid, width, from, to);
            forall|i: int, j: int|
                0 <= i < j < rows.len() ==> (#[trigger] rows[i]) < (#[trigger] rows[j])
        }),
        ({
            let rows = asked_rows(events, updates_only, oid, width, from, to);
            forall|i: int| 0 <= i < rows.len() ==> (#[trigger] rows[i]) < to
        }),
    decreases to - from,
{
    let all = asked_rows(events, updates_only, oid, width, from, to);
    if from < to {
        asked_rows_are_the_images_of_the_relation(
            events,
            updates_only,
            oid,
            width,
            from,
            to - 1,
            at,
        );
        let rest = asked_rows(events, updates_only, oid, width, from, to - 1);
        let x = (to - 1) as usize;
        if all != rest {
            assert(all == rest.push(x));
            assert(all[rest.len() as int] == x);
            assert(all.contains(at) <==> rest.contains(at) || at == x) by {
                if rest.contains(at) {
                    let k = choose|k: int| 0 <= k < rest.len() && rest[k] == at;
                    assert(all[k] == at);
                }
                if all.contains(at) && at != x {
                    let k = choose|k: int| 0 <= k < all.len() && all[k] == at;
                    assert(rest[k] == at);
                }
            }
        } else if asks_of(events[to - 1], updates_only, oid) && (asked_image(
            events[to - 1],
            updates_only,
        )->0).1.len() == width {
            assert(all == rest.push(x));
            assert(all.len() == rest.len() + 1);
        }
    }
}

/// The queries that are asked are the batchable ones, those apart whose
/// materialized result a match would dirty.
pub proof fn asked_queries_are_the_batchable_ones(
    queries: Seq<UpdateQuery>,
    c: CacheView,
    dirtyable: bool,
)
    ensures
        batchable_fingerprints(queries, c, dirtyable) == queries.filter(
            |q: UpdateQuery|
                is_batchable(q) && dirty_eval_required(c.entries, q.fingerprint) == dirtyable,
        ).map_values(|q: UpdateQuery| q.fingerprint),
    decreases queries.len(),
{
    reveal(Seq::filter);
    if queries.len() > 0 {
        asked_queries_are_the_batchable_ones(queries.drop_last(), c, dirtyable);
    }
    assert(batchable_fingerprints(queries, c, dirtyable) =~= queries.filter(
        |q: UpdateQuery|
            is_batchable(q) && dirty_eval_required(c.entries, q.fingerprint) == dirtyable,
    ).map_values(|q: UpdateQuery| q.fingerprint));
}

/// Whether a row is known to be wanted without asking the remaining queries.
pub open spec fn known_wanted(
    events: Seq<EventView>,
    queries: Seq<UpdateQuery>,
    invalidations: Seq<u64>,
    fresh: Seq<u64>,
    hits: Seq<Hit>,
    r: usize,
) -> bool {
    any_hit(hits, r, fresh) || (membership_image(events[r as int]) is Some && any_local_match(
        queries,
        invalidations,
        (membership_image(events[r as int])->0).1,
    ))
}

/// The remaining queries are asked for exactly the rows that nothing is known to
/// want.
pub proof fn remaining_rows_are_those_nothing_wants(
    events: Seq<EventView>,
    queries: Seq<UpdateQuery>,
    invalidations: Seq<u64>,
    fresh: Seq<u64>,
    hits: Seq<Hit>,
    rows: Seq<usize>,
)
    ensures
        rest_rows(events, queries, invalidations, fresh, hits, rows) == rows.filter(
            |r: usize| !known_wanted(events, queries, invalidations, fresh, hits, r),
        ),
    decreases rows.len(),
{
    reveal(Seq::filter);
    if rows.len() > 0 {
        remaining_rows_are_those_nothing_wants(
            events,
            queries,
            invalidations,
            fresh,
            hits,
            rows.drop_last(),
        );
    }
    assert(rest_rows(events, queries, invalidations, fresh, hits, rows) =~= rows.filter(
        |r: usize| !known_wanted(events, queries, invalidations, fresh, hits, r),
    ));
}

/// Whether one of the ordinals is that of the event in the chunk.
pub open spec fn ordinal_names(ordinals: Seq<i32>, chunk: Seq<usize>, event: usize) -> bool {
    exists|m: int|
        0 <= m < ordinals.len() && 0 <= (#[trigger] ordinals[m]) < chunk.len()
            && chunk[ordinals[m] as int] == event
}

proof fn lemma_pushed(hits: Seq<Hit>, x: Hit, h: Hit)
    ensures
        hits.push(x).contains(h) <==> hits.contains(h) || h == x,
{
    let all = hits.push(x);
    assert(all[hits.len() as int] == x);
    if hits.contains(h) {
        let k = choose|k: int| 0 <= k < hits.len() && hits[k] == h;
        assert(all[k] == h);
    }
    if all.contains(h) && h != x {
        let k = choose|k: int| 0 <= k < all.len() && all[k] == h;
        assert(hits[k] == h);
    }
}

proof fn lemma_added(a: Seq<Hit>, b: Seq<Hit>, h: Hit)
    ensures
        (a + b).contains(h) <==> a.contains(h) || b.contains(h),
{
    let all = a + b;
    if a.contains(h) {
        let k = choose|k: int| 0 <= k < a.len() && a[k] == h;
        assert(all[k] == h);
    }
    if b.contains(h) {
        let k = choose|k: int| 0 <= k < b.len() && b[k] == h;
        assert(all[a.len() + k] == h);
    }
    if all.contains(h) {
        let k = choose|k: int| 0 <= k < all.len() && all[k] == h;
        if k < a.len() {
            assert(a[k] == h);
        } else {
            assert(b[k - a.len()] == h);
        }
    }
}

/// A query's statement reports by ordinals which of the asked events match it;
/// an ordinal of no asked event counts for nothing.
pub proof fn ordinals_name_the_asked_events(
    ordinals: Seq<i32>,
    chunk: Seq<usize>,
    fingerprint: u64,
    h: Hit,
)
    ensures
        ordinal_hits(ordinals, chunk, fingerprint).contains(h) <==> h.fingerprint == fingerprint
            && ordinal_names(ordinals, chunk, h.event_idx),
    decreases ordinals.len(),
{
    if ordinals.len() > 0 {
        let short = ordinals.drop_last();
        ordinals_name_the_asked_events(short, chunk, fingerprint, h);
        let rest = ordinal_hits(short, chunk, fingerprint);
        let o = ordinals.last();
        if 0 <= o < chunk.len() {
            lemma_pushed(rest, Hit { event_idx: chunk[o as int], fingerprint }, h);
        }
        if ordinal_names(short, chunk, h.event_idx) {
            let m = choose|m: int|
                0 <= m < short.len() && 0 <= (#[trigger] short[m]) < chunk.len()
                    && chunk[short[m] as int] == h.event_idx;
            assert(ordinals[m] == short[m]);
        }
        if ordinal_names(ordinals, chunk, h.event_idx) {
            let m = choose|m: int|
                0 <= m < ordinals.len() && 0 <= (#[trigger] ordinals[m]) < chunk.len()
                    && chunk[ordinals[m] as int] == h.event_idx;
            if m < short.len() {
                assert(short[m] == ordinals[m]);
            }
        }
        assert(ordinals[ordinals.len() - 1] == o);
    }
}

/// Whether one of several queries' statements reports a match.
pub open spec fn reported(list: Seq<(u64, Seq<i32>)>, chunk: Seq<usize>, h: Hit) -> bool {
    exists|k: int|
        0 <= k < list.len() && (#[trigger] list[k]).0 == h.fingerprint && ordinal_names(
            list[k].1,
            chunk,
            h.event_idx,
        )
}

/// The matches of several statements are what any of them reports.
pub proof fn statements_report_for_their_queries(
    list: Seq<(u64, Seq<i32>)>,
    chunk: Seq<usize>,
    h: Hit,
)
    ensures
        all_ordinal_hits(list, chunk).contains(h) <==> reported(list, chunk, h),
    decreases list.len(),
{
    if list.len() > 0 {
        let short = list.drop_last();
        statements_report_for_their_queries(short, chunk, h);
        let last = list.last();
        ordinals_name_the_asked_events(last.1, chunk, last.0, h);
        lemma_added(
            all_ordinal_hits(short, chunk),
            ordinal_hits(last.1, chunk, last.0),
            h,
        );
        assert(list[list.len() - 1] == last);
        if reported(short, chunk, h) {
            let k = choose|k: int|
                0 <= k < short.len() && (#[trigger] short[k]).0 == h.fingerprint && ordinal_names(
                    short[k].1,
                    chunk,
                    h.event_idx,
                );
            assert(list[k] == short[k]);
        }
        if reported(list, chunk, h) {
            let k = choose|k: int|
                0 <= k < list.len() && (#[trigger] list[k]).0 == h.fingerprint && ordinal_names(
                    list[k].1,
                    chunk,
                    h.event_idx,
                );
            if k < short.len() {
                assert(short[k] == list[k]);
            }
        }
    }
}

/// Whether a pair of ordinals is that of a match.
pub open spec fn pair_names(
    p: (usize, usize),
    queries: Seq<u64>,
    chunk: Seq<usize>,
    h: Hit,
) -> bool {
    p.0 < queries.len() && p.1 < chunk.len() && queries[p.0 as int] == h.fingerprint
        && chunk[p.1 as int] == h.event_idx
}

/// A statement over several queries and rows reports pairs of a query and a row;
/// a pair that was not asked counts for nothing.
pub proof fn pairs_name_query_and_event(
    pairs: Seq<(usize, usize)>,
    queries: Seq<u64>,
    chunk: Seq<usize>,
    h: Hit,
)
    ensures
        pair_hits(pairs, queries, chunk).contains(h) <==> exists|k: int|
            0 <= k < pairs.len() && pair_names(#[trigger] pairs[k], queries, chunk, h),
    decreases pairs.len(),
{
    if pairs.len() > 0 {
        let short = pairs.drop_last();
        pairs_name_query_and_event(short, queries, chunk, h);
        let p = pairs.last();
        if p.0 < queries.len() && p.1 < chunk.len() {
            lemma_pushed(
                pair_hits(short, queries, chunk),
                Hit { event_idx: chunk[p.1 as int], fingerprint: queries[p.0 as int] },
                h,
            );
        }
        assert(pairs[pairs.len() - 1] == p);
        if exists|k: int|
            0 <= k < short.len() && pair_names(#[trigger] short[k], queries, chunk, h) {
            let k = choose|k: int|
                0 <= k < short.len() && pair_names(#[trigger] short[k], queries, chunk, h);
            assert(pairs[k] == short[k]);
        }
        if exists|k: int|
            0 <= k < pairs.len() && pair_names(#[trigger] pairs[k], queries, chunk, h) {
            let k = choose|k: int|
                0 <= k < pairs.len() && pair_names(#[trigger] pairs[k], queries, chunk, h);
            if k < short.len() {
                assert(short[k] == pairs[k]);
            }
        }
    }
}


/// Whether a reply is true of the rows and queries that were asked: of each
/// query whose statement succeeded exactly the matching rows are named, a
/// complete reply holds all asked queries, and of each update whose row is
/// cached it is said what changed.
pub open spec fn is_true_reply(
    s: SegmentView,
    reply: ReplyView,
    belongs: spec_fn(usize, u64) -> bool,
    changed: spec_fn(usize) -> Option<Seq<ColumnChange>>,
) -> bool {
    let chunk = chunk_of(s);
    match reply {
        ReplyView::Ordinals { matches, complete } => {
            &&& forall|k: int, r: int|
                0 <= k < matches.len() && 0 <= r < chunk.len() ==> (belongs(
                    #[trigger] chunk[r],
                    (#[trigger] matches[k]).0,
                ) <==> ordinal_names(matches[k].1, chunk, chunk[r]))
            &&& complete && s.stage is Ask ==> forall|j: int|
                0 <= j < part_queries(s, s.stage->Ask_rest).len() ==> exists|k: int|
                    0 <= k < matches.len() && (#[trigger] matches[k]).0 == #[trigger] part_queries(
                        s,
                        s.stage->Ask_rest,
                    )[j]
        },
        ReplyView::Pairs { matches } => s.stage is Inline ==> {
            let queries = query_chunk_of(s, s.stage->Inline_rest);
            forall|h: Hit|
                queries.contains(h.fingerprint) && chunk.contains(h.event_idx) ==> (belongs(
                    h.event_idx,
                    h.fingerprint,
                ) <==> #[trigger] pair_reported(matches, queries, chunk, h))
        },
        ReplyView::Changes { changes } => {
            &&& forall|k: int|
                0 <= k < changes.len() && (#[trigger] changes[k]).0 < chunk.len() ==> changed(
                    chunk[changes[k].0 as int],
                ) == Some(changes[k].1)
            &&& forall|r: int|
                0 <= r < chunk.len() && changed(#[trigger] chunk[r]) is Some ==> change_reported(
                    changes,
                    chunk,
                    chunk[r],
                )
        },
        ReplyView::Failed => true,
    }
}

/// Whether one of the pairs reports a match.
pub open spec fn pair_reported(
    pairs: Seq<(usize, usize)>,
    queries: Seq<u64>,
    chunk: Seq<usize>,
    h: Hit,
) -> bool {
    exists|k: int| 0 <= k < pairs.len() && pair_names(#[trigger] pairs[k], queries, chunk, h)
}

/// Whether it is said what an event changed.
pub open spec fn change_reported(
    changes: Seq<(usize, Seq<ColumnChange>)>,
    chunk: Seq<usize>,
    event: usize,
) -> bool {
    exists|k: int|
        0 <= k < changes.len() && (#[trigger] changes[k]).0 < chunk.len()
            && chunk[changes[k].0 as int] == event
}

/// Every match that is listed is one.
pub open spec fn hits_true(hits: Seq<Hit>, belongs: spec_fn(usize, u64) -> bool) -> bool {
    forall|h: Hit| #[trigger] hits.contains(h) ==> belongs(h.event_idx, h.fingerprint)
}

/// Every match of the first `n` rows with the first `m` queries is listed.
pub open spec fn hits_whole(
    hits: Seq<Hit>,
    belongs: spec_fn(usize, u64) -> bool,
    rows: Seq<usize>,
    n: int,
    queries: Seq<u64>,
    m: int,
) -> bool {
    forall|i: int, j: int|
        #![trigger rows[i], queries[j]]
        0 <= i < n && 0 <= j < m && belongs(rows[i], queries[j]) ==> hits.contains(
            Hit { event_idx: rows[i], fingerprint: queries[j] },
        )
}

/// What one relation's answers tell is true.
pub open spec fn batch_true(
    b: BatchView,
    belongs: spec_fn(usize, u64) -> bool,
    changed: spec_fn(usize) -> Option<Seq<ColumnChange>>,
) -> bool {
    &&& hits_true(b.hits, belongs)
    &&& hits_whole(
        b.hits,
        belongs,
        b.covered,
        b.covered.len() as int,
        b.fresh_fps,
        b.fresh_fps.len() as int,
    )
    &&& hits_whole(
        b.hits,
        belongs,
        b.rest_covered,
        b.rest_covered.len() as int,
        b.rest_fps,
        b.rest_fps.len() as int,
    )
    &&& changes_true(b.row_changes, changed)
    &&& changes_whole(b.row_changes, changed, b.row_change_covered, b.row_change_covered.len() as int)
}

/// Every change that is noted is what changed.
pub open spec fn changes_true(
    noted: Map<usize, Seq<ColumnChange>>,
    changed: spec_fn(usize) -> Option<Seq<ColumnChange>>,
) -> bool {
    forall|e: usize| #[trigger] noted.contains_key(e) ==> changed(e) == Some(noted[e])
}

/// What the first `n` events changed is noted.
pub open spec fn changes_whole(
    noted: Map<usize, Seq<ColumnChange>>,
    changed: spec_fn(usize) -> Option<Seq<ColumnChange>>,
    rows: Seq<usize>,
    n: int,
) -> bool {
    forall|i: int|
        0 <= i < n && changed(#[trigger] rows[i]) is Some ==> noted.contains_key(rows[i])
}

/// What the questions have found out so far is true: of every relation that is
/// done with, and of the current one as far as it was asked. No relation is
/// asked twice.
pub open spec fn tells_truth(
    s: SegmentView,
    belongs: spec_fn(usize, u64) -> bool,
    changed: spec_fn(usize) -> Option<Seq<ColumnChange>>,
) -> bool {
    &&& s.relations.no_duplicates()
    &&& forall|oid: u32| #[trigger]
        s.membership.contains_key(oid) ==> batch_true(s.membership[oid], belongs, changed)
    &&& asks_membership(s) ==> forall|oid: u32| #[trigger]
        s.membership.contains_key(oid) ==> s.relations.take(s.at).contains(oid)
            && s.membership[oid].row_change_covered.len() == 0
    &&& !asks_membership(s) ==> forall|j: int|
        s.at <= j < s.relations.len() ==> batch_of(
            s.membership,
            #[trigger] s.relations[j],
        ).row_change_covered.len() == 0
    &&& match s.stage {
        SegmentStage::Ask { rest } => part_true(s, rest, belongs),
        SegmentStage::Inline { rest } => part_true(s, rest, belongs) && (forall|i: int, j: int|
            #![trigger chunk_of(s)[i], part_queries(s, rest)[j]]
            0 <= i < chunk_of(s).len() && 0 <= j < s.query_from && belongs(
                chunk_of(s)[i],
                part_queries(s, rest)[j],
            ) ==> s.hits.contains(
                Hit { event_idx: chunk_of(s)[i], fingerprint: part_queries(s, rest)[j] },
            )),
        SegmentStage::ChangeRows => changes_true(s.changes, changed) && changes_whole(
            s.changes,
            changed,
            s.rows,
            s.row_from,
        ),
        SegmentStage::ChangeInline => changes_true(s.changes, changed) && changes_whole(
            s.changes,
            changed,
            s.rows,
            s.row_from,
        ),
        _ => true,
    }
}

/// Whether membership is asked, not yet what changed.
pub open spec fn asks_membership(s: SegmentView) -> bool {
    s.stage is Relation || s.stage is Ask || s.stage is Inline
}

/// What is known of the current relation's rows is true, and whole as far as
/// they were asked.
pub open spec fn part_true(
    s: SegmentView,
    rest: bool,
    belongs: spec_fn(usize, u64) -> bool,
) -> bool {
    &&& s.plan.relation_oid == s.relations[s.at]
    &&& hits_true(s.hits, belongs)
    &&& hits_whole(
        s.hits,
        belongs,
        s.rows,
        s.row_from,
        part_queries(s, rest),
        part_queries(s, rest).len() as int,
    )
    &&& rest ==> hits_whole(
        s.hits,
        belongs,
        s.plan.rows,
        s.plan.rows.len() as int,
        s.plan.fresh,
        s.plan.fresh.len() as int,
    )
}

/// At the start nothing was found out, and nothing false.
pub proof fn questions_begin_truly(
    events: Seq<EventView>,
    from: usize,
    to: usize,
    belongs: spec_fn(usize, u64) -> bool,
    changed: spec_fn(usize) -> Option<Seq<ColumnChange>>,
)
    requires
        from <= to <= events.len(),
    ensures
        tells_truth(segment_begun(events, from, to), belongs, changed),
{
    asked_relations_are_those_of_the_images(events, false, from as int, to as int, 0);
}

proof fn lemma_taken(list: Seq<u32>, at: int, oid: u32)
    requires
        0 <= at < list.len(),
        list.no_duplicates(),
    ensures
        list.take(at).contains(oid) ==> list.take(at + 1).contains(oid),
        list.take(at + 1).contains(list[at]),
        !list.take(at).contains(list[at]),
{
    let (a, b) = (list.take(at), list.take(at + 1));
    assert(b[at] == list[at]);
    if a.contains(oid) {
        let k = choose|k: int| 0 <= k < a.len() && a[k] == oid;
        assert(b[k] == oid);
    }
    if a.contains(list[at]) {
        let k = choose|k: int| 0 <= k < a.len() && a[k] == list[at];
        assert(list[k] == list[at]);
    }
}

/// A step keeps what was found out true.
pub proof fn step_keeps_truth(
    s: SegmentView,
    c: CoreView,
    events: Seq<EventView>,
    belongs: spec_fn(usize, u64) -> bool,
    changed: spec_fn(usize) -> Option<Seq<ColumnChange>>,
)
    requires
        segment_wf(s, events.len()),
        tells_truth(s, belongs, changed),
    ensures
        tells_truth(segment_step(s, c, events), belongs, changed),
{
    let t = segment_step(s, c, events);
    match s.stage {
        SegmentStage::Relation => {
            if s.at < s.relations.len() {
                assert forall|oid: u32| #[trigger] t.membership.contains_key(oid) implies
                    t.relations.take(t.at).contains(oid) by {
                    lemma_taken(s.relations, s.at, oid);
                }
            } else {
                asked_relations_are_those_of_the_images(
                    events,
                    true,
                    s.from as int,
                    s.to as int,
                    0,
                );
            }
        },
        SegmentStage::Ask { rest } => {
            if rows_are_asked(s, rest) {
            } else if rest {
                let oid = s.plan.relation_oid;
                lemma_taken(s.relations, s.at, oid);
                assert(!s.membership.contains_key(oid));
                let b = t.membership[oid];
                assert(b.covered =~= s.plan.rows);
                assert(b.rest_covered =~= s.rows);
                assert(b.hits =~= s.hits);
                assert(batch_true(b, belongs, changed));
                assert forall|o: u32| #[trigger] t.membership.contains_key(o) implies
                    t.relations.take(t.at).contains(o) && t.membership[o].row_change_covered.len()
                    == 0 && batch_true(t.membership[o], belongs, changed) by {
                    lemma_taken(s.relations, s.at, o);
                    if o != oid {
                        assert(s.membership.contains_key(o));
                    }
                }
            }
        },
        SegmentStage::Inline { rest } => {
            let fps = part_queries(s, rest);
            if s.query_from >= fps.len() {
                assert forall|i: int, j: int|
                    #![trigger t.rows[i], part_queries(t, rest)[j]]
                    0 <= i < t.row_from && 0 <= j < fps.len() && belongs(
                        t.rows[i],
                        part_queries(t, rest)[j],
                    ) implies t.hits.contains(
                    Hit { event_idx: t.rows[i], fingerprint: part_queries(t, rest)[j] },
                ) by {
                    assert(part_queries(s, rest)[j] == part_queries(t, rest)[j]);
                    assert(s.rows[i] == t.rows[i]);
                    if i >= s.row_from {
                        assert(chunk_of(s)[i - s.row_from] == s.rows[i]);
                    }
                }
            }
        },
        SegmentStage::Changes => {},
        SegmentStage::ChangeRows => {
            if s.row_from >= s.rows.len() {
                let oid = s.relations[s.at];
                let b = batch_of(s.membership, oid);
                assert(b.row_change_covered.len() == 0);
                let n = t.membership[oid];
                assert(n.row_change_covered =~= s.rows);
                assert(batch_true(n, belongs, changed));
                assert forall|j: int| t.at <= j < t.relations.len() implies batch_of(
                    t.membership,
                    #[trigger] t.relations[j],
                ).row_change_covered.len() == 0 by {
                    assert(s.relations[j] != s.relations[s.at]);
                    assert(batch_of(s.membership, s.relations[j]).row_change_covered.len() == 0);
                }
            }
        },
        _ => {},
    }
}

/// Whether a question about the current rows is left.
spec fn rows_are_asked(s: SegmentView, rest: bool) -> bool {
    part_queries(s, rest).len() > 0 && s.row_from < s.rows.len()
}

/// A true reply keeps what was found out true.
pub proof fn true_reply_keeps_truth(
    s: SegmentView,
    reply: ReplyView,
    events: nat,
    belongs: spec_fn(usize, u64) -> bool,
    changed: spec_fn(usize) -> Option<Seq<ColumnChange>>,
)
    requires
        segment_wf(s, events),
        tells_truth(s, belongs, changed),
        is_true_reply(s, reply, belongs, changed),
    ensures
        segment_answered(s, reply) matches Some(t) ==> tells_truth(t, belongs, changed),
{
    let chunk = chunk_of(s);
    match (s.stage, reply) {
        (SegmentStage::Ask { rest }, ReplyView::Ordinals { matches, complete }) => {
            if rows_are_asked(s, rest) {
                lemma_ordinals_keep_truth(s, rest, matches, complete, belongs, changed);
            }
        },
        (SegmentStage::Inline { rest }, ReplyView::Pairs { matches }) => {
            if s.query_from < part_queries(s, rest).len() {
                lemma_pairs_keep_truth(s, rest, matches, belongs, changed);
            }
        },
        (SegmentStage::ChangeRows, ReplyView::Changes { changes }) => {
            if s.row_from < s.rows.len() {
                lemma_changes_keep_truth(s, changes, belongs, changed);
            }
        },
        (SegmentStage::ChangeInline, ReplyView::Changes { changes }) => {
            lemma_changes_keep_truth(s, changes, belongs, changed);
        },
        _ => {},
    }
}

proof fn lemma_ordinals_keep_truth(
    s: SegmentView,
    rest: bool,
    matches: Seq<(u64, Seq<i32>)>,
    complete: bool,
    belongs: spec_fn(usize, u64) -> bool,
    changed: spec_fn(usize) -> Option<Seq<ColumnChange>>,
)
    requires
        0 <= s.row_from < s.rows.len(),
        0 <= s.at < s.relations.len(),
        s.stage == (SegmentStage::Ask { rest }),
        part_queries(s, rest).len() > 0,
        tells_truth(s, belongs, changed),
        is_true_reply(s, ReplyView::Ordinals { matches, complete }, belongs, changed),
    ensures
        segment_answered(s, ReplyView::Ordinals { matches, complete }) is Some,
        tells_truth(
            segment_answered(s, ReplyView::Ordinals { matches, complete })->0,
            belongs,
            changed,
        ),
{
    let chunk = chunk_of(s);
    let new = all_ordinal_hits(matches, chunk);
    let hits = s.hits + new;
    let t = segment_answered(s, ReplyView::Ordinals { matches, complete })->0;
    let fps = part_queries(s, rest);
    assert(fps == part_queries(t, rest));
    assert forall|h: Hit| #[trigger] hits.contains(h) implies belongs(
        h.event_idx,
        h.fingerprint,
    ) by {
        lemma_added(s.hits, new, h);
        statements_report_for_their_queries(matches, chunk, h);
        if new.contains(h) {
            let k = choose|k: int|
                0 <= k < matches.len() && (#[trigger] matches[k]).0 == h.fingerprint
                    && ordinal_names(matches[k].1, chunk, h.event_idx);
            let m = choose|m: int|
                0 <= m < matches[k].1.len() && 0 <= (#[trigger] matches[k].1[m]) < chunk.len()
                    && chunk[matches[k].1[m] as int] == h.event_idx;
            let r = matches[k].1[m] as int;
            assert(belongs(chunk[r], matches[k].0));
        }
    }
    assert forall|h: Hit| #[trigger] s.hits.contains(h) implies hits.contains(h) by {
        lemma_added(s.hits, new, h);
    }
    assert forall|i: int, j: int|
        #![trigger t.rows[i], fps[j]]
        0 <= i < t.row_from && 0 <= j < fps.len() && belongs(t.rows[i], fps[j]) implies hits.contains(
    Hit { event_idx: t.rows[i], fingerprint: fps[j] }) by {
        let h = Hit { event_idx: s.rows[i], fingerprint: fps[j] };
        if i < s.row_from {
            assert(s.hits.contains(h));
        } else {
            let r = i - s.row_from;
            assert(chunk[r] == s.rows[i]);
            let k = choose|k: int| 0 <= k < matches.len() && (#[trigger] matches[k]).0 == fps[j];
            assert(belongs(chunk[r], matches[k].0));
            assert(ordinal_names(matches[k].1, chunk, chunk[r]));
            assert(reported(matches, chunk, h));
            statements_report_for_their_queries(matches, chunk, h);
            lemma_added(s.hits, new, h);
        }
    }
}

proof fn lemma_pairs_keep_truth(
    s: SegmentView,
    rest: bool,
    pairs: Seq<(usize, usize)>,
    belongs: spec_fn(usize, u64) -> bool,
    changed: spec_fn(usize) -> Option<Seq<ColumnChange>>,
)
    requires
        0 <= s.row_from < s.rows.len(),
        0 <= s.at < s.relations.len(),
        s.stage == (SegmentStage::Inline { rest }),
        0 <= s.query_from < part_queries(s, rest).len(),
        tells_truth(s, belongs, changed),
        is_true_reply(s, ReplyView::Pairs { matches: pairs }, belongs, changed),
    ensures
        segment_answered(s, ReplyView::Pairs { matches: pairs }) is Some,
        tells_truth(
            segment_answered(s, ReplyView::Pairs { matches: pairs })->0,
            belongs,
            changed,
        ),
{
    let chunk = chunk_of(s);
    let queries = query_chunk_of(s, rest);
    let new = pair_hits(pairs, queries, chunk);
    let hits = s.hits + new;
    let t = segment_answered(s, ReplyView::Pairs { matches: pairs })->0;
    let fps = part_queries(s, rest);
    assert(fps == part_queries(t, rest));
    assert(chunk == chunk_of(t));
    assert forall|h: Hit| #[trigger] hits.contains(h) implies belongs(
        h.event_idx,
        h.fingerprint,
    ) by {
        lemma_added(s.hits, new, h);
        pairs_name_query_and_event(pairs, queries, chunk, h);
        if new.contains(h) {
            let k = choose|k: int|
                0 <= k < pairs.len() && pair_names(#[trigger] pairs[k], queries, chunk, h);
            assert(pair_reported(pairs, queries, chunk, h));
            assert(queries[pairs[k].0 as int] == h.fingerprint);
            assert(chunk[pairs[k].1 as int] == h.event_idx);
        }
    }
    assert forall|h: Hit| #[trigger] s.hits.contains(h) implies hits.contains(h) by {
        lemma_added(s.hits, new, h);
    }
    assert forall|i: int, j: int|
        #![trigger chunk_of(t)[i], part_queries(t, rest)[j]]
        0 <= i < chunk.len() && 0 <= j < t.query_from && belongs(
            chunk_of(t)[i],
            part_queries(t, rest)[j],
        ) implies hits.contains(Hit { event_idx: chunk_of(t)[i], fingerprint: fps[j] }) by {
        let h = Hit { event_idx: chunk[i], fingerprint: fps[j] };
        if j < s.query_from {
            assert(belongs(chunk_of(s)[i], part_queries(s, rest)[j]));
            assert(s.hits.contains(h));
        } else {
            assert(queries[j - s.query_from] == fps[j]);
            assert(queries.contains(h.fingerprint) && chunk.contains(h.event_idx));
            assert(pair_reported(pairs, queries, chunk, h));
            pairs_name_query_and_event(pairs, queries, chunk, h);
            lemma_added(s.hits, new, h);
        }
    }
}

proof fn lemma_noted(
    m: Map<usize, Seq<ColumnChange>>,
    list: Seq<(usize, Seq<ColumnChange>)>,
    chunk: Seq<usize>,
    e: usize,
)
    ensures
        changes_noted(m, list, chunk).contains_key(e) <==> m.contains_key(e) || change_reported(
            list,
            chunk,
            e,
        ),
        change_reported(list, chunk, e) ==> exists|k: int|
            0 <= k < list.len() && (#[trigger] list[k]).0 < chunk.len() && chunk[list[k].0 as int]
                == e && changes_noted(m, list, chunk)[e] == list[k].1,
        !change_reported(list, chunk, e) && m.contains_key(e) ==> changes_noted(
            m,
            list,
            chunk,
        )[e] == m[e],
    decreases list.len(),
{
    if list.len() > 0 {
        let short = list.drop_last();
        lemma_noted(m, short, chunk, e);
        assert(list[list.len() - 1] == list.last());
        if change_reported(short, chunk, e) {
            let k = choose|k: int|
                0 <= k < short.len() && (#[trigger] short[k]).0 < chunk.len()
                    && chunk[short[k].0 as int] == e && changes_noted(m, short, chunk)[e]
                    == short[k].1;
            assert(list[k] == short[k]);
        }
        if change_reported(list, chunk, e) {
            let k = choose|k: int|
                0 <= k < list.len() && (#[trigger] list[k]).0 < chunk.len()
                    && chunk[list[k].0 as int] == e;
            if k < short.len() {
                assert(short[k] == list[k]);
            }
        }
    }
}

proof fn lemma_changes_keep_truth(
    s: SegmentView,
    changes: Seq<(usize, Seq<ColumnChange>)>,
    belongs: spec_fn(usize, u64) -> bool,
    changed: spec_fn(usize) -> Option<Seq<ColumnChange>>,
)
    requires
        0 <= s.row_from < s.rows.len(),
        0 <= s.at < s.relations.len(),
        s.stage is ChangeRows || s.stage is ChangeInline,
        tells_truth(s, belongs, changed),
        is_true_reply(s, ReplyView::Changes { changes }, belongs, changed),
    ensures
        segment_answered(s, ReplyView::Changes { changes }) is Some,
        tells_truth(segment_answered(s, ReplyView::Changes { changes })->0, belongs, changed),
{
    let chunk = chunk_of(s);
    let t = segment_answered(s, ReplyView::Changes { changes })->0;
    let noted = changes_noted(s.changes, changes, chunk);
    assert forall|e: usize| #[trigger] noted.contains_key(e) implies changed(e) == Some(
        noted[e],
    ) by {
        lemma_noted(s.changes, changes, chunk, e);
    }
    assert forall|i: int| 0 <= i < t.row_from && changed(#[trigger] t.rows[i]) is Some implies
        noted.contains_key(t.rows[i]) by {
        lemma_noted(s.changes, changes, chunk, t.rows[i]);
        if i < s.row_from {
            assert(s.changes.contains_key(s.rows[i]));
        } else {
            assert(chunk[i - s.row_from] == s.rows[i]);
            assert(change_reported(changes, chunk, chunk[i - s.row_from]));
        }
    }
}

/// What was found out can be relied on: of a query that was asked for an event's
/// row the batch knows whether the row belongs to it, and of an update that was
/// asked what it changed, or that its row is not cached.
pub proof fn covered_answers_are_true(
    s: SegmentView,
    belongs: spec_fn(usize, u64) -> bool,
    changed: spec_fn(usize) -> Option<Seq<ColumnChange>>,
    oid: u32,
    idx: usize,
    fp: u64,
)
    requires
        tells_truth(s, belongs, changed),
    ensures
        batch_covers(s.membership, oid, idx, fp) ==> batch_hit(s.membership, oid, idx, fp)
            == belongs(idx, fp),
        batch_hit(s.membership, oid, idx, fp) ==> belongs(idx, fp),
        batch_row_change(s.membership, oid, idx) is Some ==> batch_row_change(
            s.membership,
            oid,
            idx,
        ) == Some(changed(idx)),
{
    if s.membership.contains_key(oid) {
        let b = s.membership[oid];
        assert(batch_true(b, belongs, changed));
        let h = Hit { event_idx: idx, fingerprint: fp };
        if b.covered.contains(idx) && b.fresh_fps.contains(fp) {
            let i = choose|i: int| 0 <= i < b.covered.len() && b.covered[i] == idx;
            let j = choose|j: int| 0 <= j < b.fresh_fps.len() && b.fresh_fps[j] == fp;
            assert(belongs(b.covered[i], b.fresh_fps[j]) ==> b.hits.contains(h));
        }
        if b.rest_covered.contains(idx) && b.rest_fps.contains(fp) {
            let i = choose|i: int| 0 <= i < b.rest_covered.len() && b.rest_covered[i] == idx;
            let j = choose|j: int| 0 <= j < b.rest_fps.len() && b.rest_fps[j] == fp;
            assert(belongs(b.rest_covered[i], b.rest_fps[j]) ==> b.hits.contains(h));
        }
        if b.row_change_covered.contains(idx) {
            let i = choose|i: int|
                0 <= i < b.row_change_covered.len() && b.row_change_covered[i] == idx;
            assert(changed(b.row_change_covered[i]) is Some ==> b.row_changes.contains_key(idx));
        }
    }
}

/// Whether a relation's rows were asked of the batchable queries over it: all
/// rows of those that a match would dirty, and of the others the rows that
/// nothing is known to want.
pub open spec fn relation_asked(
    m: Map<u32, BatchView>,
    c: CoreView,
    events: Seq<EventView>,
    from: int,
    to: int,
    oid: u32,
) -> bool {
    match relation_plan(c.cache, events, oid, from, to) {
        Some(plan) => m.contains_key(oid) && m[oid].fresh_fps == plan.fresh && m[oid].rest_fps
            == plan.rest && (forall|r: usize| #[trigger]
            plan.rows.contains(r) ==> m[oid].covered.contains(r) && (m[oid].rest_fps.len() == 0
                || m[oid].rest_covered.contains(r) || known_wanted(
                events,
                queries_over(c, oid),
                c.frame.invalidations,
                plan.fresh,
                m[oid].hits,
                r,
            ))),
        None => true,
    }
}

/// Whether the updates of a relation were asked what they changed.
pub open spec fn updates_asked(
    m: Map<u32, BatchView>,
    c: CoreView,
    events: Seq<EventView>,
    from: int,
    to: int,
    oid: u32,
) -> bool {
    changes_wanted(c, oid) ==> forall|r: usize| #[trigger]
        asked_rows(events, true, oid, c.cache.tables[oid].columns@.len(), from, to).contains(r)
            ==> m.contains_key(oid) && m[oid].row_change_covered.contains(r)
}

/// The relations that are done with were asked, and the current one as far as
/// the questions are.
pub open spec fn asks_all(s: SegmentView, c: CoreView, events: Seq<EventView>) -> bool {
    let (from, to) = (s.from as int, s.to as int);
    let relations = asked_relations(events, false, from, to);
    &&& asks_membership(s) ==> s.relations == relations && forall|j: int|
        0 <= j < s.at ==> relation_asked(
            s.membership,
            c,
            events,
            from,
            to,
            #[trigger] s.relations[j],
        )
    &&& !asks_membership(s) ==> forall|oid: u32| #[trigger]
        relations.contains(oid) ==> relation_asked(s.membership, c, events, from, to, oid)
    &&& s.stage is Changes || s.stage is ChangeRows || s.stage is ChangeInline ==> s.relations
        == asked_relations(events, true, from, to) && forall|j: int|
        0 <= j < s.at ==> updates_asked(
            s.membership,
            c,
            events,
            from,
            to,
            #[trigger] s.relations[j],
        )
    &&& s.stage is Done ==> forall|oid: u32| #[trigger]
        asked_relations(events, true, from, to).contains(oid) ==> updates_asked(
            s.membership,
            c,
            events,
            from,
            to,
            oid,
        )
    &&& match s.stage {
        SegmentStage::Ask { rest } => part_asked(s, c, events, rest),
        SegmentStage::Inline { rest } => part_asked(s, c, events, rest),
        SegmentStage::ChangeRows => changes_wanted(c, s.relations[s.at]) && s.rows == asked_rows(
            events,
            true,
            s.relations[s.at],
            c.cache.tables[s.relations[s.at]].columns@.len(),
            from,
            to,
        ),
        SegmentStage::ChangeInline => changes_wanted(c, s.relations[s.at]) && s.rows == asked_rows(
            events,
            true,
            s.relations[s.at],
            c.cache.tables[s.relations[s.at]].columns@.len(),
            from,
            to,
        ),
        _ => true,
    }
}

/// The current relation's rows are asked as planned.
pub open spec fn part_asked(
    s: SegmentView,
    c: CoreView,
    events: Seq<EventView>,
    rest: bool,
) -> bool {
    &&& relation_plan(c.cache, events, s.relations[s.at], s.from as int, s.to as int) == Some(
        s.plan,
    )
    &&& rest && s.plan.rest.len() > 0 ==> forall|r: usize| #[trigger]
        s.plan.rows.contains(r) ==> s.rows.contains(r) || known_wanted(
            events,
            queries_over(c, s.plan.relation_oid),
            c.frame.invalidations,
            s.plan.fresh,
            s.hits,
            r,
        )
}

/// At the start nothing is left out.
pub proof fn questions_begin_whole(events: Seq<EventView>, from: usize, to: usize, c: CoreView)
    ensures
        asks_all(segment_begun(events, from, to), c, events),
{
}

proof fn lemma_rest_rows_whole(
    events: Seq<EventView>,
    queries: Seq<UpdateQuery>,
    invalidations: Seq<u64>,
    fresh: Seq<u64>,
    hits: Seq<Hit>,
    rows: Seq<usize>,
    r: usize,
)
    requires
        rows.contains(r),
    ensures
        rest_rows(events, queries, invalidations, fresh, hits, rows).contains(r) || known_wanted(
            events,
            queries,
            invalidations,
            fresh,
            hits,
            r,
        ),
{
    remaining_rows_are_those_nothing_wants(events, queries, invalidations, fresh, hits, rows);
    let pred = |r: usize| !known_wanted(events, queries, invalidations, fresh, hits, r);
    if pred(r) {
        let i = choose|i: int| 0 <= i < rows.len() && rows[i] == r;
        rows.filter_lemma(pred);
        assert(pred(rows[i]));
        assert(rows.filter(pred).contains(rows[i]));
    }
}

/// A step leaves nothing out.
pub proof fn step_leaves_nothing_out(
    s: SegmentView,
    c: CoreView,
    events: Seq<EventView>,
    belongs: spec_fn(usize, u64) -> bool,
    changed: spec_fn(usize) -> Option<Seq<ColumnChange>>,
)
    requires
        segment_wf(s, events.len()),
        tells_truth(s, belongs, changed),
        asks_all(s, c, events),
    ensures
        asks_all(segment_step(s, c, events), c, events),
{
    let t = segment_step(s, c, events);
    let (from, to) = (s.from as int, s.to as int);
    match s.stage {
        SegmentStage::Relation => {
            if s.at >= s.relations.len() {
                assert forall|oid: u32| #[trigger]
                    asked_relations(events, false, from, to).contains(oid) implies relation_asked(
                    t.membership,
                    c,
                    events,
                    from,
                    to,
                    oid,
                ) by {
                    let j = choose|j: int| 0 <= j < s.relations.len() && s.relations[j] == oid;
                    assert(relation_asked(s.membership, c, events, from, to, s.relations[j]));
                }
            }
        },
        SegmentStage::Ask { rest } => {
            if rows_are_asked(s, rest) {
            } else if !rest {
                if s.plan.rest.len() > 0 {
                    assert forall|r: usize| #[trigger] t.plan.rows.contains(r) implies
                        t.rows.contains(r) || known_wanted(
                        events,
                        queries_over(c, t.plan.relation_oid),
                        c.frame.invalidations,
                        t.plan.fresh,
                        t.hits,
                        r,
                    ) by {
                        lemma_rest_rows_whole(
                            events,
                            queries_over(c, s.plan.relation_oid),
                            c.frame.invalidations,
                            s.plan.fresh,
                            s.hits,
                            s.rows,
                            r,
                        );
                    }
                }
            } else {
                let oid = s.plan.relation_oid;
                lemma_taken(s.relations, s.at, oid);
                assert(!s.membership.contains_key(oid));
                let b = t.membership[oid];
                assert(b.covered =~= s.plan.rows);
                assert(b.rest_covered =~= s.rows);
                assert(b.hits =~= s.hits);
                assert(relation_asked(t.membership, c, events, from, to, oid));
                assert forall|j: int| 0 <= j < t.at implies relation_asked(
                    t.membership,
                    c,
                    events,
                    from,
                    to,
                    #[trigger] t.relations[j],
                ) by {
                    if j < s.at {
                        assert(s.relations[j] != s.relations[s.at]);
                        assert(relation_asked(s.membership, c, events, from, to, s.relations[j]));
                    }
                }
            }
        },
        SegmentStage::Inline { rest } => {},
        SegmentStage::Changes => {
            if s.at < s.relations.len() {
            } else {
                assert forall|oid: u32| #[trigger]
                    asked_relations(events, true, from, to).contains(oid) implies updates_asked(
                    t.membership,
                    c,
                    events,
                    from,
                    to,
                    oid,
                ) by {
                    let j = choose|j: int| 0 <= j < s.relations.len() && s.relations[j] == oid;
                    assert(updates_asked(s.membership, c, events, from, to, s.relations[j]));
                }
            }
        },
        SegmentStage::ChangeRows => {
            if s.row_from >= s.rows.len() {
                let oid = s.relations[s.at];
                assert(batch_of(s.membership, oid).row_change_covered.len() == 0);
                assert(t.membership[oid].row_change_covered =~= s.rows);
                assert forall|j: int| 0 <= j < t.at implies updates_asked(
                    t.membership,
                    c,
                    events,
                    from,
                    to,
                    #[trigger] t.relations[j],
                ) by {
                    if j < s.at {
                        assert(s.relations[j] != s.relations[s.at]);
                        assert(updates_asked(s.membership, c, events, from, to, s.relations[j]));
                    }
                }
                assert forall|o: u32| #[trigger]
                    asked_relations(events, false, from, to).contains(o) implies relation_asked(
                    t.membership,
                    c,
                    events,
                    from,
                    to,
                    o,
                ) by {
                    assert(relation_asked(s.membership, c, events, from, to, o));
                }
            }
        },
        _ => {},
    }
}

/// A reply leaves nothing out.
pub proof fn reply_leaves_nothing_out(
    s: SegmentView,
    reply: ReplyView,
    c: CoreView,
    events: Seq<EventView>,
)
    requires
        segment_wf(s, events.len()),
        asks_all(s, c, events),
    ensures
        segment_answered(s, reply) matches Some(t) ==> asks_all(t, c, events),
{
    if segment_answered(s, reply) is Some {
        let t = segment_answered(s, reply)->0;
        if s.stage is Ask || s.stage is Inline {
            assert(exists|new: Seq<Hit>| t.hits == #[trigger] (s.hits + new)) by {
                assert(s.hits + Seq::<Hit>::empty() =~= s.hits);
            }
            let new = choose|new: Seq<Hit>| t.hits == #[trigger] (s.hits + new);
            assert forall|h: Hit| #[trigger] s.hits.contains(h) implies t.hits.contains(h) by {
                lemma_added(s.hits, new, h);
            }
            assert forall|r: usize| any_hit(s.hits, r, s.plan.fresh) implies #[trigger] any_hit(
                t.hits,
                r,
                s.plan.fresh,
            ) by {
                let i = choose|i: int|
                    0 <= i < s.plan.fresh.len() && s.hits.contains(
                        Hit { event_idx: r, fingerprint: #[trigger] s.plan.fresh[i] },
                    );
                assert(t.hits.contains(Hit { event_idx: r, fingerprint: s.plan.fresh[i] }));
            }
        }
    }
}

/// Once everything was asked, every row of a segment that has its relation's
/// width was asked of every batchable query over the relation, unless the query
/// has no materialized result to dirty and the row is known to be wanted; and
/// every update whose changes matter was asked what it changed.
pub proof fn every_question_was_asked(
    s: SegmentView,
    c: CoreView,
    events: Seq<EventView>,
    oid: u32,
    at: usize,
    q: int,
)
    requires
        segment_wf(s, events.len()),
        events.len() <= usize::MAX,
        asks_all(s, c, events),
        s.stage is Done,
        s.from <= at < s.to,
        c.cache.tables.contains_key(oid),
    ensures
        asks_of(events[at as int], false, oid) && (asked_image(events[at as int], false)->0).1.len()
            == c.cache.tables[oid].columns@.len() && c.cache.update_queries.contains_key(oid) && 0
            <= q < c.cache.update_queries[oid].len() && is_batchable(c.cache.update_queries[oid][q])
            ==> batch_covers(
            s.membership,
            oid,
            at,
            c.cache.update_queries[oid][q].fingerprint,
        ) || (!dirty_eval_required(
            c.cache.entries,
            c.cache.update_queries[oid][q].fingerprint,
        ) && known_wanted(
            events,
            c.cache.update_queries[oid],
            c.frame.invalidations,
            s.membership[oid].fresh_fps,
            s.membership[oid].hits,
            at,
        )),
        asks_of(events[at as int], true, oid) && (asked_image(events[at as int], true)->0).1.len()
            == c.cache.tables[oid].columns@.len() && changes_wanted(c, oid) ==> batch_row_change(
            s.membership,
            oid,
            at,
        ) is Some,
{
    let (from, to) = (s.from as int, s.to as int);
    let width = c.cache.tables[oid].columns@.len();
    asked_relations_are_those_of_the_images(events, false, from, to, oid);
    asked_relations_are_those_of_the_images(events, true, from, to, oid);
    asked_rows_are_the_images_of_the_relation(events, false, oid, width, from, to, at);
    asked_rows_are_the_images_of_the_relation(events, true, oid, width, from, to, at);
    if asks_of(events[at as int], false, oid) && (asked_image(events[at as int], false)->0).1.len()
        == width && c.cache.update_queries.contains_key(oid) && 0 <= q
        < c.cache.update_queries[oid].len() && is_batchable(c.cache.update_queries[oid][q]) {
        let queries = c.cache.update_queries[oid];
        let fp = queries[q].fingerprint;
        let fresh = dirty_eval_required(c.cache.entries, fp);
        lemma_is_asked(queries, c.cache, q);
        assert(relation_asked(s.membership, c, events, from, to, oid));
        let rows = asked_rows(events, false, oid, width, from, to);
        assert(rows.contains(at));
        let plan = relation_plan(c.cache, events, oid, from, to)->0;
        assert(relation_plan(c.cache, events, oid, from, to) is Some);
        assert(plan.rows.contains(at));
    }
    if asks_of(events[at as int], true, oid) && (asked_image(events[at as int], true)->0).1.len()
        == width && changes_wanted(c, oid) {
        assert(asked_relations(events, true, from, to).contains(oid));
        assert(asked_rows(events, true, oid, width, from, to).contains(at));
    }
}

proof fn lemma_is_asked(queries: Seq<UpdateQuery>, c: CacheView, q: int)
    requires
        0 <= q < queries.len(),
        is_batchable(queries[q]),
    ensures
        batchable_fingerprints(
            queries,
            c,
            dirty_eval_required(c.entries, queries[q].fingerprint),
        ).contains(queries[q].fingerprint),
{
    let dirtyable = dirty_eval_required(c.entries, queries[q].fingerprint);
    let pred = |q: UpdateQuery|
        is_batchable(q) && dirty_eval_required(c.entries, q.fingerprint) == dirtyable;
    asked_queries_are_the_batchable_ones(queries, c, dirtyable);
    queries.filter_lemma(pred);
    assert(pred(queries[q]));
    let kept = queries.filter(pred);
    assert(kept.contains(queries[q]));
    let k = choose|k: int| 0 <= k < kept.len() && kept[k] == queries[q];
    assert(batchable_fingerprints(queries, c, dirtyable)[k] == queries[q].fingerprint);
}

/// A column's parameter holds the column's cell of every row, in order; a row
/// that is too short has none there.
pub proof fn parameters_hold_every_cell(column: ColumnMetadata, rows: Seq<RowView>, r: int)
    requires
        0 <= r < rows.len(),
        column.position > 0,
    ensures
        column_array(column, rows).len() == rows.len(),
        column_array(column, rows)[r] == (if column.position <= rows[r].len() {
            rows[r][column.position - 1]
        } else {
            None
        }),
{
}

} // verus!
