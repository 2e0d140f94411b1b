//! What the writer does of its own accord: which relation it gives up for want of
//! room, which queries it forgets, and which results it builds.
use vstd::prelude::*;

use crate::cache::cached_find;
use crate::cache::purge_asked;
use crate::cache::CacheView;
use crate::cache::CachedView;
use crate::cache::EffectView;
use crate::cache::EntryView;
use crate::cache::PurgeBound;
use crate::cache_laws::other_queries_stay_registered;
use crate::cache_laws::over;
use crate::cache_laws::query_is_found_by_its_fingerprint;
use crate::cache_laws::removed_query_is_over_no_relation;
use crate::catalog::RowView;
use crate::catalog::TableMetadata;
use crate::eval_sql::order_columns;
use crate::eviction::bump_done;
use crate::eviction_laws::evicted_queries_are_gone;
use crate::frame::lemma_with_all_distinct;
use crate::frame::FrameState;
use crate::handlers::needs_changes;
use crate::invalidation::all_joins_covered;
use crate::invalidation::change_of;
use crate::invalidation::joins_covered;
use crate::invalidation::ColumnChange;
use crate::mv::outcome_end;
use crate::mv::MvBuildOutcome;
use crate::mv_build::row_count;
use crate::query::UpdateQueries;
use crate::query::UpdateQuery;
use crate::reclaim::queries_forgotten;
use crate::reclaim::query_forgotten;
use crate::reclaim::smallest_dropped;
use crate::replay::replay_begun;
use crate::replay::replay_step;
use crate::replay::segment_end;
use crate::replay::ReplayStage;
use crate::replay::ReplayView;
use crate::serving::bootstrap_due;
use crate::serving::is_dead_weight;
use crate::serving::outcome_columns;
use crate::writer_core::CoreView;

verus! {

/// How many queries there are over a relation.
pub open spec fn query_count(c: CacheView, oid: u32) -> nat {
    over(c.update_queries, oid).len()
}

/// Whether no query over a relation is registered any more.
pub open spec fn is_given_up(before: CacheView, after: CacheView, oid: u32) -> bool {
    forall|i: int|
        0 <= i < over(before.update_queries, oid).len() ==> cached_find(
            after.cached,
            (#[trigger] over(before.update_queries, oid)[i]).fingerprint,
        ) is None
}

/// When a relation is given up for want of room, it is one with the fewest
/// queries of those that have any; all of its queries go, and no query comes in.
/// With no query at all nothing happens.
pub proof fn smallest_relation_is_given_up(c: CoreView, after: CoreView)
    requires
        smallest_dropped(c, after),
    ensures
        (forall|o: u32| #[trigger] query_count(c.cache, o) == 0) ==> after == c,
        (exists|o: u32| #[trigger] query_count(c.cache, o) > 0) ==> exists|oid: u32|
            {
                &&& #[trigger] query_count(c.cache, oid) > 0
                &&& forall|o: u32| #[trigger]
                    query_count(c.cache, o) > 0 ==> query_count(c.cache, oid) <= query_count(
                        c.cache,
                        o,
                    )
                &&& is_given_up(c.cache, after.cache, oid)
            },
        forall|i: int|
            0 <= i < after.cache.cached.len() ==> c.cache.cached.contains(
                #[trigger] after.cache.cached[i],
            ),
        after.frame == c.frame && after.keys == c.keys,
{
    if crate::reclaim::no_queries(c.cache) && after == c {
        assert forall|o: u32| #[trigger] query_count(c.cache, o) == 0 by {
            if c.cache.update_queries.contains_key(o) {
                assert(c.cache.update_queries[o].len() == 0);
            }
        }
    } else {
        let oid = choose|oid: u32|
            #![trigger crate::reclaim::has_fewest_queries(c.cache, oid)]
            crate::reclaim::has_fewest_queries(c.cache, oid) && after == (CoreView {
                cache: crate::cache::all_evicted(
                    c.cache,
                    crate::cdc::query_fingerprints(c.cache.update_queries[oid]),
                    c.frame.state == FrameState::TxnOpen,
                ),
                ..c
            });
        let fps = crate::cdc::query_fingerprints(c.cache.update_queries[oid]);
        evicted_queries_are_gone(c.cache, fps, c.frame.state == FrameState::TxnOpen);
        assert(query_count(c.cache, oid) > 0);
        assert forall|o: u32| #[trigger] query_count(c.cache, o) > 0 implies query_count(
            c.cache,
            oid,
        ) <= query_count(c.cache, o) by {
            assert(c.cache.update_queries.contains_key(o));
        }
        assert forall|i: int| 0 <= i < over(c.cache.update_queries, oid).len() implies cached_find(
            after.cache.cached,
            (#[trigger] over(c.cache.update_queries, oid)[i]).fingerprint,
        ) is None by {
            let fp = over(c.cache.update_queries, oid)[i].fingerprint;
            assert(fps[i] == fp);
            assert(fps.contains(fp));
            query_is_found_by_its_fingerprint(after.cache.cached, fp);
            if cached_find(after.cache.cached, fp) is Some {
                let q = cached_find(after.cache.cached, fp)->0;
                let k = choose|k: int| 0 <= k < after.cache.cached.len() && after.cache.cached[k]
                    == q;
                assert(!fps.contains(after.cache.cached[k].fingerprint));
            }
        }
        assert(is_given_up(c.cache, after.cache, oid));
    }
}

/// A query that is forgotten is not registered any more, and over none of its
/// relations; every other stays as it is.
pub proof fn forgotten_query_is_gone(c: CacheView, fingerprint: u64, oid: u32)
    requires
        cached_find(c.cached, fingerprint) is Some,
    ensures
        ({
            let after = query_forgotten(c, fingerprint);
            let q = cached_find(c.cached, fingerprint)->0;
            &&& after.cached == c.cached.filter(|x: CachedView| x.fingerprint != fingerprint)
            &&& over(after.update_queries, oid) == (if q.relation_oids.contains(oid) {
                over(c.update_queries, oid).filter(|u: UpdateQuery| u.fingerprint != fingerprint)
            } else {
                over(c.update_queries, oid)
            })
            &&& after.active.counts == crate::publication::released(
                c.active.counts,
                q.relation_oids,
            )
            &&& after.generations == c.generations && after.entries == c.entries && after.effects
                == c.effects
        }),
{
    let q = cached_find(c.cached, fingerprint)->0;
    other_queries_stay_registered(c.cached, fingerprint);
    removed_query_is_over_no_relation(c.update_queries, q.relation_oids, fingerprint, oid);
}

/// A purge that is wanted is asked for, unless locks are held: it then waits, and
/// nothing is asked.
pub proof fn purge_waits_for_the_locks(c: CacheView, up_to: PurgeBound)
    ensures
        purge_asked(c, up_to, true).purge_pending,
        purge_asked(c, up_to, true).effects == c.effects,
        purge_asked(c, up_to, false).effects == c.effects.push(
            EffectView::Purge { above: None, up_to },
        ),
        purge_asked(c, up_to, false).purge_pending == c.purge_pending,
{
}

/// The result of a pinned query is built without waiting for a hit, once, when it
/// is due; that of any other query is not.
pub proof fn pinned_result_is_built_at_once(c: CacheView, fingerprint: u64)
    ensures
        bootstrap_due(c, fingerprint) ==> cached_find(c.cached, fingerprint) is Some && (
        cached_find(c.cached, fingerprint)->0).pinned,
        cached_find(c.cached, fingerprint) is Some && (cached_find(
            c.cached,
            fingerprint,
        )->0).pinned && c.entries.contains_key(fingerprint) ==> (bootstrap_due(c, fingerprint)
            <==> c.entries[fingerprint].mv_state is Pending),
        !c.entries.contains_key(fingerprint) ==> !bootstrap_due(c, fingerprint),
{
}

/// A table is dead weight exactly if it is there, out of date, and no build of it
/// is scheduled or runs.
pub proof fn dead_weight_serves_nothing(e: EntryView)
    ensures
        is_dead_weight(e) <==> crate::mv::table_exists(e.mv_state) && e.mv_state is Pending,
        e.mv_state is Fresh || e.mv_state is Building || e.mv_state is Scheduled
            ==> !is_dead_weight(e),
{
}

/// What a build reports is kept as it was reported.
pub proof fn outcome_is_kept_as_reported(outcome: MvBuildOutcome)
    ensures
        outcome is Built <==> outcome_end(outcome) is Built,
        outcome is Built ==> outcome_end(outcome)->was_first_build == outcome->was_first_build
            && outcome_columns(outcome) == Some(outcome->output_columns.deep_view()),
        outcome is Ineligible <==> outcome_end(outcome) is Ineligible,
        outcome is Failed ==> outcome_end(outcome) is Failed && outcome_end(outcome)->has_table
            == outcome->has_table,
        !(outcome is Built) ==> outcome_columns(outcome) is None,
{
}

/// A reported count is taken as it is, but for one that cannot be.
pub proof fn reported_count_is_taken_as_it_is(n: i64)
    ensures
        n >= 0 ==> row_count(n) == n,
        n < 0 ==> row_count(n) == 0,
{
}

/// The columns whose order is asked are those that order the window of some query
/// over the relation.
pub proof fn order_is_asked_of_window_columns(queries: Seq<UpdateQuery>, name: Seq<char>)
    ensures
        order_columns(queries).contains(name) <==> exists|i: int|
            0 <= i < queries.len() && (#[trigger] queries[i]).limit_window_columns.deep_view().contains(
                name,
            ),
    decreases queries.len(),
{
    if queries.len() > 0 {
        let short = queries.drop_last();
        order_is_asked_of_window_columns(short, name);
        let last = queries.last().limit_window_columns.deep_view();
        lemma_with_all_distinct(order_columns(short), last);
        assert(queries[queries.len() - 1] == queries.last());
        if order_columns(short).contains(name) {
            let i = choose|i: int|
                0 <= i < short.len() && (
                #[trigger] short[i]).limit_window_columns.deep_view().contains(name);
            assert(queries[i] == short[i]);
        }
        if exists|i: int|
            0 <= i < queries.len() && (
            #[trigger] queries[i]).limit_window_columns.deep_view().contains(name) {
            let i = choose|i: int|
                0 <= i < queries.len() && (
                #[trigger] queries[i]).limit_window_columns.deep_view().contains(name);
            if i < short.len() {
                assert(short[i] == queries[i]);
            }
        }
    }
}

/// A comparison that covers every column through which a query joins the relation
/// is always enough; where one is not enough, such a column is missing.
pub proof fn comparison_of_all_join_columns_is_enough(
    queries: Seq<UpdateQuery>,
    table: TableMetadata,
    row: RowView,
    changes: Seq<ColumnChange>,
)
    ensures
        (forall|k: int, i: int|
            #![trigger queries[k].constraints.join_columns@[i]]
            0 <= k < queries.len() && 0 <= i < queries[k].constraints.join_columns@.len()
                && queries[k].constraints.join_columns@[i].table@ == table.name@ ==> change_of(
                changes,
                queries[k].constraints.join_columns@[i].column@,
            ) is Some) ==> all_joins_covered(queries, table, row, changes),
{
    if forall|k: int, i: int|
        #![trigger queries[k].constraints.join_columns@[i]]
        0 <= k < queries.len() && 0 <= i < queries[k].constraints.join_columns@.len()
            && queries[k].constraints.join_columns@[i].table@ == table.name@ ==> change_of(
            changes,
            queries[k].constraints.join_columns@[i].column@,
        ) is Some {
        assert forall|k: int| 0 <= k < queries.len() implies joins_covered(
            #[trigger] queries[k],
            table,
            row,
            changes,
        ) by {}
    }
}

/// A replay takes over all events of the batch, in order and each in its place,
/// and leaves none behind.
pub proof fn replay_takes_over_every_event(c: CoreView)
    ensures
        ({
            let o = replay_begun(c);
            &&& o.error is None
            &&& o.replay.events.len() == c.frame.rows.len()
            &&& forall|i: int|
                0 <= i < c.frame.rows.len() ==> crate::toast_laws::is_repair_of(
                    #[trigger] o.replay.events[i],
                    c.frame.rows[i],
                )
            &&& o.replay.next == 0
            &&& o.core.frame.rows.len() == 0
            &&& o.core.cache == c.cache && o.core.keys == c.keys && o.core.frame.buf == c.frame.buf
        }),
{
    crate::toast_laws::first_pass_keeps_what_is_there(
        c.frame.toast,
        c.cache.tables,
        c.frame.rows,
    );
}

/// A segment begins with the next event and asks about its rows up to its
/// TRUNCATE; with no event left, or when the batch recovers, the replay is over.
pub proof fn segment_begins_with_the_next_event(r: ReplayView, c: CoreView)
    requires
        r.stage == ReplayStage::Segment,
        0 <= r.next <= r.events.len() <= usize::MAX,
    ensures
        ({
            let o = replay_step(r, c);
            if r.next < r.events.len() && c.frame.state != FrameState::Recovering {
                &&& o.replay.end == segment_end(r.events, r.next)
                &&& o.replay.next == r.next
                &&& o.replay.eval.from == r.next
                &&& o.replay.eval.to == (if r.events[o.replay.end - 1] is Truncate {
                    o.replay.end - 1
                } else {
                    o.replay.end
                })
                &&& o.replay.stage == ReplayStage::Questions || o.replay.stage
                    == ReplayStage::Event
                &&& !(r.events[r.next] is Truncate) ==> o.replay.stage == ReplayStage::Questions
            } else {
                o.replay.stage == ReplayStage::Done
            }
        }),
{
    reveal(replay_step);
    if r.next < r.events.len() {
        crate::handling_laws::truncate_ends_its_segment(r.events, r.next);
    }
}

/// Of several queries that are forgotten none is registered any more, and every
/// other one is.
pub proof fn forgotten_queries_are_gone(c: CacheView, fingerprints: Seq<u64>, q: CachedView)
    ensures
        queries_forgotten(c, fingerprints).cached.contains(q) <==> c.cached.contains(q)
            && !fingerprints.contains(q.fingerprint),
    decreases fingerprints.len(),
{
    if fingerprints.len() > 0 {
        let short = fingerprints.drop_last();
        let last = fingerprints.last();
        forgotten_queries_are_gone(c, short, q);
        let before = queries_forgotten(c, short);
        assert(fingerprints.contains(q.fingerprint) <==> short.contains(q.fingerprint) || last
            == q.fingerprint) by {
            if fingerprints.contains(q.fingerprint) {
                let k = choose|k: int|
                    0 <= k < fingerprints.len() && fingerprints[k] == q.fingerprint;
                if k < short.len() {
                    assert(short[k] == q.fingerprint);
                }
            }
            if short.contains(q.fingerprint) {
                let k = choose|k: int| 0 <= k < short.len() && short[k] == q.fingerprint;
                assert(fingerprints[k] == q.fingerprint);
            }
            assert(fingerprints[fingerprints.len() - 1] == last);
        }
        query_is_found_by_its_fingerprint(before.cached, last);
        if cached_find(before.cached, last) is Some {
            let pred = |x: CachedView| x.fingerprint != last;
            other_queries_stay_registered(before.cached, last);
            before.cached.filter_lemma(pred);
            let kept = before.cached.filter(pred);
            if kept.contains(q) {
                let k = choose|k: int| 0 <= k < kept.len() && kept[k] == q;
                assert(pred(kept[k]));
                before.cached.lemma_filter_contains_rev(pred, q);
            }
            if before.cached.contains(q) && q.fingerprint != last {
                let k = choose|k: int| 0 <= k < before.cached.len() && before.cached[k] == q;
                assert(pred(before.cached[k]));
            }
        } else if before.cached.contains(q) {
            let k = choose|k: int| 0 <= k < before.cached.len() && before.cached[k] == q;
            assert(before.cached[k].fingerprint != last);
        }
    }
}

/// An UPDATE has to look at what it changed exactly if some query over its relation
/// depends on it.
pub proof fn changes_matter_to_dependent_queries(u: UpdateQueries, c: CacheView, oid: u32)
    requires
        c.update_queries.contains_key(oid),
        c.update_queries[oid] == u.queries@,
    ensures
        u.needs_change_eval_spec() == needs_changes(c, oid),
        !needs_changes(c, oid) <==> forall|i: int|
            0 <= i < u.queries@.len() ==> !(#[trigger] u.queries@[i]).change_dependent,
{
}

/// A query that got a second chance is served under its new generation and counts
/// as not served since; nothing else of it changes, and no other query does.
pub proof fn second_chance_concerns_its_query(
    c: CacheView,
    fingerprint: u64,
    old_generation: u64,
    generation: u64,
    other: u64,
)
    requires
        other != fingerprint,
    ensures
        ({
            let after = bump_done(c, fingerprint, old_generation, generation);
            &&& after.entries.contains_key(fingerprint) == c.entries.contains_key(fingerprint)
            &&& c.entries.contains_key(fingerprint) ==> {
                &&& !after.entries[fingerprint].referenced
                &&& after.entries[fingerprint].generation == generation
                &&& after.entries[fingerprint].state == c.entries[fingerprint].state
                &&& after.entries[fingerprint].mv_state == c.entries[fingerprint].mv_state
            }
            &&& after.entries.contains_key(other) == c.entries.contains_key(other)
            &&& c.entries.contains_key(other) ==> after.entries[other] == c.entries[other]
            &&& after.cached.len() == c.cached.len()
            &&& forall|i: int|
                0 <= i < c.cached.len() ==> (#[trigger] after.cached[i]) == (CachedView {
                    generation: if c.cached[i].fingerprint == fingerprint {
                        generation
                    } else {
                        c.cached[i].generation
                    },
                    ..c.cached[i]
                })
        }),
{
}

} // verus!
