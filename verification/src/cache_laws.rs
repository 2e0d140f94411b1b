//! What becomes of the registered queries: what an eviction, an invalidation or
//! a change takes away, and that it leaves all else as it was.
use vstd::prelude::*;

use crate::cache::bound_value;
use crate::cache::cached_find;
use crate::cache::cached_without;
use crate::cache::cdc_invalidated;
use crate::cache::dirty_eval_required;
use crate::cache::entries_dirtied;
use crate::cache::evicted;
use crate::cache::invalidation_counts;
use crate::cache::purge_bound;
use crate::cache::purge_if_moved;
use crate::cache::purge_planned;
use crate::cache::purge_threshold;
use crate::cache::queries_without;
use crate::cache::query_removed;
use crate::cache::readers_of;
use crate::cache::table_drop_text;
use crate::cache::tables_dropped;
use crate::cache::under_pressure;
use crate::cache::without;
use crate::cache::CachePolicy;
use crate::cache::CacheView;
use crate::cache::CachedQueryState;
use crate::cache::CachedView;
use crate::cache::EffectView;
use crate::cache::EntryView;
use crate::cache::PurgeBound;
use crate::catalog::named_cell;
use crate::catalog::pk_body;
use crate::catalog::pk_cells_sql;
use crate::catalog::schema_same;
use crate::catalog::RowView;
use crate::catalog::TableMetadata;
use crate::command::row_of;
use crate::command::toasted_of;
use crate::command::CdcValue;
use crate::deadlock::is_deadlock;
use crate::error::CacheError;
use crate::eviction::bump_texts;
use crate::eviction::count_cap;
use crate::eviction::with_generation;
use crate::fault::Faults;
use crate::memo::memo_bumped;
use crate::memo::version_of;
use crate::memo::MemoView;
use crate::mv::completion;
use crate::mv::BuildEnd;
use crate::mv::MvState;
use crate::mv::ShapeGate;
use crate::publication::released;
use crate::query::UpdateQuery;
use crate::reclaim::entries_aged;
use crate::reclaim::stale_of;
use crate::serving::build_completed;
use crate::serving::build_dispatchable;
use crate::serving::entry_written;
use crate::serving::mv_classified;
use crate::text::decimal;

verus! {

/// A query is found by its fingerprint: the first registered one that has it, or
/// none has it.
pub proof fn query_is_found_by_its_fingerprint(cached: Seq<CachedView>, fingerprint: u64)
    ensures
        match cached_find(cached, fingerprint) {
            Some(q) => q.fingerprint == fingerprint && cached.contains(q),
            None => forall|i: int|
                0 <= i < cached.len() ==> (#[trigger] cached[i]).fingerprint != fingerprint,
        },
    decreases cached.len(),
{
    if cached.len() > 0 {
        let rest = cached.drop_first();
        query_is_found_by_its_fingerprint(rest, fingerprint);
        match cached_find(cached, fingerprint) {
            Some(q) => {
                if cached[0].fingerprint == fingerprint {
                    assert(cached[0] == q);
                } else {
                    let k = choose|k: int| 0 <= k < rest.len() && rest[k] == q;
                    assert(cached[k + 1] == q);
                }
            },
            None => {
                assert forall|i: int| 0 <= i < cached.len() implies (
                #[trigger] cached[i]).fingerprint != fingerprint by {
                    if i > 0 {
                        assert(rest[i - 1] == cached[i]);
                    }
                }
            },
        }
    }
}

/// Taking away a query leaves the other registered ones, in order.
pub proof fn other_queries_stay_registered(cached: Seq<CachedView>, fingerprint: u64)
    ensures
        cached_without(cached, fingerprint) == cached.filter(
            |q: CachedView| q.fingerprint != fingerprint,
        ),
    decreases cached.len(),
{
    reveal(Seq::filter);
    if cached.len() > 0 {
        other_queries_stay_registered(cached.drop_last(), fingerprint);
    }
}

/// Taking away a query leaves the other queries over a relation, in order.
pub proof fn other_queries_stay_over_the_relation(queries: Seq<UpdateQuery>, fingerprint: u64)
    ensures
        queries_without(queries, fingerprint) == queries.filter(
            |q: UpdateQuery| q.fingerprint != fingerprint,
        ),
    decreases queries.len(),
{
    reveal(Seq::filter);
    if queries.len() > 0 {
        other_queries_stay_over_the_relation(queries.drop_last(), fingerprint);
    }
}

/// Taking away a number leaves the others, in order.
pub proof fn other_numbers_stay(list: Seq<u64>, item: u64)
    ensures
        without(list, item) == list.filter(|x: u64| x != item),
    decreases list.len(),
{
    reveal(Seq::filter);
    if list.len() > 0 {
        other_numbers_stay(list.drop_last(), item);
    }
}

/// The readers of a relation are the registered queries that name it.
pub proof fn readers_name_the_relation(cached: Seq<CachedView>, oid: u32)
    ensures
        readers_of(cached, oid) == cached.filter(
            |q: CachedView| q.relation_oids.contains(oid),
        ).map_values(|q: CachedView| q.fingerprint),
    decreases cached.len(),
{
    reveal(Seq::filter);
    if cached.len() > 0 {
        readers_name_the_relation(cached.drop_last(), oid);
    }
    assert(readers_of(cached, oid) =~= cached.filter(
        |q: CachedView| q.relation_oids.contains(oid),
    ).map_values(|q: CachedView| q.fingerprint));
}

/// The queries over a relation; none when it has none.
pub open spec fn over(m: Map<u32, Seq<UpdateQuery>>, oid: u32) -> Seq<UpdateQuery> {
    if m.contains_key(oid) {
        m[oid]
    } else {
        Seq::empty()
    }
}

/// A removed query is over none of its relations any more; every other query is
/// over the same relations as before. A relation that has no query left is not
/// listed.
pub proof fn removed_query_is_over_no_relation(
    m: Map<u32, Seq<UpdateQuery>>,
    oids: Seq<u32>,
    fingerprint: u64,
    oid: u32,
)
    ensures
        over(query_removed(m, oids, fingerprint), oid) == (if oids.contains(oid) {
            over(m, oid).filter(|q: UpdateQuery| q.fingerprint != fingerprint)
        } else {
            over(m, oid)
        }),
        oids.contains(oid) && query_removed(m, oids, fingerprint).contains_key(oid)
            ==> query_removed(m, oids, fingerprint)[oid].len() > 0,
        !oids.contains(oid) ==> query_removed(m, oids, fingerprint).contains_key(oid)
            == m.contains_key(oid),
    decreases oids.len(),
{
    let pred = |q: UpdateQuery| q.fingerprint != fingerprint;
    reveal(Seq::filter);
    if oids.len() > 0 {
        let short = oids.drop_last();
        removed_query_is_over_no_relation(m, short, fingerprint, oid);
        let before = query_removed(m, short, fingerprint);
        if before.contains_key(oids.last()) {
            other_queries_stay_over_the_relation(before[oids.last()], fingerprint);
        }
        assert(oids.contains(oid) <==> short.contains(oid) || oids.last() == oid) by {
            if oids.contains(oid) {
                let k = choose|k: int| 0 <= k < oids.len() && oids[k] == oid;
                if k < short.len() {
                    assert(short[k] == oid);
                }
            }
            if short.contains(oid) {
                let k = choose|k: int| 0 <= k < short.len() && short[k] == oid;
                assert(oids[k] == oid);
            }
            assert(oids[oids.len() - 1] == oids.last());
        }
        let q = over(m, oid);
        lemma_filter_again(q, pred);
        assert(Seq::<UpdateQuery>::empty().filter(pred) =~= Seq::empty());
        if oids.last() == oid {
            assert(over(query_removed(m, oids, fingerprint), oid) == over(before, oid).filter(
                pred,
            ));
        }
    }
}

proof fn lemma_filter_again(list: Seq<UpdateQuery>, pred: spec_fn(UpdateQuery) -> bool)
    ensures
        list.filter(pred).filter(pred) == list.filter(pred),
    decreases list.len(),
{
    reveal(Seq::filter);
    if list.len() > 0 {
        lemma_filter_again(list.drop_last(), pred);
        let short = list.drop_last().filter(pred);
        if pred(list.last()) {
            assert(short.push(list.last()).drop_last() =~= short);
        }
    }
}

proof fn lemma_find_without(cached: Seq<CachedView>, fingerprint: u64, other: u64)
    requires
        other != fingerprint,
    ensures
        cached_find(cached_without(cached, fingerprint), other) == cached_find(cached, other),
    decreases cached.len(),
{
    if cached.len() > 0 {
        let short = cached.drop_last();
        lemma_find_without(short, fingerprint, other);
        lemma_find_push(short, cached.last(), other);
        assert(cached == short.push(cached.last()));
        if cached.last().fingerprint != fingerprint {
            lemma_find_push(cached_without(short, fingerprint), cached.last(), other);
        }
    }
}

proof fn lemma_find_push(cached: Seq<CachedView>, q: CachedView, fingerprint: u64)
    ensures
        cached_find(cached.push(q), fingerprint) == match cached_find(cached, fingerprint) {
            Some(found) => Some(found),
            None => if q.fingerprint == fingerprint {
                Some(q)
            } else {
                None
            },
        },
    decreases cached.len(),
{
    reveal_with_fuel(cached_find, 2);
    if cached.len() > 0 {
        lemma_find_push(cached.drop_first(), q, fingerprint);
        assert(cached.push(q).drop_first() =~= cached.drop_first().push(q));
    } else {
        assert(cached.push(q).drop_first() =~= Seq::<CachedView>::empty());
    }
}

/// Whether the effects of `before` come first among those of `after`.
pub open spec fn effects_grow(before: CacheView, after: CacheView) -> bool {
    before.effects.len() <= after.effects.len() && after.effects.take(
        before.effects.len() as int,
    ) == before.effects
}

proof fn lemma_purge_if_moved(c: CacheView, before: PurgeBound, locks_held: bool)
    ensures
        ({
            let after = purge_if_moved(c, before, locks_held);
            &&& after == (CacheView {
                effects: after.effects,
                purge_pending: after.purge_pending,
                ..c
            })
            &&& effects_grow(c, after)
            &&& forall|e: EffectView|
                !(e is Purge) ==> (#[trigger] after.effects.contains(e) <==> c.effects.contains(e))
        }),
{
    let after = purge_if_moved(c, before, locks_held);
    assert(after.effects.take(c.effects.len() as int) =~= c.effects);
    if after.effects != c.effects {
        let e = after.effects.last();
        assert(after.effects == c.effects.push(e));
        assert forall|x: EffectView| !(x is Purge) implies (#[trigger] after.effects.contains(x)
            <==> c.effects.contains(x)) by {
            lemma_effect_pushed(c.effects, e, x);
        }
    }
}

proof fn lemma_effect_pushed(list: Seq<EffectView>, e: EffectView, x: EffectView)
    ensures
        list.push(e).contains(x) <==> list.contains(x) || x == e,
{
    let all = list.push(e);
    assert(all[list.len() as int] == e);
    if list.contains(x) {
        let k = choose|k: int| 0 <= k < list.len() && list[k] == x;
        assert(all[k] == x);
    }
    if all.contains(x) && x != e {
        let k = choose|k: int| 0 <= k < all.len() && all[k] == x;
        assert(list[k] == x);
    }
}

/// Whether another query is registered and served as before.
pub open spec fn is_untouched(before: CacheView, after: CacheView, other: u64) -> bool {
    &&& cached_find(after.cached, other) == cached_find(before.cached, other)
    &&& after.entries.contains_key(other) == before.entries.contains_key(other)
    &&& before.entries.contains_key(other) ==> after.entries[other] == before.entries[other]
}

/// An eviction takes the query alone: every other stays registered, served and
/// over its relations. Its generation is no longer live, its memo is stale, the
/// requests that wait for it are sent away, and its table is dropped if it has
/// one that no build holds.
pub proof fn eviction_takes_one_query(
    c: CacheView,
    fingerprint: u64,
    locks_held: bool,
    other: u64,
    oid: u32,
)
    requires
        cached_find(c.cached, fingerprint) is Some,
        other != fingerprint,
        !c.effects.contains(EffectView::MvDrop { fingerprint }),
    ensures
        ({
            let after = evicted(c, fingerprint, locks_held);
            let q = cached_find(c.cached, fingerprint)->0;
            &&& is_untouched(c, after, other)
            &&& !after.entries.contains_key(fingerprint)
            &&& over(after.update_queries, oid) == (if q.relation_oids.contains(oid) {
                over(c.update_queries, oid).filter(|u: UpdateQuery| u.fingerprint != fingerprint)
            } else {
                over(c.update_queries, oid)
            })
            &&& after.generations == c.generations.filter(|g: u64| g != q.generation)
            &&& version_of(after.memo.memo_versions, fingerprint) != version_of(
                c.memo.memo_versions,
                fingerprint,
            )
            &&& effects_grow(c, after)
            &&& after.effects.contains(EffectView::WaitersFail { fingerprint })
            &&& after.effects.contains(EffectView::MvDrop { fingerprint }) <==> (
            c.entries.contains_key(fingerprint) && match c.entries[fingerprint].mv_state {
                MvState::Fresh => true,
                MvState::Pending { has_table } => has_table,
                MvState::Scheduled { has_table } => has_table,
                _ => false,
            })
            &&& after.active.counts == released(c.active.counts, q.relation_oids)
            &&& after.tables == c.tables
            &&& after.generation_counter == c.generation_counter
        }),
{
    let after = evicted(c, fingerprint, locks_held);
    let q = cached_find(c.cached, fingerprint)->0;
    lemma_find_without(c.cached, fingerprint, other);
    removed_query_is_over_no_relation(c.update_queries, q.relation_oids, fingerprint, oid);
    other_numbers_stay(c.generations, q.generation);
    let effects = crate::cache::evict_effects(c, fingerprint);
    let gone = CacheView {
        cached: cached_without(c.cached, fingerprint),
        active: crate::publication::relations_released(c.active, q.relation_oids),
        generations: without(c.generations, q.generation),
        entries: c.entries.remove(fingerprint),
        memo: memo_bumped(c.memo, fingerprint),
        update_queries: query_removed(c.update_queries, q.relation_oids, fingerprint),
        effects,
        ..c
    };
    assert(after == purge_if_moved(gone, purge_bound(c.generations), locks_held));
    lemma_purge_if_moved(gone, purge_bound(c.generations), locks_held);
    let drop = EffectView::MvDrop { fingerprint };
    let fail = EffectView::WaitersFail { fingerprint };
    lemma_effect_pushed(c.effects, drop, drop);
    lemma_effect_pushed(c.effects.push(drop), fail, drop);
    lemma_effect_pushed(c.effects, fail, drop);
    assert(effects[effects.len() - 1] == fail);
    assert(effects.contains(fail));
    assert(after.effects.take(c.effects.len() as int) =~= c.effects) by {
        let n = c.effects.len() as int;
        assert(after.effects.take(effects.len() as int) == effects);
        assert(effects.take(n) =~= c.effects);
        assert(after.effects.take(n) =~= after.effects.take(effects.len() as int).take(n));
    }
}

/// A change that invalidates a query: a pinned one stays as it is and is
/// readmitted; one of a FIFO cache is evicted; any other stays registered, marked,
/// and serves no longer, its generation no longer live. Whoever waits for it is
/// sent away, and no other query is touched.
pub proof fn invalidated_query_serves_no_longer(
    c: CacheView,
    fingerprint: u64,
    locks_held: bool,
    other: u64,
)
    requires
        cached_find(c.cached, fingerprint) is Some,
        other != fingerprint,
    ensures
        ({
            let after = cdc_invalidated(c, fingerprint, locks_held);
            let q = cached_find(c.cached, fingerprint)->0;
            &&& is_untouched(c, after, other)
            &&& q.pinned ==> is_untouched(c, after, fingerprint) && after.effects.contains(
                EffectView::Readmit { fingerprint },
            )
            &&& !q.pinned && c.policy == CachePolicy::Fifo ==> after == evicted(
                c,
                fingerprint,
                locks_held,
            )
            &&& !q.pinned && c.policy != CachePolicy::Fifo && !q.invalidated ==> {
                &&& cached_find(after.cached, fingerprint) == Some(
                    CachedView { invalidated: true, ..q },
                )
                &&& after.generations == c.generations.filter(|g: u64| g != q.generation)
                &&& c.entries.contains_key(fingerprint) ==> {
                    &&& after.entries.contains_key(fingerprint)
                    &&& after.entries[fingerprint].state == CachedQueryState::Invalidated
                    &&& after.entries[fingerprint].mv_state != MvState::Fresh
                    &&& !after.entries[fingerprint].referenced
                    &&& after.entries[fingerprint].sql == c.entries[fingerprint].sql
                    &&& after.entries[fingerprint].generation == c.entries[fingerprint].generation
                }
            }
            &&& (q.pinned || !q.invalidated) ==> after.effects.contains(
                EffectView::WaitersFail { fingerprint },
            )
        }),
{
    let after = cdc_invalidated(c, fingerprint, locks_held);
    let q = cached_find(c.cached, fingerprint)->0;
    let fail = EffectView::WaitersFail { fingerprint };
    let readmit = EffectView::Readmit { fingerprint };
    if q.pinned {
        lemma_effect_pushed(c.effects, readmit, readmit);
        lemma_effect_pushed(c.effects.push(readmit), fail, readmit);
        lemma_effect_pushed(c.effects.push(readmit), fail, fail);
    } else if c.policy == CachePolicy::Fifo {
        lemma_eviction_fails_waiters(c, fingerprint, locks_held, other);
    } else if !q.invalidated {
        let marked = CacheView {
            generations: without(c.generations, q.generation),
            cached: crate::cache::cached_marked(c.cached, fingerprint),
            entries: if c.entries.contains_key(fingerprint) {
                c.entries.insert(
                    fingerprint,
                    crate::cache::entry_invalidated(c.entries[fingerprint]),
                )
            } else {
                c.entries
            },
            effects: c.effects.push(fail),
            ..c
        };
        assert(after == purge_if_moved(marked, purge_bound(c.generations), locks_held));
        lemma_purge_if_moved(marked, purge_bound(c.generations), locks_held);
        other_numbers_stay(c.generations, q.generation);
        lemma_find_marked(c.cached, fingerprint, fingerprint);
        lemma_find_marked(c.cached, fingerprint, other);
        lemma_effect_pushed(c.effects, fail, fail);
        query_is_found_by_its_fingerprint(c.cached, fingerprint);
        query_is_found_by_its_fingerprint(c.cached, other);
    }
}

proof fn lemma_eviction_fails_waiters(
    c: CacheView,
    fingerprint: u64,
    locks_held: bool,
    other: u64,
)
    requires
        cached_find(c.cached, fingerprint) is Some,
        other != fingerprint,
    ensures
        is_untouched(c, evicted(c, fingerprint, locks_held), other),
        evicted(c, fingerprint, locks_held).effects.contains(
            EffectView::WaitersFail { fingerprint },
        ),
{
    let after = evicted(c, fingerprint, locks_held);
    let q = cached_find(c.cached, fingerprint)->0;
    lemma_find_without(c.cached, fingerprint, other);
    let effects = crate::cache::evict_effects(c, fingerprint);
    let gone = CacheView {
        cached: cached_without(c.cached, fingerprint),
        active: crate::publication::relations_released(c.active, q.relation_oids),
        generations: without(c.generations, q.generation),
        entries: c.entries.remove(fingerprint),
        memo: memo_bumped(c.memo, fingerprint),
        update_queries: query_removed(c.update_queries, q.relation_oids, fingerprint),
        effects,
        ..c
    };
    assert(after == purge_if_moved(gone, purge_bound(c.generations), locks_held));
    lemma_purge_if_moved(gone, purge_bound(c.generations), locks_held);
    let fail = EffectView::WaitersFail { fingerprint };
    assert(effects[effects.len() - 1] == fail);
    assert(effects.contains(fail));
}

proof fn lemma_find_marked(cached: Seq<CachedView>, fingerprint: u64, other: u64)
    ensures
        cached_find(crate::cache::cached_marked(cached, fingerprint), other) == match cached_find(
            cached,
            other,
        ) {
            Some(q) => Some(
                if q.fingerprint == fingerprint {
                    CachedView { invalidated: true, ..q }
                } else {
                    q
                },
            ),
            None => None,
        },
    decreases cached.len(),
{
    if cached.len() > 0 {
        lemma_find_marked(cached.drop_first(), fingerprint, other);
        assert(crate::cache::cached_marked(cached, fingerprint).drop_first()
            =~= crate::cache::cached_marked(cached.drop_first(), fingerprint));
    }
}

/// An invalidation is an event if it changes anything: a query that is gone, or
/// that was invalidated before, is no event, except that a FIFO cache counts
/// every attempt.
pub proof fn only_changes_count_as_invalidations(
    c: CacheView,
    fingerprint: u64,
    locks_held: bool,
)
    ensures
        c.policy != CachePolicy::Fifo && !invalidation_counts(c, fingerprint) ==> cdc_invalidated(
            c,
            fingerprint,
            locks_held,
        ) == c,
        c.policy == CachePolicy::Fifo ==> invalidation_counts(c, fingerprint),
        invalidation_counts(c, fingerprint) && cached_find(c.cached, fingerprint) is Some
            ==> cdc_invalidated(c, fingerprint, locks_held).effects.contains(
            EffectView::WaitersFail { fingerprint },
        ),
{
    if cached_find(c.cached, fingerprint) is Some {
        let q = cached_find(c.cached, fingerprint)->0;
        let other = if fingerprint == 0 {
            1u64
        } else {
            0u64
        };
        invalidated_query_serves_no_longer(c, fingerprint, locks_held, other);
        if !q.pinned && c.policy == CachePolicy::Fifo {
            lemma_eviction_fails_waiters(c, fingerprint, locks_held, other);
        }
    }
}

/// What a purge deletes no live query keeps: every live generation lies above
/// what is purged, and everything below the oldest of them is purged. With no
/// live query all that was given out is.
pub proof fn purge_spares_live_generations(generations: Seq<u64>, counter: u64)
    requires
        forall|i: int, j: int|
            0 <= i < j < generations.len() ==> (#[trigger] generations[i])
                < (#[trigger] generations[j]),
    ensures
        ({
            let threshold = purge_threshold(generations, counter);
            &&& forall|i: int|
                0 <= i < generations.len() && (#[trigger] generations[i]) > 0 ==> threshold
                    < generations[i]
            &&& generations.len() > 0 && generations[0] > 0 ==> threshold + 1 == generations[0]
            &&& generations.len() > 0 && generations[0] == 0 ==> threshold == 0
            &&& generations.len() == 0 ==> threshold == counter
        }),
{
    assert forall|i: int| 0 <= i < generations.len() && (#[trigger] generations[i]) > 0 implies
        purge_threshold(generations, counter) < generations[i] by {
        if i > 0 {
            assert(generations[0] < generations[i]);
        }
    }
}

/// A purge stamps the unstamped rows with a new generation, above every one that
/// was given out, and deletes up to its bound. One whose bound does not lie above
/// another that it is to exceed does nothing.
pub proof fn purge_deletes_up_to_its_bound(
    above: Option<PurgeBound>,
    up_to: PurgeBound,
    counter: u64,
)
    requires
        counter < u64::MAX,
    ensures
        match purge_planned(above, up_to, counter) {
            Some(plan) => {
                &&& plan.promote_to == counter + 1
                &&& plan.threshold == (if bound_value(up_to, counter) == 0 {
                    None
                } else {
                    Some(bound_value(up_to, counter))
                })
                &&& above is Some ==> bound_value(above->0, counter) < bound_value(up_to, counter)
            },
            None => above is Some && bound_value(above->0, counter) >= bound_value(up_to, counter),
        },
        forall|g: u64|
            #[trigger] bound_value(PurgeBound::Generation { generation: g }, counter) == g,
        bound_value(PurgeBound::Counter, counter) == counter,
{
}

/// There is pressure when it is forced, or when more of the volume is in use than
/// the limit; less room never relieves it, and an unknown volume is under none.
pub proof fn less_room_is_more_pressure(c: CacheView, available: u64)
    requires
        available <= c.disk_available,
    ensures
        c.disk_available <= c.disk_total && !c.disk_forced ==> (under_pressure(c) <==> c.disk_total
            > c.disk_available + c.disk_limit),
        under_pressure(c) ==> under_pressure(CacheView { disk_available: available, ..c }),
        c.disk_forced ==> under_pressure(c),
        c.disk_total == 0 && !c.disk_forced ==> !under_pressure(c),
        c.disk_available > c.disk_total && !c.disk_forced ==> !under_pressure(c),
{
}

/// A change makes every named query's materialized result out of date: none of
/// them is fresh afterwards, and a build that runs is known to be overtaken. Nothing
/// else of any query changes, and no other query does.
pub proof fn change_outdates_the_named_results(
    m: Map<u64, EntryView>,
    fingerprints: Seq<u64>,
    fp: u64,
)
    ensures
        ({
            let after = entries_dirtied(m, fingerprints);
            &&& after.contains_key(fp) == m.contains_key(fp)
            &&& m.contains_key(fp) ==> after[fp] == (EntryView {
                mv_state: after[fp].mv_state,
                ..m[fp]
            })
            &&& m.contains_key(fp) ==> after[fp].mv_state == (if fingerprints.contains(fp) {
                match m[fp].mv_state {
                    MvState::Fresh => MvState::Pending { has_table: true },
                    MvState::Building { has_table } => MvState::BuildingDirty { has_table },
                    state => state,
                }
            } else {
                m[fp].mv_state
            })
            &&& fingerprints.contains(fp) ==> !dirty_eval_required(after, fp)
            &&& !fingerprints.contains(fp) ==> dirty_eval_required(after, fp)
                == dirty_eval_required(m, fp)
        }),
        dirty_eval_required(m, fp) <==> m.contains_key(fp) && (m[fp].mv_state is Fresh
            || m[fp].mv_state is Building),
    decreases fingerprints.len(),
{
    if fingerprints.len() > 0 {
        let short = fingerprints.drop_last();
        change_outdates_the_named_results(m, short, fp);
        assert(fingerprints.contains(fp) <==> short.contains(fp) || fingerprints.last() == fp) by {
            if fingerprints.contains(fp) {
                let k = choose|k: int| 0 <= k < fingerprints.len() && fingerprints[k] == fp;
                if k < short.len() {
                    assert(short[k] == fp);
                }
            }
            if short.contains(fp) {
                let k = choose|k: int| 0 <= k < short.len() && short[k] == fp;
                assert(fingerprints[k] == fp);
            }
            assert(fingerprints[fingerprints.len() - 1] == fingerprints.last());
        }
    }
}

/// Dropping relations forgets each of them and no other, and asks for the drop
/// of each cache table that is known.
pub proof fn dropped_tables_are_forgotten(c: CacheView, oids: Seq<u32>, oid: u32)
    ensures
        ({
            let after = tables_dropped(c, oids);
            &&& after.tables.contains_key(oid) <==> c.tables.contains_key(oid) && !oids.contains(oid)
            &&& after.tables.contains_key(oid) ==> after.tables[oid] == c.tables[oid]
            &&& effects_grow(c, after)
            &&& c.tables.contains_key(oid) && oids.contains(oid) ==> after.effects.contains(
                EffectView::TableDrop { sql: table_drop_text(c.tables[oid]) },
            )
            &&& after.cached == c.cached && after.entries == c.entries && after.update_queries
                == c.update_queries
        }),
    decreases oids.len(),
{
    let after = tables_dropped(c, oids);
    if oids.len() == 0 {
        assert(after.effects.take(c.effects.len() as int) =~= c.effects);
    } else {
        let short = oids.drop_last();
        dropped_tables_are_forgotten(c, short, oid);
        dropped_tables_are_forgotten(c, short, oids.last());
        let before = tables_dropped(c, short);
        assert(oids.contains(oid) <==> short.contains(oid) || oids.last() == oid) by {
            if oids.contains(oid) {
                let k = choose|k: int| 0 <= k < oids.len() && oids[k] == oid;
                if k < short.len() {
                    assert(short[k] == oid);
                }
            }
            if short.contains(oid) {
                let k = choose|k: int| 0 <= k < short.len() && short[k] == oid;
                assert(oids[k] == oid);
            }
            assert(oids[oids.len() - 1] == oids.last());
        }
        let gone = EffectView::TableDrop { sql: table_drop_text(c.tables[oid]) };
        if before.tables.contains_key(oids.last()) {
            let e = EffectView::TableDrop { sql: table_drop_text(before.tables[oids.last()]) };
            lemma_effect_pushed(before.effects, e, gone);
            assert(after.effects.take(c.effects.len() as int) =~= before.effects.take(
                c.effects.len() as int,
            ));
        }
    }
}

/// A streamed row has a cell for each value, and tells a value that was left out
/// from one that is null.
pub proof fn left_out_values_are_marked(values: Seq<CdcValue>, i: usize)
    requires
        values.len() <= usize::MAX,
    ensures
        row_of(values).len() == values.len(),
        i < values.len() ==> match values[i as int] {
            CdcValue::Text(text) => row_of(values)[i as int] == Some(text@),
            _ => row_of(values)[i as int] is None,
        },
        toasted_of(values).contains(i) <==> i < values.len() && values[i as int] is Toasted,
    decreases values.len(),
{
    if values.len() > 0 {
        let short = values.drop_last();
        left_out_values_are_marked(short, i);
        let rest = toasted_of(short);
        let n = (values.len() - 1) as usize;
        if values.last() is Toasted {
            let all = rest.push(n);
            assert(all[rest.len() as int] == n);
            if rest.contains(i) {
                let k = choose|k: int| 0 <= k < rest.len() && rest[k] == i;
                assert(all[k] == i);
            }
            if all.contains(i) && i != n {
                let k = choose|k: int| 0 <= k < all.len() && all[k] == i;
                assert(rest[k] == i);
            }
        }
        if i < n {
            assert(short[i as int] == values[i as int]);
        }
    }
}

/// A deadlock is what the server reports under its code, and nothing else is.
pub proof fn deadlock_is_told_by_its_code(e: CacheError)
    ensures
        is_deadlock(e) <==> (e is PgError && e->code is Some && (e->code->0)@ == "40P01"@),
{
}

/// Two descriptions that give a cache table the same shape identify every row
/// by the same key.
pub proof fn same_shape_means_same_keys(a: TableMetadata, b: TableMetadata, row: RowView)
    requires
        schema_same(a, b),
    ensures
        schema_same(b, a),
        a.schema@ == b.schema@ && a.name@ == b.name@,
        a.columns@.len() == b.columns@.len(),
        pk_body(a, row) == pk_body(b, row),
{
    lemma_same_keys(a, b, row, a.primary_key_columns@.len() as int);
    assert(a.primary_key_columns@.take(a.primary_key_columns@.len() as int)
        =~= a.primary_key_columns@);
    assert(b.primary_key_columns@.take(a.primary_key_columns@.len() as int)
        =~= b.primary_key_columns@);
}

proof fn lemma_same_keys(a: TableMetadata, b: TableMetadata, row: RowView, n: int)
    requires
        schema_same(a, b),
        0 <= n <= a.primary_key_columns@.len(),
    ensures
        pk_cells_sql(a.columns@, a.primary_key_columns@.take(n), row) == pk_cells_sql(
            b.columns@,
            b.primary_key_columns@.take(n),
            row,
        ),
    decreases n,
{
    if n > 0 {
        lemma_same_keys(a, b, row, n - 1);
        let (x, y) = (a.primary_key_columns@.take(n), b.primary_key_columns@.take(n));
        assert(x.drop_last() =~= a.primary_key_columns@.take(n - 1));
        assert(y.drop_last() =~= b.primary_key_columns@.take(n - 1));
        let name = a.primary_key_columns@[n - 1]@;
        assert(x.last()@ == name && y.last()@ == name);
        crate::catalog::lemma_column_position(a.columns@, name);
        crate::catalog::lemma_column_position(b.columns@, name);
        assert(named_cell(a.columns@, row, name) == named_cell(b.columns@, row, name)) by {
            assert forall|i: int| 0 <= i < a.columns@.len() implies (
            #[trigger] a.columns@[i]).name@ == b.columns@[i].name@ && a.columns@[i].position
                == b.columns@[i].position by {}
            assert forall|i: int| 0 <= i < b.columns@.len() implies (
            #[trigger] b.columns@[i]).name@ == a.columns@[i].name@ by {
                assert(a.columns@[i].name@ == b.columns@[i].name@);
            }
        }
    }
}

/// The stale queries are those that were invalidated, are not pinned, and lie
/// below the threshold.
pub proof fn stale_queries_are_old_and_invalidated(cached: Seq<CachedView>, threshold: u64)
    ensures
        stale_of(cached, threshold) == cached.filter(
            |q: CachedView| q.invalidated && !q.pinned && q.generation < threshold,
        ).map_values(|q: CachedView| q.fingerprint),
    decreases cached.len(),
{
    reveal(Seq::filter);
    if cached.len() > 0 {
        stale_queries_are_old_and_invalidated(cached.drop_last(), threshold);
    }
    assert(stale_of(cached, threshold) =~= cached.filter(
        |q: CachedView| q.invalidated && !q.pinned && q.generation < threshold,
    ).map_values(|q: CachedView| q.fingerprint));
}

/// Credit runs out hit by hit: aging entries twice is aging them once by both
/// counts. A query that is served or being loaded is kept as it is, and an
/// invalidated one as long as its generation is not past.
pub proof fn credit_runs_out_hit_by_hit(
    m: Map<u64, EntryView>,
    first: u64,
    second: u64,
    threshold: u64,
    fp: u64,
)
    requires
        first + second <= u64::MAX,
    ensures
        entries_aged(entries_aged(m, first, threshold), second, threshold) =~= entries_aged(
            m,
            (first + second) as u64,
            threshold,
        ),
        ({
            let after = entries_aged(m, first, threshold);
            &&& after.contains_key(fp) ==> m.contains_key(fp)
            &&& m.contains_key(fp) && m[fp].state is Pending ==> (after.contains_key(fp)
                <==> m[fp].state->credit > first)
            &&& m.contains_key(fp) && (m[fp].state is Ready || m[fp].state is Loading)
                ==> after.contains_key(fp) && after[fp] == m[fp]
            &&& m.contains_key(fp) && m[fp].state is Invalidated ==> (after.contains_key(fp)
                <==> m[fp].generation >= threshold)
            &&& after.contains_key(fp) && !(m[fp].state is Pending) ==> after[fp] == m[fp]
        }),
{
}

/// The list of live generations takes in a new one at its place.
pub proof fn generation_joins_the_live_ones(list: Seq<u64>, generation: u64, x: u64)
    requires
        forall|i: int, j: int|
            0 <= i < j < list.len() ==> (#[trigger] list[i]) < (#[trigger] list[j]),
    ensures
        ({
            let after = with_generation(list, generation);
            &&& after.contains(x) <==> list.contains(x) || x == generation
            &&& forall|i: int, j: int|
                0 <= i < j < after.len() ==> (#[trigger] after[i]) < (#[trigger] after[j])
            &&& after.len() > 0
            &&& after.last() == (if list.len() > 0 && list.last() > generation {
                list.last()
            } else {
                generation
            })
        }),
    decreases list.len(),
{
    let after = with_generation(list, generation);
    if list.len() == 0 {
        assert(after[0] == generation);
    } else if list.last() < generation {
        assert(after[list.len() as int] == generation);
        if list.contains(x) {
            let k = choose|k: int| 0 <= k < list.len() && list[k] == x;
            assert(after[k] == x);
        }
        assert forall|i: int, j: int| 0 <= i < j < after.len() implies (#[trigger] after[i]) < (
        #[trigger] after[j]) by {
            if j == list.len() && i < list.len() - 1 {
                assert(list[i] < list[list.len() - 1]);
            }
        }
    } else if list.last() == generation {
        assert(list[list.len() - 1] == generation);
    } else {
        let short = list.drop_last();
        assert forall|i: int, j: int| 0 <= i < j < short.len() implies (#[trigger] short[i]) < (
        #[trigger] short[j]) by {
            assert(list[i] < list[j]);
        }
        generation_joins_the_live_ones(short, generation, x);
        let rest = with_generation(short, generation);
        assert(after == rest.push(list.last()));
        assert(after[rest.len() as int] == list.last());
        assert(list.contains(x) <==> short.contains(x) || list.last() == x) by {
            if list.contains(x) {
                let k = choose|k: int| 0 <= k < list.len() && list[k] == x;
                if k < short.len() {
                    assert(short[k] == x);
                }
            }
            if short.contains(x) {
                let k = choose|k: int| 0 <= k < short.len() && short[k] == x;
                assert(list[k] == x);
            }
            assert(list[list.len() - 1] == list.last());
        }
        if rest.contains(x) {
            let k = choose|k: int| 0 <= k < rest.len() && rest[k] == x;
            assert(after[k] == x);
        }
        if after.contains(x) && x != list.last() {
            let k = choose|k: int| 0 <= k < after.len() && after[k] == x;
            assert(rest[k] == x);
        }
        assert(rest.last() < list.last()) by {
            if short.len() > 0 {
                assert(list[short.len() - 1] < list[list.len() - 1]);
            }
        }
        assert forall|i: int, j: int| 0 <= i < j < after.len() implies (#[trigger] after[i]) < (
        #[trigger] after[j]) by {
            if j == rest.len() && i < rest.len() - 1 {
                assert(rest[i] < rest[rest.len() - 1]);
            }
        }
    }
}

/// A fault lowers how many queries may stay and never raises it.
pub proof fn fault_only_lowers_the_cap(faults: Faults, cap: usize)
    ensures
        count_cap(faults, cap) <= cap,
        faults.eviction_count_cap matches Some(n) ==> count_cap(faults, cap) <= n && (count_cap(
            faults,
            cap,
        ) == n || count_cap(faults, cap) == cap),
        faults.eviction_count_cap is None ==> count_cap(faults, cap) == cap,
{
}

/// A query's rows are stamped by running the query with the generation set, and
/// nothing later is stamped with it.
pub proof fn rows_are_stamped_by_the_query(generation: u64, sql: Seq<char>)
    ensures
        bump_texts(generation, sql).len() == 3,
        bump_texts(generation, sql)[0] == "SET mem.query_generation = "@ + decimal(
            generation as nat,
        ),
        bump_texts(generation, sql)[1] == sql,
        bump_texts(generation, sql)[2] == "SET mem.query_generation = "@ + decimal(0),
{
    reveal_strlit("SET mem.query_generation = 0");
    reveal_strlit("SET mem.query_generation = ");
    crate::text_laws::numeral_spells_its_number(0);
    assert("SET mem.query_generation = 0"@ =~= "SET mem.query_generation = "@ + seq!['0']);
    lemma_zero();
}

proof fn lemma_zero()
    ensures
        decimal(0) == seq!['0'],
{
    reveal_with_fuel(decimal, 2);
    assert(decimal(0) =~= seq!['0']);
}

/// A memo is stale after a bump, its slot is as free as before, and no other
/// memo is.
pub proof fn bumped_memo_is_stale(m: MemoView, fingerprint: u64, other: u64)
    requires
        other != fingerprint,
    ensures
        ({
            let after = memo_bumped(m, fingerprint);
            &&& version_of(after.memo_versions, fingerprint) != version_of(
                m.memo_versions,
                fingerprint,
            )
            &&& version_of(after.memo_versions, fingerprint) % 2 == version_of(
                m.memo_versions,
                fingerprint,
            ) % 2
            &&& version_of(after.memo_versions, other) == version_of(m.memo_versions, other)
            &&& after.memos == m.memos && after.relation_versions == m.relation_versions
        }),
{
}

/// A materialized result becomes fresh exactly if its build completed without a
/// change overtaking it, and, where it is the first, while the source rows still
/// serve. Its table is dropped exactly if a build completed that nobody waits for
/// any more. A failed build leaves the result to be built again.
pub proof fn build_is_fresh_iff_nothing_overtook_it(
    state: Option<MvState>,
    ready: bool,
    end: BuildEnd,
)
    ensures
        ({
            let done = completion(state, ready, end);
            let outlived = end is Built && end->was_first_build && !ready;
            &&& done.state == Some(MvState::Fresh) <==> (state is Some && state->0 is Building
                && end is Built && !outlived)
            &&& done.drop_table <==> end is Built && (state is None || outlived || !(state->0
                is Building || state->0 is BuildingDirty))
            &&& state is None ==> done.state is None
            &&& state is Some && end is Ineligible ==> done.state == Some(MvState::Ineligible)
            &&& state is Some && state->0 is BuildingDirty && end is Built && !outlived
                ==> done.state == Some(MvState::Pending { has_table: true })
            &&& state is Some && outlived ==> done.state == Some(
                MvState::Pending { has_table: false },
            )
            &&& state is Some && (state->0 is Building || state->0 is BuildingDirty)
                && end is Failed ==> done.state == Some(
                MvState::Pending { has_table: end->has_table },
            )
        }),
{
}

/// The completion of a build concerns its query alone.
pub proof fn completed_build_concerns_its_query(
    c: CacheView,
    fingerprint: u64,
    end: BuildEnd,
    columns: Option<Seq<Seq<char>>>,
    other: u64,
)
    requires
        other != fingerprint,
    ensures
        ({
            let after = build_completed(c, fingerprint, end, columns);
            &&& after.contains_key(other) == c.entries.contains_key(other)
            &&& c.entries.contains_key(other) ==> after[other] == c.entries[other]
            &&& after.contains_key(fingerprint) == c.entries.contains_key(fingerprint)
            &&& c.entries.contains_key(fingerprint) ==> {
                &&& after[fingerprint].state == c.entries[fingerprint].state
                &&& after[fingerprint].generation == c.entries[fingerprint].generation
                &&& after[fingerprint].mv_state == MvState::Fresh && c.entries[fingerprint].mv_state
                    != MvState::Fresh ==> after[fingerprint].output_columns == columns
                &&& c.entries[fingerprint].mv_state != MvState::Fresh ==> (
                after[fingerprint].mv_state == MvState::Fresh
                    <==> c.entries[fingerprint].mv_state is Building && end is Built && (
                end->was_first_build ==> c.entries[fingerprint].state is Ready))
            }
        }),
{
}

/// Classifying a query's shape starts its materialized result over: one that is
/// never worth a table is skipped, any other is to be built, without a table yet.
/// Writing a query's state keeps what is known of its materialized result. Neither
/// touches another query.
pub proof fn entry_is_written_alone(
    m: Map<u64, EntryView>,
    fingerprint: u64,
    gate: ShapeGate,
    mv_limit: Option<u64>,
    state: CachedQueryState,
    generation: u64,
    sql: Seq<char>,
    max_limit: Option<u64>,
    other: u64,
)
    requires
        other != fingerprint,
    ensures
        ({
            let after = mv_classified(m, fingerprint, gate, mv_limit);
            &&& after.contains_key(other) == m.contains_key(other)
            &&& m.contains_key(other) ==> after[other] == m[other]
            &&& after.contains_key(fingerprint) == m.contains_key(fingerprint)
            &&& m.contains_key(fingerprint) ==> {
                &&& after[fingerprint].mv_state is Skipped <==> gate == ShapeGate::Skip
                &&& gate != ShapeGate::Skip ==> after[fingerprint].mv_state == (MvState::Pending {
                    has_table: false,
                })
                &&& after[fingerprint].shape_gate == gate
                &&& after[fingerprint].mv_limit == mv_limit
                &&& after[fingerprint].state == m[fingerprint].state
                &&& after[fingerprint].sql == m[fingerprint].sql
            }
        }),
        ({
            let after = entry_written(m, fingerprint, state, generation, sql, max_limit);
            &&& after.contains_key(other) == m.contains_key(other)
            &&& m.contains_key(other) ==> after[other] == m[other]
            &&& after.contains_key(fingerprint)
            &&& after[fingerprint].state == state
            &&& after[fingerprint].generation == generation
            &&& after[fingerprint].max_limit == max_limit
            &&& after[fingerprint].sql == Some(sql)
            &&& !after[fingerprint].referenced
            &&& m.contains_key(fingerprint) ==> {
                &&& after[fingerprint].mv_state == m[fingerprint].mv_state
                &&& after[fingerprint].shape_gate == m[fingerprint].shape_gate
                &&& after[fingerprint].mv_limit == m[fingerprint].mv_limit
                &&& after[fingerprint].output_columns == m[fingerprint].output_columns
            }
            &&& !m.contains_key(fingerprint) ==> after[fingerprint].mv_state == MvState::Skipped
        }),
{
}

/// A build is dispatched only for a query that is served and whose build was
/// scheduled.
pub proof fn build_waits_for_its_query(c: CacheView, fingerprint: u64)
    ensures
        build_dispatchable(c, fingerprint) <==> (c.entries.contains_key(fingerprint)
            && c.entries[fingerprint].state is Ready && c.entries[fingerprint].mv_state is Scheduled
            && c.entries[fingerprint].sql is Some),
{
}

} // verus!
