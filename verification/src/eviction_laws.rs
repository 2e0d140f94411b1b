//! What holds of every eviction run, and of evicting.
use vstd::prelude::*;

use crate::cache::all_evicted;
use crate::cache::cached_find;
use crate::cache::cached_without;
use crate::cache::evicted;
use crate::cache::readers_of;
use crate::cache::table_invalidated;
use crate::cache::without;
use crate::cache::CachedView;
use crate::cache::CacheView;
use crate::eviction::bump_begun;
use crate::eviction::bump_done;
use crate::eviction::generation_find;
use crate::eviction::is_spent;
use crate::eviction::oldest;
use crate::eviction::run_bumped;
use crate::eviction::run_published;
use crate::eviction::run_step;
use crate::eviction::verdict;
use crate::eviction::with_generation;
use crate::eviction::EvictionRun;
use crate::eviction::EvictionStage;
use crate::eviction::Verdict;
use crate::eviction::MAX_BUMPS;
use crate::order::lower;
use crate::order::lower_at;

verus! {

proof fn lemma_generation_find(cached: Seq<CachedView>, generation: u64)
    ensures
        generation_find(cached, generation) matches Some(q) ==> cached.contains(q) && q.generation
            == generation,
    decreases cached.len(),
{
    if cached.len() > 0 && cached[0].generation != generation {
        lemma_generation_find(cached.drop_first(), generation);
        match generation_find(cached.drop_first(), generation) {
            Some(q) => {
                let k = choose|k: int|
                    0 <= k < cached.drop_first().len() && cached.drop_first()[k] == q;
                assert(cached[k + 1] == q);
            },
            None => {},
        }
    } else if cached.len() > 0 {
        assert(cached.contains(cached[0]));
    }
}

/// A pinned query is never evicted, and only the oldest one ever is, while more
/// queries are registered than may stay and the run may make another eviction.
pub proof fn only_the_oldest_unpinned_is_evicted(r: EvictionRun, c: CacheView)
    ensures
        verdict(r, c) matches Verdict::Evict { fingerprint } ==> exists|q: CachedView|
            #![trigger c.cached.contains(q)]
            c.cached.contains(q) && q.fingerprint == fingerprint && !q.pinned && q.generation
                == c.generations[0] && c.cached.len() > r.cap && !is_spent(r),
{
    match oldest(c) {
        Some(q) => {
            lemma_generation_find(c.cached, c.generations[0]);
            assert(c.cached.contains(q));
        },
        None => {},
    }
}

/// Generations in ascending order.
pub open spec fn ascending(list: Seq<u64>) -> bool {
    forall|i: int, j: int| 0 <= i < j < list.len() ==> (#[trigger] list[i]) < (#[trigger] list[j])
}

proof fn lemma_with_generation(list: Seq<u64>, generation: u64)
    requires
        ascending(list),
        forall|i: int| 0 <= i < list.len() ==> (#[trigger] list[i]) < generation,
    ensures
        with_generation(list, generation) == list.push(generation),
        ascending(list.push(generation)),
{
    if list.len() > 0 {
        assert(list[list.len() - 1] < generation);
    } else {
        assert(with_generation(list, generation) =~= list.push(generation));
    }
}

proof fn lemma_without_ascending(list: Seq<u64>, item: u64)
    requires
        ascending(list),
    ensures
        ascending(without(list, item)),
        forall|i: int|
            0 <= i < without(list, item).len() ==> list.contains(
                #[trigger] without(list, item)[i],
            ) && without(list, item)[i] != item,
        list.len() > 0 && list.last() != item ==> without(list, item).len() > 0 && without(
            list,
            item,
        ).last() == list.last(),
    decreases list.len(),
{
    if list.len() > 0 {
        let short = list.drop_last();
        assert(ascending(short)) by {
            assert forall|i: int, j: int| 0 <= i < j < short.len() implies (#[trigger] short[i]) < (
            #[trigger] short[j]) by {
                assert(list[i] < list[j]);
            }
        }
        lemma_without_ascending(short, item);
        let rest = without(short, item);
        let all = without(list, item);
        assert forall|i: int| 0 <= i < all.len() implies list.contains(#[trigger] all[i])
            && all[i] != item by {
            if i < rest.len() {
                assert(all[i] == rest[i]);
                let k = choose|k: int| 0 <= k < short.len() && short[k] == rest[i];
                assert(list[k] == rest[i]);
            } else {
                assert(list[list.len() - 1] == all[i]);
            }
        }
        assert forall|i: int, j: int| 0 <= i < j < all.len() implies (#[trigger] all[i]) < (
        #[trigger] all[j]) by {
            assert(all[i] == rest[i]);
            if j < rest.len() {
                assert(all[j] == rest[j]);
            } else {
                let k = choose|k: int| 0 <= k < short.len() && short[k] == rest[i];
                assert(list[k] < list[list.len() - 1]);
            }
        }
    }
}

/// A second chance moves a query to the end of the line: its new generation is
/// the youngest, the old one is gone, and the generations stay in order.
pub proof fn second_chance_moves_to_the_end(
    c: CacheView,
    fingerprint: u64,
    old_generation: u64,
)
    requires
        ascending(c.generations),
        forall|i: int|
            0 <= i < c.generations.len() ==> (#[trigger] c.generations[i])
                <= c.generation_counter,
        c.generation_counter < u64::MAX,
        old_generation <= c.generation_counter,
    ensures
        ({
            let generation = (c.generation_counter + 1) as u64;
            let after = bump_done(bump_begun(c), fingerprint, old_generation, generation);
            &&& ascending(after.generations)
            &&& after.generations.len() > 0
            &&& after.generations.last() == generation
            &&& !after.generations.contains(old_generation)
            &&& forall|i: int|
                0 <= i < after.generations.len() ==> (#[trigger] after.generations[i])
                    <= after.generation_counter
            &&& forall|i: int|
                0 <= i < after.cached.len() && (#[trigger] after.cached[i]).fingerprint
                    == fingerprint ==> after.cached[i].generation == generation
        }),
{
    let generation = (c.generation_counter + 1) as u64;
    lemma_with_generation(c.generations, generation);
    let begun = bump_begun(c);
    assert(begun.generations == c.generations.push(generation));
    lemma_without_ascending(begun.generations, old_generation);
    let after = bump_done(begun, fingerprint, old_generation, generation);
    assert(after.generations == without(begun.generations, old_generation));
    assert forall|i: int| 0 <= i < after.generations.len() implies (
    #[trigger] after.generations[i]) <= after.generation_counter by {
        let x = after.generations[i];
        assert(begun.generations.contains(x));
        let k = choose|k: int| 0 <= k < begun.generations.len() && begun.generations[k] == x;
        if k < c.generations.len() {
            assert(begun.generations[k] == c.generations[k]);
        }
    }
    if after.generations.contains(old_generation) {
        let k = choose|k: int|
            0 <= k < after.generations.len() && after.generations[k] == old_generation;
        assert(after.generations[k] != old_generation);
    }
}

proof fn lemma_find_contains(cached: Seq<CachedView>, fingerprint: u64)
    ensures
        cached_find(cached, fingerprint) is Some <==> exists|i: int|
            0 <= i < cached.len() && (#[trigger] cached[i]).fingerprint == fingerprint,
    decreases cached.len(),
{
    if cached.len() > 0 {
        let rest = cached.drop_first();
        lemma_find_contains(rest, fingerprint);
        if cached_find(rest, fingerprint) is Some {
            let i = choose|i: int|
                0 <= i < rest.len() && (#[trigger] rest[i]).fingerprint == fingerprint;
            assert(cached[i + 1].fingerprint == fingerprint);
        }
        if exists|i: int|
            0 <= i < cached.len() && (#[trigger] cached[i]).fingerprint == fingerprint {
            let i = choose|i: int|
                0 <= i < cached.len() && (#[trigger] cached[i]).fingerprint == fingerprint;
            if i > 0 {
                assert(rest[i - 1].fingerprint == fingerprint);
            }
        }
    }
}

proof fn lemma_cached_without(cached: Seq<CachedView>, fingerprint: u64)
    ensures
        cached_without(cached, fingerprint).len() <= cached.len(),
        (exists|i: int| 0 <= i < cached.len() && (#[trigger] cached[i]).fingerprint == fingerprint)
            ==> cached_without(cached, fingerprint).len() < cached.len(),
        forall|i: int|
            0 <= i < cached_without(cached, fingerprint).len() ==> (
            #[trigger] cached_without(cached, fingerprint)[i]).fingerprint != fingerprint
                && cached.contains(cached_without(cached, fingerprint)[i]),
    decreases cached.len(),
{
    if cached.len() > 0 {
        let short = cached.drop_last();
        lemma_cached_without(short, fingerprint);
        let rest = cached_without(short, fingerprint);
        let all = cached_without(cached, fingerprint);
        assert forall|i: int| 0 <= i < all.len() implies (#[trigger] all[i]).fingerprint
            != fingerprint && cached.contains(all[i]) by {
            if i < rest.len() {
                assert(all[i] == rest[i]);
                let k = choose|k: int| 0 <= k < short.len() && short[k] == rest[i];
                assert(cached[k] == rest[i]);
            } else {
                assert(cached[cached.len() - 1] == all[i]);
            }
        }
        if exists|i: int|
            0 <= i < cached.len() && (#[trigger] cached[i]).fingerprint == fingerprint {
            let i = choose|i: int|
                0 <= i < cached.len() && (#[trigger] cached[i]).fingerprint == fingerprint;
            if i < short.len() {
                assert(short[i].fingerprint == fingerprint);
            }
        }
    }
}

/// An evicted query is gone from every structure, and no other query comes in.
pub proof fn evicted_query_is_gone(c: CacheView, fingerprint: u64, locks_held: bool)
    ensures
        ({
            let after = evicted(c, fingerprint, locks_held);
            &&& cached_find(after.cached, fingerprint) is None
            &&& cached_find(c.cached, fingerprint) is Some ==> after.cached.len() < c.cached.len()
                && !after.entries.contains_key(fingerprint)
            &&& forall|i: int|
                0 <= i < after.cached.len() ==> c.cached.contains(#[trigger] after.cached[i])
        }),
{
    let after = evicted(c, fingerprint, locks_held);
    lemma_find_contains(c.cached, fingerprint);
    lemma_cached_without(c.cached, fingerprint);
    lemma_find_contains(after.cached, fingerprint);
    assert forall|i: int| 0 <= i < after.cached.len() implies c.cached.contains(
        #[trigger] after.cached[i],
    ) by {
        if cached_find(c.cached, fingerprint) is Some {
            assert(after.cached[i] == cached_without(c.cached, fingerprint)[i]);
        } else {
            assert(after.cached[i] == c.cached[i]);
        }
    }
}

/// Evicted queries are gone, and no query comes in.
pub proof fn evicted_queries_are_gone(c: CacheView, fps: Seq<u64>, locks_held: bool)
    ensures
        forall|i: int|
            0 <= i < all_evicted(c, fps, locks_held).cached.len() ==> c.cached.contains(
                #[trigger] all_evicted(c, fps, locks_held).cached[i],
            ) && !fps.contains(all_evicted(c, fps, locks_held).cached[i].fingerprint),
    decreases fps.len(),
{
    let after = all_evicted(c, fps, locks_held);
    if fps.len() == 0 {
        assert forall|i: int| 0 <= i < after.cached.len() implies c.cached.contains(
            #[trigger] after.cached[i],
        ) && !fps.contains(after.cached[i].fingerprint) by {
            assert(after.cached[i] == c.cached[i]);
        }
    } else {
        let short = fps.drop_last();
        evicted_queries_are_gone(c, short, locks_held);
        let before = all_evicted(c, short, locks_held);
        evicted_query_is_gone(before, fps.last(), locks_held);
        lemma_find_contains(after.cached, fps.last());
        assert forall|i: int| 0 <= i < after.cached.len() implies c.cached.contains(
            #[trigger] after.cached[i],
        ) && !fps.contains(after.cached[i].fingerprint) by {
            let q = after.cached[i];
            assert(before.cached.contains(q));
            let k = choose|k: int| 0 <= k < before.cached.len() && before.cached[k] == q;
            assert(c.cached.contains(before.cached[k]));
            assert(q.fingerprint != fps.last());
            if fps.contains(q.fingerprint) {
                let m = choose|m: int| 0 <= m < fps.len() && fps[m] == q.fingerprint;
                assert(short[m] == q.fingerprint);
                assert(short.contains(q.fingerprint));
            }
        }
    }
}

proof fn lemma_readers(cached: Seq<CachedView>, oid: u32, i: int)
    requires
        0 <= i < cached.len(),
        cached[i].relation_oids.contains(oid),
    ensures
        readers_of(cached, oid).contains(cached[i].fingerprint),
    decreases cached.len(),
{
    let short = cached.drop_last();
    let rest = readers_of(short, oid);
    let all = readers_of(cached, oid);
    if i < short.len() {
        lemma_readers(short, oid, i);
        let k = choose|k: int| 0 <= k < rest.len() && rest[k] == cached[i].fingerprint;
        assert(all[k] == cached[i].fingerprint);
    } else {
        assert(all[all.len() - 1] == cached[i].fingerprint);
    }
}

/// After a relation was invalidated no registered query reads it: whatever is
/// served next over it is populated anew.
pub proof fn invalidated_relation_has_no_reader(c: CacheView, oid: u32, locks_held: bool)
    ensures
        forall|i: int|
            0 <= i < table_invalidated(c, oid, locks_held).cached.len() ==> !(
            #[trigger] table_invalidated(
                c,
                oid,
                locks_held,
            ).cached[i]).relation_oids.contains(oid),
{
    let fps = readers_of(c.cached, oid);
    let after = table_invalidated(c, oid, locks_held);
    evicted_queries_are_gone(c, fps, locks_held);
    assert forall|i: int| 0 <= i < after.cached.len() implies !(
    #[trigger] after.cached[i]).relation_oids.contains(oid) by {
        let q = after.cached[i];
        assert(c.cached.contains(q));
        if q.relation_oids.contains(oid) {
            let k = choose|k: int| 0 <= k < c.cached.len() && c.cached[k] == q;
            lemma_readers(c.cached, oid, k);
        }
    }
}

/// How much of a run is left before its next look, with that many queries
/// registered.
pub open spec fn run_rank(r: EvictionRun, cached: nat) -> Seq<int> {
    let live = if r.stage == EvictionStage::Done {
        0int
    } else {
        1int
    };
    let chances = if r.bumps <= MAX_BUMPS {
        MAX_BUMPS - r.bumps
    } else {
        0int
    };
    let pins = if r.pinned_skips <= cached {
        cached - r.pinned_skips
    } else {
        0int
    };
    seq![live, cached as int, chances + pins]
}

/// A run comes to an end: every query looked at is evicted, or uses up a
/// second chance, or is one of the pinned ones to pass over.
pub proof fn eviction_run_comes_to_an_end(r: EvictionRun, c: CacheView)
    requires
        r.bumps <= MAX_BUMPS,
        r.pinned_skips <= c.cached.len() <= usize::MAX,
        c.generation_counter < u64::MAX,
        r.stage == EvictionStage::Decide,
        r.pinned_skips < c.cached.len() || r.pinned_skips == 0,
    ensures
        ({
            let (next, after) = run_step(r, c);
            &&& next.stage != EvictionStage::Decide
            &&& next.stage is Bumping ==> {
                let (bumped, done) = run_bumped(next, after);
                &&& done.cached.len() == c.cached.len()
                &&& lower(run_rank(bumped, done.cached.len()), run_rank(r, c.cached.len()))
            }
            &&& next.stage == EvictionStage::Publishing ==> lower(
                run_rank(run_published(next), after.cached.len()),
                run_rank(r, c.cached.len()),
            )
        }),
{
    let (next, after) = run_step(r, c);
    let b = run_rank(r, c.cached.len());
    match verdict(r, c) {
        Verdict::Stop => {},
        Verdict::Bump { fingerprint, pinned, .. } => {
            let (bumped, done) = run_bumped(next, after);
            let a = run_rank(bumped, done.cached.len());
            if bumped.stage == EvictionStage::Done {
                assert(lower_at(a, b, 0));
            } else {
                assert(lower_at(a, b, 2));
            }
        },
        Verdict::Evict { fingerprint } => {
            lemma_generation_find(c.cached, c.generations[0]);
            let q = oldest(c)->0;
            let k = choose|k: int| 0 <= k < c.cached.len() && c.cached[k] == q;
            assert(c.cached[k].fingerprint == fingerprint);
            lemma_find_contains(c.cached, fingerprint);
            evicted_query_is_gone(c, fingerprint, false);
            let p = run_published(next);
            let a = run_rank(p, after.cached.len());
            if p.stage == EvictionStage::Done {
                assert(lower_at(a, b, 0));
            } else {
                assert(lower_at(a, b, 1));
            }
        },
    }
}

/// How many queries a run has evicted: the last of them may not be published
/// yet.
pub open spec fn evictions_made(r: EvictionRun) -> int {
    r.evictions + if r.stage == EvictionStage::Publishing {
        1int
    } else {
        0
    }
}

/// Whether a run has made no more evictions than it may make.
pub open spec fn within_bound(r: EvictionRun) -> bool {
    r.max_evictions matches Some(max) ==> evictions_made(r) <= max
}

/// A run never makes more evictions than it may make, and its bound never
/// moves.
pub proof fn eviction_bound_is_kept(r: EvictionRun, c: CacheView)
    requires
        within_bound(r),
    ensures
        within_bound(run_step(r, c).0),
        within_bound(run_bumped(r, c).0),
        r.stage == EvictionStage::Publishing && r.evictions < usize::MAX ==> within_bound(
            run_published(r),
        ),
        run_step(r, c).0.max_evictions == r.max_evictions,
        run_bumped(r, c).0.max_evictions == r.max_evictions,
        run_published(r).max_evictions == r.max_evictions,
{
}

/// A step evicts nothing and moves nothing, and the run is over with it, once
/// few enough queries are left or the run has made every eviction it may make.
pub proof fn nothing_is_evicted_without_need(r: EvictionRun, c: CacheView)
    requires
        c.cached.len() <= r.cap || is_spent(r),
    ensures
        run_step(r, c).1 == c,
        r.stage == EvictionStage::Decide ==> run_step(r, c).0.stage == EvictionStage::Done,
{
}

/// The registered queries' fingerprints.
pub open spec fn fingerprints_of(cached: Seq<CachedView>) -> Seq<u64> {
    Seq::new(cached.len(), |i: int| cached[i].fingerprint)
}

/// Where a run and the cache are, from one moment to the next. While an
/// eviction is published the registered queries stay as they are.
pub open spec fn run_goes_on(
    from: (EvictionRun, CacheView),
    to: (EvictionRun, CacheView),
) -> bool {
    match from.0.stage {
        EvictionStage::Decide => to == run_step(from.0, from.1),
        EvictionStage::Bumping { .. } => to == run_bumped(from.0, from.1),
        EvictionStage::Publishing => {
            &&& from.0.evictions < usize::MAX
            &&& to.0 == run_published(from.0)
            &&& to.1.cached == from.1.cached
        },
        EvictionStage::Done => to == from,
    }
}

/// The course of a run.
pub open spec fn is_course(course: Seq<(EvictionRun, CacheView)>) -> bool {
    &&& course.len() > 0
    &&& forall|i: int|
        0 <= i < course.len() - 1 ==> run_goes_on(#[trigger] course[i], course[i + 1])
}

/// Whether each pinned query of `before` is still registered in `after`.
pub open spec fn pinned_stay(before: Seq<CachedView>, after: Seq<CachedView>) -> bool {
    forall|i: int|
        0 <= i < before.len() && (#[trigger] before[i]).pinned ==> exists|j: int|
            0 <= j < after.len() && (#[trigger] after[j]).pinned && after[j].fingerprint
                == before[i].fingerprint
}

proof fn lemma_without_other(cached: Seq<CachedView>, fingerprint: u64)
    ensures
        forall|i: int|
            0 <= i < cached.len() && (#[trigger] cached[i]).fingerprint != fingerprint
                ==> cached_without(cached, fingerprint).contains(cached[i]),
        !fingerprints_of(cached).contains(fingerprint) ==> cached_without(cached, fingerprint)
            == cached,
        fingerprints_of(cached).no_duplicates() ==> cached_without(cached, fingerprint).len()
            >= cached.len() - 1 && fingerprints_of(
            cached_without(cached, fingerprint),
        ).no_duplicates(),
    decreases cached.len(),
{
    if cached.len() > 0 {
        let short = cached.drop_last();
        lemma_without_other(short, fingerprint);
        lemma_cached_without(short, fingerprint);
        let rest = cached_without(short, fingerprint);
        let all = cached_without(cached, fingerprint);
        let fps = fingerprints_of(cached);
        assert(fps[cached.len() - 1] == cached.last().fingerprint);
        assert forall|i: int| 0 <= i < short.len() implies fingerprints_of(short)[i]
            == #[trigger] fps[i] by {}
        assert forall|i: int|
            0 <= i < cached.len() && (#[trigger] cached[i]).fingerprint
                != fingerprint implies all.contains(cached[i]) by {
            if i < short.len() {
                assert(short[i] == cached[i]);
                let k = choose|k: int| 0 <= k < rest.len() && rest[k] == short[i];
                assert(all[k] == cached[i]);
            } else {
                assert(all[all.len() - 1] == cached[i]);
            }
        }
        if fingerprints_of(short).contains(fingerprint) {
            let k = choose|k: int|
                0 <= k < short.len() && fingerprints_of(short)[k] == fingerprint;
            assert(fps[k] == fingerprint);
        }
        if !fps.contains(fingerprint) {
            assert(all =~= cached);
        }
        if fps.no_duplicates() {
            assert(fingerprints_of(short).no_duplicates()) by {
                assert forall|i: int, j: int|
                    0 <= i < short.len() && 0 <= j < short.len() && i != j implies fingerprints_of(
                    short,
                )[i] != fingerprints_of(short)[j] by {
                    assert(fps[i] != fps[j]);
                }
            }
            if cached.last().fingerprint == fingerprint {
                if fingerprints_of(short).contains(fingerprint) {
                    let k = choose|k: int|
                        0 <= k < short.len() && fingerprints_of(short)[k] == fingerprint;
                    assert(fps[k] != fps[cached.len() - 1]);
                }
            } else {
                assert forall|i: int, j: int|
                    0 <= i < all.len() && 0 <= j < all.len() && i != j implies fingerprints_of(
                    all,
                )[i] != fingerprints_of(all)[j] by {
                    let (low, high) = if i < j {
                        (i, j)
                    } else {
                        (j, i)
                    };
                    assert(all[low] == rest[low]);
                    if high < rest.len() {
                        assert(all[high] == rest[high]);
                        assert(fingerprints_of(rest)[low] != fingerprints_of(rest)[high]);
                    } else {
                        assert(short.contains(rest[low]));
                        let k = choose|k: int| 0 <= k < short.len() && short[k] == rest[low];
                        assert(fps[k] != fps[cached.len() - 1]);
                    }
                }
            }
        }
    }
}

/// One moment of a run: what it does to the registered queries.
proof fn lemma_run_goes_on(from: (EvictionRun, CacheView), to: (EvictionRun, CacheView))
    requires
        run_goes_on(from, to),
        within_bound(from.0),
        fingerprints_of(from.1.cached).no_duplicates(),
    ensures
        within_bound(to.0),
        to.0.max_evictions == from.0.max_evictions,
        to.0.cap == from.0.cap,
        fingerprints_of(to.1.cached).no_duplicates(),
        from.1.cached.len() - to.1.cached.len() <= evictions_made(to.0) - evictions_made(from.0),
        to.1.cached.len() <= from.1.cached.len(),
        pinned_stay(from.1.cached, to.1.cached),
        from.1.cached.len() <= from.0.cap ==> fingerprints_of(to.1.cached) == fingerprints_of(
            from.1.cached,
        ),
{
    let (r, c) = from;
    let (cached, after) = (c.cached, to.1.cached);
    eviction_bound_is_kept(r, c);
    if r.stage == EvictionStage::Decide && verdict(r, c) is Evict {
        let fingerprint = verdict(r, c)->Evict_fingerprint;
        only_the_oldest_unpinned_is_evicted(r, c);
        lemma_find_contains(cached, fingerprint);
        lemma_cached_without(cached, fingerprint);
        lemma_without_other(cached, fingerprint);
        let gone = choose|q: CachedView|
            #![trigger cached.contains(q)]
            cached.contains(q) && q.fingerprint == fingerprint && !q.pinned;
        let at = choose|k: int| 0 <= k < cached.len() && cached[k] == gone;
        assert(cached[at].fingerprint == fingerprint);
        assert(after == cached_without(cached, fingerprint));
        assert forall|i: int| 0 <= i < cached.len() && (#[trigger] cached[i]).pinned implies exists|
            j: int,
        |
            0 <= j < after.len() && (#[trigger] after[j]).pinned && after[j].fingerprint
                == cached[i].fingerprint by {
            if cached[i].fingerprint == fingerprint {
                assert(fingerprints_of(cached)[i] == fingerprints_of(cached)[at]);
            }
            let j = choose|j: int| 0 <= j < after.len() && after[j] == cached[i];
            assert(after[j].pinned);
        }
    } else {
        assert(after.len() == cached.len());
        assert forall|i: int| 0 <= i < cached.len() implies (#[trigger] after[i]).fingerprint
            == cached[i].fingerprint && after[i].pinned == cached[i].pinned by {}
        assert(fingerprints_of(after) =~= fingerprints_of(cached));
        assert forall|i: int| 0 <= i < cached.len() && (#[trigger] cached[i]).pinned implies exists|
            j: int,
        |
            0 <= j < after.len() && (#[trigger] after[j]).pinned && after[j].fingerprint
                == cached[i].fingerprint by {
            assert(after[i].pinned);
        }
    }
}

/// Over a whole run at most as many queries are evicted as the run may evict,
/// and as it says it did; no pinned query is; and from the moment that few
/// enough are left, none is. A run that begins while the cache transaction may
/// hold locks changes nothing at all.
pub proof fn eviction_run_is_bounded(course: Seq<(EvictionRun, CacheView)>)
    requires
        is_course(course),
        within_bound(course[0].0),
        evictions_made(course[0].0) == 0,
        fingerprints_of(course[0].1.cached).no_duplicates(),
    ensures
        within_bound(course.last().0),
        course.last().0.max_evictions == course[0].0.max_evictions,
        course.last().0.cap == course[0].0.cap,
        fingerprints_of(course.last().1.cached).no_duplicates(),
        course.last().1.cached.len() <= course[0].1.cached.len(),
        course[0].1.cached.len() - course.last().1.cached.len() <= evictions_made(course.last().0),
        course[0].0.max_evictions matches Some(max) ==> course[0].1.cached.len()
            - course.last().1.cached.len() <= max,
        pinned_stay(course[0].1.cached, course.last().1.cached),
        forall|i: int|
            0 <= i < course.len() && (#[trigger] course[i]).1.cached.len() <= course[0].0.cap
                ==> fingerprints_of(course.last().1.cached) == fingerprints_of(course[i].1.cached),
        course[0].0.stage == EvictionStage::Done ==> course.last() == course[0],
    decreases course.len(),
{
    let first = course[0].1.cached;
    if course.len() == 1 {
        assert forall|i: int| 0 <= i < first.len() && (#[trigger] first[i]).pinned implies exists|
            j: int,
        |
            0 <= j < first.len() && (#[trigger] first[j]).pinned && first[j].fingerprint
                == first[i].fingerprint by {
            assert(first[i].pinned);
        }
    } else {
        let short = course.drop_last();
        assert(is_course(short)) by {
            assert forall|i: int| 0 <= i < short.len() - 1 implies run_goes_on(
                #[trigger] short[i],
                short[i + 1],
            ) by {
                assert(run_goes_on(course[i], course[i + 1]));
            }
        }
        eviction_run_is_bounded(short);
        let (from, to) = (short.last(), course.last());
        assert(from == course[course.len() - 2]);
        assert(run_goes_on(course[course.len() - 2], course[course.len() - 2 + 1]));
        lemma_run_goes_on(from, to);
        let (middle, last) = (from.1.cached, to.1.cached);
        assert forall|i: int| 0 <= i < first.len() && (#[trigger] first[i]).pinned implies exists|
            j: int,
        |
            0 <= j < last.len() && (#[trigger] last[j]).pinned && last[j].fingerprint
                == first[i].fingerprint by {
            let k = choose|k: int|
                0 <= k < middle.len() && (#[trigger] middle[k]).pinned && middle[k].fingerprint
                    == first[i].fingerprint;
            assert(middle[k].pinned);
            let j = choose|j: int|
                0 <= j < last.len() && (#[trigger] last[j]).pinned && last[j].fingerprint
                    == middle[k].fingerprint;
            assert(last[j].pinned);
        }
        assert forall|i: int|
            0 <= i < course.len() && (#[trigger] course[i]).1.cached.len()
                <= course[0].0.cap implies fingerprints_of(last) == fingerprints_of(
            course[i].1.cached,
        ) by {
            if i < short.len() {
                assert(short[i] == course[i]);
                assert(fingerprints_of(middle) == fingerprints_of(course[i].1.cached));
                assert(fingerprints_of(middle).len() == middle.len());
                assert(fingerprints_of(course[i].1.cached).len() == course[i].1.cached.len());
            }
        }
    }
}

} // verus!
