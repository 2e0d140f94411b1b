//! What holds of the purges that evictions and invalidations entail.
use vstd::prelude::*;

use crate::cache::all_cdc_invalidated;
use crate::cache::all_evicted;
use crate::cache::cached_find;
use crate::cache::cdc_invalidated;
use crate::cache::evicted;
use crate::cache::purge_planned;
use crate::cache::purge_threshold;
use crate::cache::readers_of;
use crate::cache::tables_invalidated;
use crate::cache::under_pressure;
use crate::cache::CacheView;
use crate::cache::EffectView;
use crate::cache::PurgePlan;

verus! {

/// The generation counter, and the purges that the cache database was asked
/// for, after the effects were carried out in order. `promotes` says of each
/// purge whether it found rows to stamp: its generation is then taken.
pub open spec fn carried_out(
    effects: Seq<EffectView>,
    counter: u64,
    purges: Seq<PurgePlan>,
    promotes: spec_fn(nat) -> bool,
) -> (u64, Seq<PurgePlan>)
    decreases effects.len(),
{
    if effects.len() == 0 {
        (counter, purges)
    } else {
        let (n, done) = carried_out(effects.drop_last(), counter, purges, promotes);
        match effects.last() {
            EffectView::Purge { above, up_to } => match purge_planned(above, up_to, n) {
                Some(plan) => (
                    if promotes(done.len()) {
                        plan.promote_to
                    } else {
                        n
                    },
                    done.push(plan),
                ),
                None => (n, done),
            },
            _ => (n, done),
        }
    }
}

/// Taking a query out of service: with `evict` it is evicted, else invalidated
/// because of a change.
pub open spec fn taken_out(c: CacheView, fingerprint: u64, evict: bool) -> CacheView {
    if evict {
        evicted(c, fingerprint, false)
    } else {
        cdc_invalidated(c, fingerprint, false)
    }
}

/// Taking several queries out of service, with the effects of all of them left
/// for afterwards.
pub open spec fn all_taken_out(c: CacheView, fingerprints: Seq<u64>, evict: bool) -> CacheView {
    if evict {
        all_evicted(c, fingerprints, false)
    } else {
        all_cdc_invalidated(c, fingerprints, false)
    }
}

/// Taking several queries out of service, with the effects of each carried out
/// before the next: the cache, with all effects so far, and the purges that the
/// cache database was asked for.
pub open spec fn one_by_one(
    c: CacheView,
    fingerprints: Seq<u64>,
    evict: bool,
    promotes: spec_fn(nat) -> bool,
) -> (CacheView, Seq<PurgePlan>)
    decreases fingerprints.len(),
{
    if fingerprints.len() == 0 {
        (c, Seq::empty())
    } else {
        let (before, done) = one_by_one(c, fingerprints.drop_last(), evict, promotes);
        let after = taken_out(
            CacheView { effects: Seq::empty(), ..before },
            fingerprints.last(),
            evict,
        );
        let (counter, purges) = carried_out(
            after.effects,
            after.generation_counter,
            done,
            promotes,
        );
        (
            CacheView {
                effects: before.effects + after.effects,
                generation_counter: counter,
                ..after
            },
            purges,
        )
    }
}

proof fn lemma_carried_out_concat(
    a: Seq<EffectView>,
    b: Seq<EffectView>,
    counter: u64,
    purges: Seq<PurgePlan>,
    promotes: spec_fn(nat) -> bool,
)
    ensures
        ({
            let (n, done) = carried_out(a, counter, purges, promotes);
            carried_out(a + b, counter, purges, promotes) == carried_out(b, n, done, promotes)
        }),
    decreases b.len(),
{
    if b.len() == 0 {
        assert(a + b =~= a);
    } else {
        assert((a + b).drop_last() =~= a + b.drop_last());
        lemma_carried_out_concat(a, b.drop_last(), counter, purges, promotes);
    }
}

/// What taking a query out of service does depends neither on the effects that
/// wait nor on the generation counter.
proof fn lemma_taken_out(c: CacheView, fingerprint: u64, evict: bool, counter: u64)
    ensures
        ({
            let alone = taken_out(
                CacheView { effects: Seq::empty(), generation_counter: counter, ..c },
                fingerprint,
                evict,
            );
            &&& alone.generation_counter == counter
            &&& taken_out(c, fingerprint, evict) == (CacheView {
                effects: c.effects + alone.effects,
                generation_counter: c.generation_counter,
                ..alone
            })
        }),
{
    let alone = taken_out(
        CacheView { effects: Seq::empty(), generation_counter: counter, ..c },
        fingerprint,
        evict,
    );
    assert(taken_out(c, fingerprint, evict) =~= (CacheView {
        effects: c.effects + alone.effects,
        generation_counter: c.generation_counter,
        ..alone
    }));
}

/// It makes no difference whether the effects of taking queries out of service
/// wait until all of them are out, or are carried out after each: the cache
/// ends up the same, and the cache database is asked for the same purges, also
/// where a purge takes a new generation for rows it finds unstamped.
pub proof fn purges_may_wait(
    c: CacheView,
    fingerprints: Seq<u64>,
    evict: bool,
    promotes: spec_fn(nat) -> bool,
)
    requires
        c.effects.len() == 0,
    ensures
        ({
            let after = all_taken_out(c, fingerprints, evict);
            let (counter, purges) = carried_out(
                after.effects,
                after.generation_counter,
                Seq::empty(),
                promotes,
            );
            one_by_one(c, fingerprints, evict, promotes) == (
                CacheView { generation_counter: counter, ..after },
                purges,
            )
        }),
        all_taken_out(c, fingerprints, evict).generation_counter == c.generation_counter,
    decreases fingerprints.len(),
{
    let after = all_taken_out(c, fingerprints, evict);
    if fingerprints.len() == 0 {
        assert(CacheView { generation_counter: c.generation_counter, ..c } =~= c);
    } else {
        let short = fingerprints.drop_last();
        let fp = fingerprints.last();
        purges_may_wait(c, short, evict, promotes);
        let waiting = all_taken_out(c, short, evict);
        let (before, done) = one_by_one(c, short, evict, promotes);
        lemma_taken_out(waiting, fp, evict, before.generation_counter);
        let alone = taken_out(CacheView { effects: Seq::empty(), ..before }, fp, evict);
        assert(CacheView { effects: Seq::empty(), ..before } =~= (CacheView {
            effects: Seq::empty(),
            generation_counter: before.generation_counter,
            ..waiting
        }));
        assert(after == taken_out(waiting, fp, evict));
        lemma_carried_out_concat(
            waiting.effects,
            alone.effects,
            c.generation_counter,
            Seq::empty(),
            promotes,
        );
        assert(after.effects == waiting.effects + alone.effects);
    }
}

/// A query's eviction or invalidation purges exactly if the threshold rose with
/// it and the volume is under pressure, and then up to the new threshold. A
/// query that is not registered, or stays as it is, purges nothing.
pub proof fn purge_follows_the_threshold(
    c: CacheView,
    fingerprint: u64,
    evict: bool,
    promotes: spec_fn(nat) -> bool,
)
    requires
        c.effects.len() == 0,
    ensures
        ({
            let after = taken_out(c, fingerprint, evict);
            let before = purge_threshold(c.generations, c.generation_counter);
            let threshold = purge_threshold(after.generations, c.generation_counter);
            carried_out(after.effects, c.generation_counter, Seq::empty(), promotes).1 == (if
            threshold > before && under_pressure(c) {
                seq![
                    PurgePlan {
                        promote_to: (c.generation_counter + 1) as u64,
                        threshold: Some(threshold),
                    },
                ]
            } else {
                Seq::empty()
            })
        }),
{
    let after = taken_out(c, fingerprint, evict);
    let purges = carried_out(after.effects, c.generation_counter, Seq::empty(), promotes).1;
    reveal_with_fuel(carried_out, 4);
    assert(after.effects.len() <= 3);
    if cached_find(c.cached, fingerprint) is Some {
        let before = purge_threshold(c.generations, c.generation_counter);
        let threshold = purge_threshold(after.generations, c.generation_counter);
        if threshold > before && under_pressure(c) {
            assert(purges =~= seq![
                PurgePlan {
                    promote_to: (c.generation_counter + 1) as u64,
                    threshold: Some(threshold),
                },
            ]);
        } else {
            assert(purges =~= Seq::<PurgePlan>::empty());
        }
    }
}

/// The queries that invalidating the relations evicts, in order.
pub open spec fn tables_readers(c: CacheView, oids: Seq<u32>, locks_held: bool) -> Seq<u64>
    decreases oids.len(),
{
    if oids.len() == 0 {
        Seq::empty()
    } else {
        let before = tables_invalidated(c, oids.drop_last(), locks_held);
        tables_readers(c, oids.drop_last(), locks_held) + readers_of(before.cached, oids.last())
    }
}

proof fn lemma_all_evicted_concat(c: CacheView, a: Seq<u64>, b: Seq<u64>, locks_held: bool)
    ensures
        all_evicted(c, a + b, locks_held) == all_evicted(
            all_evicted(c, a, locks_held),
            b,
            locks_held,
        ),
    decreases b.len(),
{
    if b.len() == 0 {
        assert(a + b =~= a);
    } else {
        assert((a + b).drop_last() =~= a + b.drop_last());
        lemma_all_evicted_concat(c, a, b.drop_last(), locks_held);
    }
}

/// Invalidating relations is evicting their readers one after the other, so
/// that its purges may wait as theirs may.
pub proof fn invalidated_tables_evict_their_readers(
    c: CacheView,
    oids: Seq<u32>,
    locks_held: bool,
)
    ensures
        tables_invalidated(c, oids, locks_held) == all_evicted(
            c,
            tables_readers(c, oids, locks_held),
            locks_held,
        ),
    decreases oids.len(),
{
    if oids.len() > 0 {
        let short = oids.drop_last();
        invalidated_tables_evict_their_readers(c, short, locks_held);
        let before = tables_invalidated(c, short, locks_held);
        lemma_all_evicted_concat(
            c,
            tables_readers(c, short, locks_held),
            readers_of(before.cached, oids.last()),
            locks_held,
        );
    }
}

} // verus!
