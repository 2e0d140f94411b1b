//! Giving populations their turn to be merged, and finishing them.
use vstd::prelude::*;

use crate::cache::cached_find;
use crate::cache::CacheView;
use crate::cache::Effect;
use crate::cache::EffectView;
use crate::cache::CachedQueryState;
use crate::deleted_keys::deactivated;
use crate::frame::FrameState;
use crate::merge_queue::boundary_now;
use crate::merge_queue::drain_begun;
use crate::merge_queue::is_earliest;
use crate::merge_queue::staged_view;
use crate::merge_queue::DrainView;
use crate::merge_queue::MergeInProgress;
use crate::merge_queue::MergeQueue;
use crate::merge_queue::PendingMerge;
use crate::merge_queue::PopulationMerge;
use crate::merge_queue::StagingDiscard;
use crate::serving::entry_written;
use crate::writer::Writer;
use crate::writer_core::finalize_allowed;
use crate::writer_core::live_generation;
use crate::writer_core::CoreView;
use crate::writer_core::WriterCore;

verus! {

broadcast use vstd::std_specs::hash::group_hash_axioms;

/// What became of the drain slot.
#[derive(Clone, Copy, PartialEq, Eq, Structural)]
pub enum DrainStart {
    /// A drain is in progress.
    Busy,
    /// A population is being merged.
    Merging,
    /// A population that its query left behind waits to be emptied: there may
    /// be another.
    Superseded,
    /// Staging tables are being emptied.
    Discarding,
    /// Nothing waits that may go on.
    Idle,
}

/// The relations that a population staged.
pub open spec fn staged_oids(staged: Seq<(u32, Seq<char>)>) -> Seq<u32> {
    Seq::new(staged.len(), |i: int| staged[i].0)
}

/// Whether a population still belongs to its query.
pub open spec fn is_current(c: CacheView, fingerprint: u64, generation: u64) -> bool {
    finalize_allowed(live_generation(c, fingerprint), generation)
}

/// The state without a population in flight.
pub open spec fn population_landed(
    c: CoreView,
    fingerprint: u64,
    generation: u64,
    staged: Seq<(u32, Seq<char>)>,
) -> CoreView {
    CoreView {
        keys: deactivated(c.keys, staged_oids(staged), (fingerprint, generation)),
        ..c
    }
}

/// Whether a waiting population may go on: the writer is between batches, and
/// everything up to its snapshot is applied.
pub open spec fn is_releasable(state: FrameState, applied: u64, p: PendingMerge) -> bool {
    state == FrameState::Idle && p.0.snapshot_lsn <= applied
}

fn oids_collect(staged: &Vec<(u32, String)>) -> (oids: Vec<u32>)
    ensures
        oids@ == staged_oids(staged_view(staged@)),
{
    let ghost all = staged_oids(staged_view(staged@));
    let mut oids: Vec<u32> = Vec::new();
    let mut i: usize = 0;
    while i < staged.len()
        invariant
            i <= staged.len(),
            all == staged_oids(staged_view(staged@)),
            oids@ =~= all.take(i as int),
        decreases staged.len() - i,
    {
        oids.push(staged[i].0);
        i = i + 1;
    }
    proof {
        assert(all.take(i as int) =~= all);
    }
    oids
}

/// The state once a drain is over: the population is no longer in flight, and the
/// query of one that was merged is served, if it is still the same.
pub open spec fn drain_landed(d: DrainView, c: CoreView) -> CoreView {
    let landed = population_landed(c, d.fingerprint, d.generation, d.staged);
    if d.applying is Some && is_current(c.cache, d.fingerprint, d.generation) {
        let sql = (cached_find(c.cache.cached, d.fingerprint)->0).sql;
        let max_limit = if c.cache.entries.contains_key(d.fingerprint) {
            c.cache.entries[d.fingerprint].max_limit
        } else {
            None
        };
        CoreView {
            cache: CacheView {
                entries: entry_written(
                    c.cache.entries,
                    d.fingerprint,
                    CachedQueryState::Ready,
                    d.generation,
                    sql,
                    max_limit,
                ),
                effects: c.cache.effects.push(
                    EffectView::Ready {
                        fingerprint: d.fingerprint,
                        generation: d.generation,
                        sql,
                        max_limit,
                    },
                ),
                ..c.cache
            },
            ..landed
        }
    } else {
        landed
    }
}

/// The state once a population is given up: it is no longer in flight, and
/// whoever waits for its query is sent away.
pub open spec fn drain_abandoned(d: DrainView, c: CoreView) -> CoreView {
    CoreView {
        cache: CacheView {
            effects: c.cache.effects.push(
                EffectView::WaitersFail { fingerprint: d.fingerprint },
            ),
            ..c.cache
        },
        ..population_landed(c, d.fingerprint, d.generation, d.staged)
    }
}

impl WriterCore {
    fn population_land(&mut self, fingerprint: u64, generation: u64, staged: &Vec<(u32, String)>)
        ensures
            final(self)@ == population_landed(
                old(self)@,
                fingerprint,
                generation,
                staged_view(staged@),
            ),
    {
        let oids = oids_collect(staged);
        self.deleted_keys.deactivate(fingerprint, generation, &oids);
        proof {
            assert(self@ =~= population_landed(
                old(self)@,
                fingerprint,
                generation,
                staged_view(staged@),
            ));
        }
    }
}

/// The population that is at the head of the line, and the line without it.
pub open spec fn released_from(before: MergeQueue, after: MergeQueue, m: PopulationMerge) -> bool {
    exists|at: int|
        #![trigger is_earliest(before.pending@, at)]
        is_earliest(before.pending@, at) && m == before.pending@[at].0 && after.pending@
            == before.pending@.remove(at)
}

/// What giving the drain slot away leads to.
pub open spec fn drain_started(before: Writer, after: Writer, start: DrainStart) -> bool {
    let applied = before.cdc.last_applied_lsn;
    let state = before.core@.frame.state;
    let none_releasable = forall|i: int|
        0 <= i < before.merges.pending@.len() ==> !is_releasable(
            state,
            applied,
            #[trigger] before.merges.pending@[i],
        );
    match start {
        DrainStart::Busy => before.merges.active is Some && after == before,
        DrainStart::Merging => {
            &&& before.merges.active is None
            &&& after.merges.active is Some
            &&& exists|m: PopulationMerge|
                #![trigger released_from(before.merges, after.merges, m)]
                released_from(before.merges, after.merges, m) && is_releasable(
                    state,
                    applied,
                    PendingMerge(m),
                ) && is_current(before.core@.cache, m.fingerprint, m.generation)
                    && after.merges.active->0@ == drain_begun(
                    m.fingerprint,
                    m.generation,
                    staged_view(m.staged@),
                    Some(m),
                    boundary_now(before.merges, 0),
                    before.faults,
                )
            &&& after.merges == (MergeQueue {
                pending: after.merges.pending,
                active: after.merges.active,
                ..before.merges
            })
            &&& after.core == before.core
        },
        DrainStart::Superseded => {
            &&& before.merges.active is None
            &&& after.merges == (MergeQueue {
                pending: after.merges.pending,
                discards: after.merges.discards,
                ..before.merges
            })
            &&& exists|m: PopulationMerge|
                #![trigger released_from(before.merges, after.merges, m)]
                released_from(before.merges, after.merges, m) && is_releasable(
                    state,
                    applied,
                    PendingMerge(m),
                ) && !is_current(before.core@.cache, m.fingerprint, m.generation)
                    && after.core@ == population_landed(
                    before.core@,
                    m.fingerprint,
                    m.generation,
                    staged_view(m.staged@),
                ) && after.merges.discards@ == if m.staged@.len() == 0 {
                    before.merges.discards@
                } else {
                    before.merges.discards@.push(
                        StagingDiscard {
                            fingerprint: m.fingerprint,
                            generation: m.generation,
                            staged: m.staged,
                        },
                    )
                }
        },
        DrainStart::Discarding => {
            &&& before.merges.active is None
            &&& none_releasable
            &&& before.merges.discards@.len() > 0
            &&& after.merges.discards@ == before.merges.discards@.remove(0)
            &&& after.merges == (MergeQueue {
                discards: after.merges.discards,
                active: after.merges.active,
                ..before.merges
            })
            &&& after.merges.active is Some
            &&& after.merges.active->0@ == drain_begun(
                before.merges.discards@[0].fingerprint,
                before.merges.discards@[0].generation,
                staged_view(before.merges.discards@[0].staged@),
                None,
                boundary_now(before.merges, 0),
                before.faults,
            )
            &&& after.core == before.core
        },
        DrainStart::Idle => {
            &&& before.merges.active is None
            &&& none_releasable
            &&& before.merges.discards@.len() == 0
            &&& after == before
        },
    }
}

impl Writer {
    /// Give the drain slot to whoever goes next, if it is free: to a population
    /// whose snapshot is applied, in order of snapshots, and else to staging
    /// tables that wait to be emptied. A population that its query left behind
    /// is not merged.
    pub fn drain_begin(&mut self) -> (start: DrainStart)
        ensures
            drain_started(*old(self), *final(self), start),
            *final(self) == (Writer {
                core: final(self).core,
                merges: final(self).merges,
                ..*old(self)
            }),
    {
        if self.merges.active.is_some() {
            return DrainStart::Busy;
        }
        match self.merges.merge_release(self.core.frame.state, self.cdc.last_applied_lsn) {
            Some(merge) => {
                let ghost m = merge;
                if self.core.population_is_current(merge.fingerprint, merge.generation) {
                    self.merges.population_merge_start(merge, &self.faults);
                    proof {
                        assert(released_from(old(self).merges, self.merges, m));
                    }
                    DrainStart::Merging
                } else {
                    self.core.population_land(merge.fingerprint, merge.generation, &merge.staged);
                    self.merges.population_discard_enqueue(
                        merge.fingerprint,
                        merge.generation,
                        merge.staged,
                    );
                    proof {
                        assert(released_from(old(self).merges, self.merges, m));
                    }
                    DrainStart::Superseded
                }
            },
            None => {
                if self.merges.discards.len() == 0 {
                    return DrainStart::Idle;
                }
                let discard = self.merges.discards.remove(0);
                self.merges.population_discard_start(discard, &self.faults);
                DrainStart::Discarding
            },
        }
    }

    /// Whether the population being merged was left behind by its query.
    pub fn drain_is_superseded(&self) -> (superseded: bool)
        ensures
            superseded == (self.merges.active matches Some(d) && d@.applying is Some
                && !is_current(self.core@.cache, d@.fingerprint, d@.generation)),
    {
        match &self.merges.active {
            Some(drain) => drain.is_applying() && !self.core.population_is_current(
                drain.fingerprint,
                drain.generation,
            ),
            None => false,
        }
    }

    /// Give up the population being merged: its query's waiters are sent away,
    /// and what is left of its staging tables is emptied.
    pub fn drain_give_up(&mut self)
        ensures
            match old(self).merges.active {
                Some(d) => if d@.applying is Some {
                    &&& final(self).merges.active is Some
                    &&& final(self).merges.active->0@ == (DrainView { applying: None, ..d@ })
                    &&& final(self).core@ == drain_abandoned(d@, old(self).core@)
                    &&& ({
                        let landed = population_landed(
                            old(self).core@,
                            d@.fingerprint,
                            d@.generation,
                            d@.staged,
                        );
                        final(self).core@ == (CoreView {
                            cache: CacheView {
                                effects: landed.cache.effects.push(
                                    EffectView::WaitersFail { fingerprint: d@.fingerprint },
                                ),
                                ..landed.cache
                            },
                            ..landed
                        })
                    })
                } else {
                    *final(self) == *old(self)
                },
                None => *final(self) == *old(self),
            },
            final(self).merges == (MergeQueue {
                active: final(self).merges.active,
                ..old(self).merges
            }),
            *final(self) == (Writer {
                core: final(self).core,
                merges: final(self).merges,
                ..*old(self)
            }),
    {
        let applying = match &self.merges.active {
            Some(drain) => drain.is_applying(),
            None => false,
        };
        if !applying {
            return ;
        }
        if let Some(drain) = &self.merges.active {
            let ghost d = drain@;
            self.core.population_land(drain.fingerprint, drain.generation, &drain.staged);
            self.core.cache.effect_push(
                Effect::WaitersFail { fingerprint: drain.fingerprint },
            );
            proof {
                let landed = population_landed(
                    old(self).core@,
                    d.fingerprint,
                    d.generation,
                    d.staged,
                );
                assert(self.core@ =~= (CoreView {
                    cache: CacheView {
                        effects: landed.cache.effects.push(
                            EffectView::WaitersFail { fingerprint: d.fingerprint },
                        ),
                        ..landed.cache
                    },
                    ..landed
                }));
            }
        }
        self.merges.population_merge_discard_remaining();
    }

    /// Every staging table of the drain in progress is drained: the slot is
    /// free again, and the query of a merged population can be served, if the
    /// population still belongs to it. The staging tables come back.
    pub fn drain_finish(&mut self) -> (staged: Vec<(u32, String)>)
        ensures
            final(self).merges.active is None,
            match old(self).merges.active {
                None => staged@.len() == 0 && final(self).core == old(self).core,
                Some(d) => {
                    let landed = population_landed(
                        old(self).core@,
                        d@.fingerprint,
                        d@.generation,
                        d@.staged,
                    );
                    let c = landed.cache;
                    &&& staged_view(staged@) == d@.staged
                    &&& final(self).core@ == drain_landed(d@, old(self).core@)
                    &&& final(self).core@ == (if d@.applying is Some && is_current(
                        c,
                        d@.fingerprint,
                        d@.generation,
                    ) {
                        CoreView {
                            cache: CacheView {
                                entries: entry_written(
                                    c.entries,
                                    d@.fingerprint,
                                    CachedQueryState::Ready,
                                    d@.generation,
                                    (cached_find(c.cached, d@.fingerprint)->0).sql,
                                    if c.entries.contains_key(d@.fingerprint) {
                                        c.entries[d@.fingerprint].max_limit
                                    } else {
                                        None
                                    },
                                ),
                                effects: c.effects.push(
                                    EffectView::Ready {
                                        fingerprint: d@.fingerprint,
                                        generation: d@.generation,
                                        sql: (cached_find(c.cached, d@.fingerprint)->0).sql,
                                        max_limit: if c.entries.contains_key(d@.fingerprint) {
                                            c.entries[d@.fingerprint].max_limit
                                        } else {
                                            None
                                        },
                                    },
                                ),
                                ..c
                            },
                            ..landed
                        }
                    } else {
                        landed
                    })
                },
            },
            final(self).merges == (MergeQueue {
                active: final(self).merges.active,
                ..old(self).merges
            }),
            *final(self) == (Writer {
                core: final(self).core,
                merges: final(self).merges,
                ..*old(self)
            }),
    {
        let mut active: Option<MergeInProgress> = None;
        std::mem::swap(&mut active, &mut self.merges.active);
        let drain = match active {
            Some(drain) => drain,
            None => {
                return Vec::new();
            },
        };
        let ghost d = drain@;
        let applying = drain.is_applying();
        let fingerprint = drain.fingerprint;
        let generation = drain.generation;
        self.core.population_land(fingerprint, generation, &drain.staged);
        let ghost landed = self.core@;
        if applying && self.core.population_is_current(fingerprint, generation) {
            let max_limit = match self.core.cache.entries.get(&fingerprint) {
                Some(entry) => entry.max_limit,
                None => None,
            };
            if let Some(at) = self.core.cache.cached_position(fingerprint) {
                let sql = self.core.cache.cached[at].sql.clone();
                let ghost text = sql@;
                self.core.cache.state_ready_transition(fingerprint, generation, sql, max_limit);
                proof {
                    assert(self.core@ =~= (CoreView { cache: self.core@.cache, ..landed }));
                }
            }
        }
        drain.staged
    }
}

} // verus!
