//! Making room: eviction down to the query cap, reclaiming disk space, and
//! forgetting entries that nothing serves.
use vstd::prelude::*;
use vstd::string::*;

use crate::cache::cached_find;
use crate::cache::cached_view;
use crate::cache::evicted;
use crate::cache::number_remove;
use crate::cache::without;
use crate::cache::Cache;
use crate::cache::CachedView;
use crate::cache::CachePolicy;
use crate::cache::CacheView;
use crate::cache::EntryView;
use crate::fault::Faults;
use crate::frame::FrameState;
use crate::text::decimal;
use crate::text::decimal_append;
use crate::writer_core::CoreView;
use crate::writer_core::WriterCore;

verus! {

broadcast use vstd::std_specs::hash::group_hash_axioms;

/// Second chances between two evictions.
pub const MAX_BUMPS: usize = 5;

/// Evictions of one periodic run.
pub const EVICTION_TICK_BUDGET: usize = 512;

/// How many queries may stay: the cap, or a fault's if that is lower.
pub open spec fn count_cap(faults: Faults, cap: usize) -> usize {
    match faults.eviction_count_cap {
        Some(n) => if n < cap {
            n
        } else {
            cap
        },
        None => cap,
    }
}

/// How many queries may stay.
pub fn eviction_count_cap(faults: &Faults, cap: usize) -> (allowed: usize)
    ensures
        allowed == count_cap(*faults, cap),
{
    match faults.eviction_count_cap {
        Some(n) => if n < cap {
            n
        } else {
            cap
        },
        None => cap,
    }
}

/// Where an eviction run stands.
#[derive(Clone, Copy, PartialEq, Eq, Structural)]
pub enum EvictionStage {
    /// The oldest query is to be looked at.
    Decide,
    /// The oldest query moves to a new generation.
    Bumping { fingerprint: u64, old_generation: u64, new_generation: u64, pinned: bool },
    /// A query was evicted: the publication is brought up to date.
    Publishing,
    /// The run is over.
    Done,
}

/// An eviction run.
#[derive(Clone, Copy, PartialEq, Eq, Structural)]
pub struct EvictionRun {
    pub stage: EvictionStage,
    /// Queries that may stay.
    pub cap: usize,
    /// Evictions that this run may make.
    pub max_evictions: Option<usize>,
    /// Second chances since the last eviction.
    pub bumps: usize,
    /// Pinned queries passed over since the last eviction.
    pub pinned_skips: usize,
    pub evictions: usize,
}

/// The generation list with another one.
pub open spec fn with_generation(list: Seq<u64>, generation: u64) -> Seq<u64>
    decreases list.len(),
{
    if list.len() == 0 {
        seq![generation]
    } else if list.last() < generation {
        list.push(generation)
    } else if list.last() == generation {
        list
    } else {
        with_generation(list.drop_last(), generation).push(list.last())
    }
}

/// The registered query with a generation.
pub open spec fn generation_find(cached: Seq<CachedView>, generation: u64) -> Option<CachedView>
    decreases cached.len(),
{
    if cached.len() == 0 {
        None
    } else if cached[0].generation == generation {
        Some(cached[0])
    } else {
        generation_find(cached.drop_first(), generation)
    }
}

/// The oldest query.
pub open spec fn oldest(c: CacheView) -> Option<CachedView> {
    if c.generations.len() == 0 {
        None
    } else {
        generation_find(c.cached, c.generations[0])
    }
}

/// Whether a query was served since it was last looked at.
pub open spec fn is_referenced(c: CacheView, fingerprint: u64) -> bool {
    c.entries.contains_key(fingerprint) && c.entries[fingerprint].referenced
}

/// What a run does about the oldest query.
#[derive(Clone, Copy, PartialEq, Eq, Structural)]
pub enum Verdict {
    /// Nothing: the run is over.
    Stop,
    /// It moves to a new generation.
    Bump { fingerprint: u64, generation: u64, pinned: bool },
    /// It is evicted.
    Evict { fingerprint: u64 },
}

/// Whether a run has made every eviction that it may make.
pub open spec fn is_spent(r: EvictionRun) -> bool {
    r.max_evictions matches Some(max) && r.evictions >= max
}

/// What a run does about the oldest query: nothing once few enough are left, or
/// the run has made every eviction that it may make. A pinned query is never
/// evicted. Under CLOCK a query that was served gets a second chance, a few
/// times between two evictions.
pub open spec fn verdict(r: EvictionRun, c: CacheView) -> Verdict {
    if c.cached.len() <= r.cap || is_spent(r) {
        Verdict::Stop
    } else {
        match oldest(c) {
            None => Verdict::Stop,
            Some(q) => if q.pinned {
                Verdict::Bump {
                    fingerprint: q.fingerprint,
                    generation: q.generation,
                    pinned: true,
                }
            } else if c.policy == CachePolicy::Clock && r.bumps < MAX_BUMPS && is_referenced(
                c,
                q.fingerprint,
            ) {
                Verdict::Bump {
                    fingerprint: q.fingerprint,
                    generation: q.generation,
                    pinned: false,
                }
            } else {
                Verdict::Evict { fingerprint: q.fingerprint }
            },
        }
    }
}

/// The state with a query's new generation among the live ones, beside the old
/// one, which stays until its rows are stamped anew.
pub open spec fn bump_begun(c: CacheView) -> CacheView {
    let generation = (c.generation_counter + 1) as u64;
    CacheView {
        generation_counter: generation,
        generations: with_generation(c.generations, generation),
        ..c
    }
}

/// The registered queries with one of them in another generation.
pub open spec fn cached_moved(cached: Seq<CachedView>, fingerprint: u64, generation: u64) -> Seq<
    CachedView,
> {
    Seq::new(
        cached.len(),
        |i: int|
            if cached[i].fingerprint == fingerprint {
                CachedView { generation, ..cached[i] }
            } else {
                cached[i]
            },
    )
}

/// The state once a query's rows are stamped anew: the old generation is gone,
/// and the query counts as not served.
pub open spec fn bump_done(c: CacheView, fingerprint: u64, old_generation: u64, generation: u64)
    -> CacheView {
    CacheView {
        generations: without(c.generations, old_generation),
        cached: cached_moved(c.cached, fingerprint, generation),
        entries: if c.entries.contains_key(fingerprint) {
            c.entries.insert(
                fingerprint,
                EntryView { referenced: false, generation, ..c.entries[fingerprint] },
            )
        } else {
            c.entries
        },
        ..c
    }
}

/// A step of a run, and the cache as it goes on.
pub open spec fn run_step(r: EvictionRun, c: CacheView) -> (EvictionRun, CacheView) {
    match r.stage {
        EvictionStage::Decide => match verdict(r, c) {
            Verdict::Stop => (EvictionRun { stage: EvictionStage::Done, ..r }, c),
            Verdict::Bump { fingerprint, generation, pinned } => (
                EvictionRun {
                    stage: EvictionStage::Bumping {
                        fingerprint,
                        old_generation: generation,
                        new_generation: (c.generation_counter + 1) as u64,
                        pinned,
                    },
                    ..r
                },
                bump_begun(c),
            ),
            Verdict::Evict { fingerprint } => (
                EvictionRun { stage: EvictionStage::Publishing, ..r },
                evicted(c, fingerprint, false),
            ),
        },
        _ => (r, c),
    }
}

/// A run whose query moved to its new generation. Once every query that is
/// left was passed over as pinned, the run is over.
pub open spec fn run_bumped(r: EvictionRun, c: CacheView) -> (EvictionRun, CacheView) {
    match r.stage {
        EvictionStage::Bumping { fingerprint, old_generation, new_generation, pinned } => {
            let after = bump_done(c, fingerprint, old_generation, new_generation);
            let next = if pinned {
                let skips = (r.pinned_skips + 1) as usize;
                EvictionRun {
                    pinned_skips: skips,
                    stage: if skips >= after.cached.len() {
                        EvictionStage::Done
                    } else {
                        EvictionStage::Decide
                    },
                    ..r
                }
            } else {
                EvictionRun {
                    bumps: (r.bumps + 1) as usize,
                    stage: EvictionStage::Decide,
                    ..r
                }
            };
            (next, after)
        },
        _ => (r, c),
    }
}

/// A run after an eviction. Once it has made as many as it may, it is over.
pub open spec fn run_published(r: EvictionRun) -> EvictionRun {
    let evictions = (r.evictions + 1) as usize;
    EvictionRun {
        bumps: 0,
        pinned_skips: 0,
        evictions,
        stage: if r.max_evictions matches Some(max) && evictions >= max {
            EvictionStage::Done
        } else {
            EvictionStage::Decide
        },
        ..r
    }
}

fn generation_insert(list: &mut Vec<u64>, generation: u64)
    ensures
        final(list)@ == with_generation(old(list)@, generation),
{
    let ghost start = list@;
    let mut at: usize = list.len();
    proof {
        assert(start.take(at as int) =~= start);
        assert(start.skip(at as int) =~= Seq::<u64>::empty());
        assert(with_generation(start, generation) + start.skip(at as int) =~= with_generation(
            start,
            generation,
        ));
    }
    while at > 0 && list[at - 1] > generation
        invariant
            at <= list@.len(),
            list@ == start,
            with_generation(start, generation) == with_generation(
                start.take(at as int),
                generation,
            ) + start.skip(at as int),
        decreases at,
    {
        proof {
            let now = start.take(at as int);
            assert(now.last() == start[at - 1]);
            assert(now.drop_last() =~= start.take(at - 1));
            let inner = with_generation(start.take(at - 1), generation);
            assert(inner.push(start[at - 1]) + start.skip(at as int) =~= inner + start.skip(
                at - 1,
            ));
        }
        at = at - 1;
    }
    proof {
        let now = start.take(at as int);
        if at > 0 {
            assert(now.last() == start[at - 1]);
        }
    }
    if at == 0 || list[at - 1] < generation {
        list.insert(at, generation);
        proof {
            let now = start.take(at as int);
            assert(with_generation(now, generation) =~= now.push(generation));
            assert(list@ =~= now.push(generation) + start.skip(at as int));
        }
    } else {
        proof {
            let now = start.take(at as int);
            assert(with_generation(now, generation) == now);
            assert(list@ =~= now + start.skip(at as int));
        }
    }
}

impl Cache {
    fn generation_position(&self, generation: u64) -> (found: Option<usize>)
        ensures
            match found {
                Some(i) => i < self.cached@.len() && generation_find(self@.cached, generation)
                    == Some(self.cached@[i as int]@),
                None => generation_find(self@.cached, generation) is None,
            },
    {
        let ghost view = self@.cached;
        let mut i: usize = 0;
        proof {
            assert(view.skip(0) =~= view);
        }
        while i < self.cached.len()
            invariant
                i <= self.cached.len(),
                view == cached_view(self.cached@),
                generation_find(view, generation) == generation_find(
                    view.skip(i as int),
                    generation,
                ),
            decreases self.cached.len() - i,
        {
            proof {
                assert(view.skip(i as int)[0] == view[i as int]);
                assert(view.skip(i as int).drop_first() =~= view.skip(i + 1));
            }
            if self.cached[i].generation == generation {
                return Some(i);
            }
            i = i + 1;
        }
        None
    }

    fn eviction_verdict(&self, r: &EvictionRun) -> (v: Verdict)
        ensures
            v == verdict(*r, self@),
    {
        if self.cached.len() <= r.cap || r.spent() {
            return Verdict::Stop;
        }
        if self.generations.len() == 0 {
            return Verdict::Stop;
        }
        match self.generation_position(self.generations[0]) {
            None => Verdict::Stop,
            Some(at) => {
                let q = &self.cached[at];
                if q.pinned {
                    return Verdict::Bump {
                        fingerprint: q.fingerprint,
                        generation: q.generation,
                        pinned: true,
                    };
                }
                let referenced = match self.entries.get(&q.fingerprint) {
                    Some(entry) => entry.referenced,
                    None => false,
                };
                if self.policy == CachePolicy::Clock && r.bumps < MAX_BUMPS && referenced {
                    Verdict::Bump {
                        fingerprint: q.fingerprint,
                        generation: q.generation,
                        pinned: false,
                    }
                } else {
                    Verdict::Evict { fingerprint: q.fingerprint }
                }
            },
        }
    }

    fn generation_bump_begin(&mut self) -> (generation: u64)
        requires
            old(self)@.generation_counter < u64::MAX,
        ensures
            generation == old(self)@.generation_counter + 1,
            final(self)@ == bump_begun(old(self)@),
    {
        self.generation_counter = self.generation_counter + 1;
        generation_insert(&mut self.generations, self.generation_counter);
        proof {
            assert(self@ =~= bump_begun(old(self)@));
        }
        self.generation_counter
    }

    fn cached_move(&mut self, fingerprint: u64, generation: u64)
        ensures
            final(self)@ == (CacheView {
                cached: cached_moved(old(self)@.cached, fingerprint, generation),
                ..old(self)@
            }),
    {
        let ghost view = self@.cached;
        let ghost goal = cached_moved(view, fingerprint, generation);
        let mut i: usize = 0;
        while i < self.cached.len()
            invariant
                i <= self.cached@.len(),
                self.cached@.len() == view.len(),
                goal == cached_moved(view, fingerprint, generation),
                forall|k: int| 0 <= k < i ==> (#[trigger] self.cached@[k])@ == goal[k],
                forall|k: int| i <= k < view.len() ==> (#[trigger] self.cached@[k])@ == view[k],
                self@ == (CacheView { cached: self@.cached, ..old(self)@ }),
            decreases self.cached.len() - i,
        {
            if self.cached[i].fingerprint == fingerprint {
                self.cached[i].generation = generation;
                proof {
                    assert(self.cached@[i as int]@ == goal[i as int]);
                }
            }
            i = i + 1;
        }
        proof {
            assert(self@.cached =~= goal);
            assert(self@ =~= (CacheView { cached: goal, ..old(self)@ }));
        }
    }

    fn generation_bump_finish(&mut self, fingerprint: u64, old_generation: u64, generation: u64)
        ensures
            final(self)@ == bump_done(old(self)@, fingerprint, old_generation, generation),
    {
        let ghost c = self@;
        number_remove(&mut self.generations, old_generation);
        self.cached_move(fingerprint, generation);
        match self.entries.remove(&fingerprint) {
            Some(mut entry) => {
                entry.referenced = false;
                entry.generation = generation;
                let ghost e = entry@;
                self.entries.insert(fingerprint, entry);
                proof {
                    assert(self@.entries =~= c.entries.insert(fingerprint, e));
                }
            },
            None => {
                proof {
                    assert(self@.entries =~= c.entries);
                }
            },
        }
        proof {
            assert(self@ =~= bump_done(c, fingerprint, old_generation, generation));
        }
    }
}

/// The statements that stamp a query's rows with a new generation: the query
/// is run for that alone.
pub open spec fn bump_texts(generation: u64, sql: Seq<char>) -> Seq<Seq<char>> {
    seq![
        "SET mem.query_generation = "@ + decimal(generation as nat),
        sql,
        "SET mem.query_generation = 0"@,
    ]
}

impl EvictionRun {
    fn spent(&self) -> (spent: bool)
        ensures
            spent == is_spent(*self),
    {
        match self.max_evictions {
            Some(max) => self.evictions >= max,
            None => false,
        }
    }

    /// A run that brings the cached queries down to `cap`. It waits for another
    /// time while the cache transaction may hold locks.
    pub fn new(core: &WriterCore, cap: usize, max_evictions: Option<usize>) -> (r: EvictionRun)
        ensures
            r == (EvictionRun {
                stage: if core@.frame.state == FrameState::TxnOpen {
                    EvictionStage::Done
                } else {
                    EvictionStage::Decide
                },
                cap,
                max_evictions,
                bumps: 0,
                pinned_skips: 0,
                evictions: 0,
            }),
    {
        let stage = if core.frame.frame_holds_locks() {
            EvictionStage::Done
        } else {
            EvictionStage::Decide
        };
        EvictionRun { stage, cap, max_evictions, bumps: 0, pinned_skips: 0, evictions: 0 }
    }

    /// Take a step of the run.
    pub fn eviction_run(&mut self, core: &mut WriterCore)
        requires
            old(core)@.cache.generation_counter < u64::MAX,
        ensures
            (*final(self), final(core)@.cache) == run_step(*old(self), old(core)@.cache),
            final(core)@ == (CoreView { cache: final(core)@.cache, ..old(core)@ }),
    {
        if self.stage != EvictionStage::Decide {
            return ;
        }
        match core.cache.eviction_verdict(self) {
            Verdict::Stop => {
                self.stage = EvictionStage::Done;
            },
            Verdict::Bump { fingerprint, generation, pinned } => {
                let new_generation = core.cache.generation_bump_begin();
                self.stage = EvictionStage::Bumping {
                    fingerprint,
                    old_generation: generation,
                    new_generation,
                    pinned,
                };
            },
            Verdict::Evict { fingerprint } => {
                core.cache.cache_query_evict(fingerprint, false);
                self.stage = EvictionStage::Publishing;
            },
        }
        proof {
            assert(core@ =~= (CoreView { cache: core@.cache, ..old(core)@ }));
        }
    }

    /// The statements that move the query to its new generation; none when no
    /// query moves, or it is gone.
    pub fn bump_sql(&self, core: &WriterCore) -> (statements: Vec<String>)
        ensures
            statements.deep_view() == (match self.stage {
                EvictionStage::Bumping { fingerprint, new_generation, .. } => {
                    match cached_find(core@.cache.cached, fingerprint) {
                        Some(q) => bump_texts(new_generation, q.sql),
                        None => Seq::<Seq<char>>::empty(),
                    }
                },
                _ => Seq::<Seq<char>>::empty(),
            }),
    {
        let mut statements: Vec<String> = Vec::new();
        proof {
            assert(statements.deep_view() =~= Seq::<Seq<char>>::empty());
        }
        if let EvictionStage::Bumping { fingerprint, new_generation, .. } = self.stage {
            if let Some(at) = core.cache.cached_position(fingerprint) {
                let mut set = "SET mem.query_generation = ".to_owned();
                decimal_append(&mut set, new_generation);
                statements.push(set);
                statements.push(core.cache.cached[at].sql.clone());
                statements.push("SET mem.query_generation = 0".to_owned());
                proof {
                    assert(statements.deep_view() =~= bump_texts(
                        new_generation,
                        core.cache.cached@[at as int].sql@,
                    ));
                }
            }
        }
        statements
    }

    /// The query moved to its new generation.
    pub fn bumped(&mut self, core: &mut WriterCore)
        requires
            old(self).bumps < usize::MAX,
            old(self).pinned_skips < usize::MAX,
        ensures
            (*final(self), final(core)@.cache) == run_bumped(*old(self), old(core)@.cache),
            final(core)@ == (CoreView { cache: final(core)@.cache, ..old(core)@ }),
    {
        if let EvictionStage::Bumping { fingerprint, old_generation, new_generation, pinned } =
            self.stage {
            core.cache.generation_bump_finish(fingerprint, old_generation, new_generation);
            if pinned {
                self.pinned_skips = self.pinned_skips + 1;
                self.stage = if self.pinned_skips >= core.cache.cached.len() {
                    EvictionStage::Done
                } else {
                    EvictionStage::Decide
                };
            } else {
                self.bumps = self.bumps + 1;
                self.stage = EvictionStage::Decide;
            }
        }
        proof {
            assert(core@ =~= (CoreView { cache: core@.cache, ..old(core)@ }));
        }
    }

    /// The publication is up to date after an eviction.
    pub fn published(&mut self)
        requires
            old(self).evictions < usize::MAX,
        ensures
            *final(self) == run_published(*old(self)),
    {
        self.bumps = 0;
        self.pinned_skips = 0;
        self.evictions = self.evictions + 1;
        self.stage = if self.spent() {
            EvictionStage::Done
        } else {
            EvictionStage::Decide
        };
    }
}

} // verus!
