//! Reclaiming disk space under pressure, and forgetting entries that nothing
//! serves.
use vstd::prelude::*;

use crate::cache::all_evicted;
use crate::cache::cached_find;
use crate::cache::cached_view;
use crate::cache::cached_without;
use crate::cache::oids_clone;
use crate::cache::purge_asked;
use crate::cache::purge_bound;
use crate::cache::purge_threshold;
use crate::cache::query_removed;
use crate::publication::relations_released;
use crate::cache::under_pressure;
use crate::cache::Cache;
use crate::cache::CachedQueryState;
use crate::cache::CachedView;
use crate::cache::CacheView;
use crate::cache::EntryView;
use crate::cdc::fingerprints_collect;
use crate::cdc::query_fingerprints;
use crate::frame::FrameState;
use crate::maps::fingerprints_of;
use crate::maps::lists_keys;
use crate::maps::oids_of;
use crate::writer_core::CoreView;
use crate::writer_core::WriterCore;

verus! {

broadcast use vstd::std_specs::hash::group_hash_axioms;

/// How far reclaiming has escalated.
#[derive(Clone, Copy, PartialEq, Eq, Structural)]
pub struct DiskReclaim {
    /// Ticks under pressure in a row.
    pub ticks: u32,
    /// A table was just dropped: one tick is let pass, so that what it freed
    /// shows.
    pub drop_backoff: bool,
}

/// What a tick does about the disk.
#[derive(Clone, Copy, PartialEq, Eq, Structural)]
pub enum ReclaimStep {
    /// Nothing: there is no pressure.
    Relaxed,
    /// Nothing for now.
    Wait,
    /// Rows that no query keeps alive are purged.
    Purge,
    /// Tables with rows that nothing serves are emptied.
    Sweep,
    /// The relation with the fewest queries is given up.
    Drop,
}

/// A number that stops at its greatest value.
pub open spec fn ticked(n: u32) -> u32 {
    if n == u32::MAX {
        n
    } else {
        (n + 1) as u32
    }
}

/// What a tick does about the disk, and how far reclaiming has escalated then:
/// one rung a tick, from what costs no query anything to what does.
pub open spec fn reclaim_step(d: DiskReclaim, pressure: bool, locks_held: bool) -> (
    ReclaimStep,
    DiskReclaim,
) {
    if !pressure {
        (ReclaimStep::Relaxed, DiskReclaim { ticks: 0, drop_backoff: false })
    } else if locks_held {
        (ReclaimStep::Wait, d)
    } else if d.drop_backoff {
        (ReclaimStep::Wait, DiskReclaim { drop_backoff: false, ..d })
    } else {
        let ticks = ticked(d.ticks);
        if ticks == 1 {
            (ReclaimStep::Purge, DiskReclaim { ticks, ..d })
        } else if ticks == 2 {
            (ReclaimStep::Sweep, DiskReclaim { ticks, ..d })
        } else {
            (ReclaimStep::Drop, DiskReclaim { ticks, drop_backoff: true })
        }
    }
}

/// Whether a relation has the fewest queries of those that have any.
pub open spec fn has_fewest_queries(c: CacheView, oid: u32) -> bool {
    &&& c.update_queries.contains_key(oid)
    &&& c.update_queries[oid].len() > 0
    &&& forall|o: u32|
        #[trigger] c.update_queries.contains_key(o) && c.update_queries[o].len() > 0
            ==> c.update_queries[oid].len() <= c.update_queries[o].len()
}

/// Whether no relation has a query.
pub open spec fn no_queries(c: CacheView) -> bool {
    forall|o: u32|
        #[trigger] c.update_queries.contains_key(o) ==> c.update_queries[o].len() == 0
}

impl DiskReclaim {
    /// No pressure so far.
    pub fn new() -> (d: DiskReclaim)
        ensures
            d == (DiskReclaim { ticks: 0, drop_backoff: false }),
    {
        DiskReclaim { ticks: 0, drop_backoff: false }
    }

    /// Handle a tick: whether new queries are to be turned away, and what is
    /// done about the disk. A purge is asked for, and a relation given up, at
    /// once; a sweep is left to the caller.
    pub fn disk_pressure_handle(&mut self, core: &mut WriterCore) -> (handled: (bool, ReclaimStep))
        ensures
            ({
                let c = old(core)@;
                let pressure = under_pressure(c.cache);
                let step = reclaim_step(
                    *old(self),
                    pressure,
                    c.frame.state == FrameState::TxnOpen,
                );
                &&& handled == (pressure, step.0)
                &&& *final(self) == step.1
                &&& match step.0 {
                    ReclaimStep::Purge => final(core)@ == (CoreView {
                        cache: purge_asked(c.cache, purge_bound(c.cache.generations), false),
                        ..c
                    }),
                    ReclaimStep::Drop => smallest_dropped(c, final(core)@),
                    _ => final(core)@ == c,
                }
            }),
    {
        let ghost c = core@;
        let pressure = core.cache.disk_pressure();
        if !pressure {
            self.ticks = 0;
            self.drop_backoff = false;
            return (pressure, ReclaimStep::Relaxed);
        }
        if core.frame.frame_holds_locks() {
            return (pressure, ReclaimStep::Wait);
        }
        if self.drop_backoff {
            self.drop_backoff = false;
            return (pressure, ReclaimStep::Wait);
        }
        self.ticks = if self.ticks == u32::MAX {
            u32::MAX
        } else {
            self.ticks + 1
        };
        if self.ticks == 1 {
            let up_to = core.cache.generation_purge_bound();
            core.cache.generation_purge(up_to, false);
            proof {
                assert(core@ =~= (CoreView {
                    cache: purge_asked(c.cache, purge_bound(c.cache.generations), false),
                    ..c
                }));
            }
            (pressure, ReclaimStep::Purge)
        } else if self.ticks == 2 {
            (pressure, ReclaimStep::Sweep)
        } else {
            core.disk_reclaim_drop_smallest();
            self.drop_backoff = true;
            (pressure, ReclaimStep::Drop)
        }
    }
}

/// Whether the queries over a relation with the fewest were evicted; with no
/// query at all, nothing.
pub open spec fn smallest_dropped(c: CoreView, after: CoreView) -> bool {
    ||| no_queries(c.cache) && after == c
    ||| exists|oid: u32|
        #![trigger has_fewest_queries(c.cache, oid)]
        has_fewest_queries(c.cache, oid) && after == (CoreView {
            cache: all_evicted(
                c.cache,
                query_fingerprints(c.cache.update_queries[oid]),
                c.frame.state == FrameState::TxnOpen,
            ),
            ..c
        })
}

impl WriterCore {
    fn smallest_relation(&self) -> (oid: Option<u32>)
        ensures
            match oid {
                Some(o) => has_fewest_queries(self@.cache, o),
                None => no_queries(self@.cache),
            },
    {
        let ghost queries = self@.cache.update_queries;
        let oids = oids_of(&self.cache.update_queries);
        let mut best: Option<u32> = None;
        let mut fewest: usize = 0;
        let mut i: usize = 0;
        while i < oids.len()
            invariant
                i <= oids.len(),
                queries == self@.cache.update_queries,
                lists_keys(oids@, self.cache.update_queries@),
                match best {
                    Some(b) => {
                        &&& queries.contains_key(b)
                        &&& queries[b].len() == fewest
                        &&& fewest > 0
                        &&& forall|k: int|
                            0 <= k < i ==> queries[#[trigger] oids@[k]].len() > 0 ==> fewest
                                <= queries[oids@[k]].len()
                    },
                    None => forall|k: int|
                        0 <= k < i ==> queries[#[trigger] oids@[k]].len() == 0,
                },
            decreases oids.len() - i,
        {
            let oid = oids[i];
            proof {
                assert(oids@.contains(oid));
            }
            let count: usize = match self.cache.update_queries.get(&oid) {
                Some(u) => {
                    proof {
                        assert(queries[oid] == u.queries@);
                    }
                    u.queries.len()
                },
                None => 0,
            };
            if count > 0 && (best.is_none() || count < fewest) {
                best = Some(oid);
                fewest = count;
            }
            i = i + 1;
        }
        proof {
            assert forall|o: u32| #[trigger] queries.contains_key(o) implies exists|k: int|
                0 <= k < oids@.len() && #[trigger] oids@[k] == o by {
                assert(self.cache.update_queries@.contains_key(o));
                assert(oids@.contains(o));
            }
        }
        best
    }

    /// Give up the relation with the fewest queries: they are evicted, and its
    /// cache table goes with the next publication.
    pub fn disk_reclaim_drop_smallest(&mut self)
        ensures
            smallest_dropped(old(self)@, final(self)@),
    {
        let ghost c = self@;
        let oid = match self.smallest_relation() {
            Some(oid) => oid,
            None => {
                return ;
            },
        };
        let fps = match self.cache.update_queries.get(&oid) {
            Some(u) => fingerprints_collect(&u.queries),
            None => Vec::new(),
        };
        proof {
            assert(c.cache.update_queries[oid] == self.cache.update_queries@[oid].queries@);
            assert(fps@ == query_fingerprints(c.cache.update_queries[oid]));
        }
        let locks_held = self.frame.frame_holds_locks();
        let mut i: usize = 0;
        proof {
            assert(fps@.take(0) =~= Seq::<u64>::empty());
        }
        while i < fps.len()
            invariant
                i <= fps.len(),
                self@ == (CoreView {
                    cache: all_evicted(c.cache, fps@.take(i as int), locks_held),
                    ..c
                }),
            decreases fps.len() - i,
        {
            proof {
                assert(fps@.take(i as int + 1).drop_last() =~= fps@.take(i as int));
            }
            self.cache.cache_query_evict(fps[i], locks_held);
            proof {
                assert(self@ =~= (CoreView {
                    cache: all_evicted(c.cache, fps@.take(i as int + 1), locks_held),
                    ..c
                }));
            }
            i = i + 1;
        }
        proof {
            assert(fps@.take(i as int) =~= fps@);
            assert(has_fewest_queries(c.cache, oid));
        }
    }
}

/// Whether a registered query was invalidated long enough ago to be forgotten.
pub open spec fn is_stale(q: CachedView, threshold: u64) -> bool {
    q.invalidated && !q.pinned && q.generation < threshold
}

/// The registered queries to forget, in order.
pub open spec fn stale_of(cached: Seq<CachedView>, threshold: u64) -> Seq<u64>
    decreases cached.len(),
{
    if cached.len() == 0 {
        Seq::empty()
    } else {
        let rest = stale_of(cached.drop_last(), threshold);
        if is_stale(cached.last(), threshold) {
            rest.push(cached.last().fingerprint)
        } else {
            rest
        }
    }
}

/// The state without a registered query: its relations are released.
pub open spec fn query_forgotten(c: CacheView, fingerprint: u64) -> CacheView {
    match cached_find(c.cached, fingerprint) {
        None => c,
        Some(q) => CacheView {
            cached: cached_without(c.cached, fingerprint),
            update_queries: query_removed(c.update_queries, q.relation_oids, fingerprint),
            active: relations_released(c.active, q.relation_oids),
            ..c
        },
    }
}

/// The state without several registered queries.
pub open spec fn queries_forgotten(c: CacheView, fingerprints: Seq<u64>) -> CacheView
    decreases fingerprints.len(),
{
    if fingerprints.len() == 0 {
        c
    } else {
        query_forgotten(queries_forgotten(c, fingerprints.drop_last()), fingerprints.last())
    }
}

/// Whether an entry is kept: one that waits to be admitted while it has credit
/// left after `hits`, an invalidated one while its generation is not past.
pub open spec fn entry_kept(e: EntryView, hits: u64, threshold: u64) -> bool {
    match e.state {
        CachedQueryState::Pending { credit } => credit > hits,
        CachedQueryState::Invalidated => e.generation >= threshold,
        CachedQueryState::Loading => true,
        CachedQueryState::Ready => true,
    }
}

/// An entry after `hits`: one that waits to be admitted loses credit.
pub open spec fn entry_aged(e: EntryView, hits: u64) -> EntryView {
    match e.state {
        CachedQueryState::Pending { credit } => EntryView {
            state: CachedQueryState::Pending {
                credit: if credit > hits {
                    (credit - hits) as u64
                } else {
                    0
                },
            },
            ..e
        },
        _ => e,
    }
}

/// The entries that are kept after `hits`.
pub open spec fn entries_aged(m: Map<u64, EntryView>, hits: u64, threshold: u64) -> Map<
    u64,
    EntryView,
> {
    Map::new(
        |fp: u64| m.contains_key(fp) && entry_kept(m[fp], hits, threshold),
        |fp: u64| entry_aged(m[fp], hits),
    )
}

spec fn entries_partly_aged(
    m: Map<u64, EntryView>,
    done: Seq<u64>,
    hits: u64,
    threshold: u64,
) -> Map<u64, EntryView> {
    Map::new(
        |fp: u64| m.contains_key(fp) && (!done.contains(fp) || entry_kept(m[fp], hits, threshold)),
        |fp: u64|
            if done.contains(fp) {
                entry_aged(m[fp], hits)
            } else {
                m[fp]
            },
    )
}

impl Cache {
    fn stale_collect(&self, threshold: u64) -> (fps: Vec<u64>)
        ensures
            fps@ == stale_of(self@.cached, threshold),
    {
        let ghost view = self@.cached;
        let mut fps: Vec<u64> = Vec::new();
        let mut i: usize = 0;
        while i < self.cached.len()
            invariant
                i <= self.cached.len(),
                view == cached_view(self.cached@),
                fps@ =~= stale_of(view.take(i as int), threshold),
            decreases self.cached.len() - i,
        {
            proof {
                assert(view.take(i + 1).drop_last() =~= view.take(i as int));
                assert(view.take(i + 1).last() == self.cached@[i as int]@);
            }
            let q = &self.cached[i];
            if q.invalidated && !q.pinned && q.generation < threshold {
                fps.push(q.fingerprint);
            }
            i = i + 1;
        }
        proof {
            assert(view.take(i as int) =~= view);
        }
        fps
    }

    fn query_forget(&mut self, fingerprint: u64)
        ensures
            final(self)@ == query_forgotten(old(self)@, fingerprint),
    {
        let ghost c = self@;
        let oids = match self.cached_position(fingerprint) {
            Some(at) => oids_clone(&self.cached[at].relation_oids),
            None => {
                return ;
            },
        };
        self.cached_remove(fingerprint);
        self.update_queries_remove_fingerprint(fingerprint, &oids);
        self.active.active_relations_release(&oids);
        proof {
            assert(self@.active =~= relations_released(c.active, oids@));
            assert(self@ =~= query_forgotten(c, fingerprint));
        }
    }

    fn entry_age(&mut self, fingerprint: u64, hits: u64, threshold: u64)
        ensures
            final(self)@ == (CacheView {
                entries: if !old(self)@.entries.contains_key(fingerprint) {
                    old(self)@.entries
                } else if entry_kept(old(self)@.entries[fingerprint], hits, threshold) {
                    old(self)@.entries.insert(
                        fingerprint,
                        entry_aged(old(self)@.entries[fingerprint], hits),
                    )
                } else {
                    old(self)@.entries.remove(fingerprint)
                },
                ..old(self)@
            }),
    {
        let ghost m = self@.entries;
        match self.entries.remove(&fingerprint) {
            Some(mut entry) => {
                let kept = match entry.state {
                    CachedQueryState::Pending { credit } => {
                        let left: u64 = if credit > hits {
                            credit - hits
                        } else {
                            0
                        };
                        entry.state = CachedQueryState::Pending { credit: left };
                        left > 0
                    },
                    CachedQueryState::Invalidated => entry.generation >= threshold,
                    CachedQueryState::Loading => true,
                    CachedQueryState::Ready => true,
                };
                if kept {
                    let ghost e = entry@;
                    self.entries.insert(fingerprint, entry);
                    proof {
                        assert(e == entry_aged(m[fingerprint], hits));
                        assert(self@.entries =~= m.insert(fingerprint, e));
                    }
                } else {
                    proof {
                        assert(self@.entries =~= m.remove(fingerprint));
                    }
                }
            },
            None => {
                proof {
                    assert(self@.entries =~= m);
                }
            },
        }
        proof {
            assert(self@ =~= (CacheView { entries: self@.entries, ..old(self)@ }));
        }
    }

    /// Forget what nothing serves: registered queries that were invalidated and
    /// not admitted again, entries that ran out of credit, and invalidated
    /// entries of past generations. `hits` is how often queries were served
    /// since the last time.
    pub fn stale_entries_cleanup(&mut self, hits: u64)
        ensures
            ({
                let c = old(self)@;
                let threshold = purge_threshold(c.generations, c.generation_counter);
                let left = queries_forgotten(c, stale_of(c.cached, threshold));
                final(self)@ == (CacheView {
                    entries: entries_aged(c.entries, hits, threshold),
                    ..left
                })
            }),
    {
        let ghost c = self@;
        let threshold = self.generation_purge_threshold();
        let stale = self.stale_collect(threshold);
        let mut i: usize = 0;
        proof {
            assert(stale@.take(0) =~= Seq::<u64>::empty());
        }
        while i < stale.len()
            invariant
                i <= stale.len(),
                self@ == queries_forgotten(c, stale@.take(i as int)),
                self@.entries == c.entries,
            decreases stale.len() - i,
        {
            proof {
                assert(stale@.take(i as int + 1).drop_last() =~= stale@.take(i as int));
            }
            self.query_forget(stale[i]);
            i = i + 1;
        }
        proof {
            assert(stale@.take(i as int) =~= stale@);
        }
        let ghost left = self@;
        let keys = fingerprints_of(&self.entries);
        let ghost m = c.entries;
        let mut j: usize = 0;
        proof {
            assert(self@.entries =~= entries_partly_aged(m, keys@.take(0), hits, threshold));
            assert(self@ =~= (CacheView { entries: self@.entries, ..left }));
        }
        while j < keys.len()
            invariant
                j <= keys.len(),
                keys@.no_duplicates(),
                self@ == (CacheView {
                    entries: entries_partly_aged(m, keys@.take(j as int), hits, threshold),
                    ..left
                }),
            decreases keys.len() - j,
        {
            let fp = keys[j];
            let ghost before = self@.entries;
            self.entry_age(fp, hits, threshold);
            proof {
                let now = keys@.take(j as int);
                let next = keys@.take(j as int + 1);
                assert(next =~= now.push(fp));
                assert(next[j as int] == fp);
                assert forall|x: u64| #[trigger] next.contains(x) <==> now.contains(x) || x
                    == fp by {
                    if now.contains(x) {
                        let k = choose|k: int| 0 <= k < now.len() && now[k] == x;
                        assert(next[k] == x);
                    }
                    if next.contains(x) {
                        let k = choose|k: int| 0 <= k < next.len() && next[k] == x;
                        if k < j {
                            assert(now[k] == x);
                        }
                    }
                }
                assert(!now.contains(fp));
                assert(self@.entries =~= entries_partly_aged(m, next, hits, threshold));
                assert(self@ =~= (CacheView { entries: self@.entries, ..left }));
            }
            j = j + 1;
        }
        proof {
            assert(keys@.take(j as int) =~= keys@);
            assert(self@.entries =~= entries_aged(m, hits, threshold));
            assert(self@ =~= (CacheView { entries: self@.entries, ..left }));
        }
    }
}

/// Pressure that does not pass escalates to giving up relations, one every
/// other tick; pressure that passes starts over.
pub proof fn pressure_escalates(d: DiskReclaim)
    ensures
        reclaim_step(d, false, false).1 == (DiskReclaim { ticks: 0, drop_backoff: false }),
        reclaim_step(DiskReclaim { ticks: 0, drop_backoff: false }, true, false).0
            == ReclaimStep::Purge,
        reclaim_step(DiskReclaim { ticks: 1, drop_backoff: false }, true, false).0
            == ReclaimStep::Sweep,
        d.ticks >= 2 && !d.drop_backoff ==> reclaim_step(d, true, false).0 == ReclaimStep::Drop
            && reclaim_step(reclaim_step(d, true, false).1, true, false).0 == ReclaimStep::Wait,
        reclaim_step(d, true, true) == (ReclaimStep::Wait, d),
{
}

} // verus!
