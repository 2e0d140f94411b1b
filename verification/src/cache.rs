//! The cached queries: registration data, serving state, and how a query is
//! invalidated or evicted.
use std::collections::HashMap;

use vstd::prelude::*;
use vstd::string::*;

use crate::catalog::TableMetadata;
use crate::frame::oid_contains;
use crate::memo::memo_bumped;
use crate::memo::MemoStore;
use crate::memo::MemoView;
use crate::mv::after_change;
use crate::mv::dirtied;
use crate::mv::drop_due;
use crate::mv::MvState;
use crate::mv::ShapeGate;
use crate::publication::relations_released;
use crate::publication::ActiveRelations;
use crate::publication::ActiveView;
use crate::query::UpdateQueries;
use crate::query::UpdateQuery;
use crate::text::identifier;
use crate::text::identifier_quote_into;

verus! {

broadcast use vstd::std_specs::hash::group_hash_axioms;

/// How queries give way under pressure.
#[derive(Clone, Copy, Debug, PartialEq, Eq, Structural)]
pub enum CachePolicy {
    Fifo,
    Clock,
}

/// A registered query.
pub struct CachedQuery {
    pub fingerprint: u64,
    /// Stamp of the rows the query keeps alive.
    pub generation: u64,
    pub relation_oids: Vec<u32>,
    /// Never evicted, and readmitted when invalidated.
    pub pinned: bool,
    pub invalidated: bool,
    /// The query as SQL over the cache tables.
    pub sql: String,
}

/// The mathematical value of a [`CachedQuery`].
pub struct CachedView {
    pub fingerprint: u64,
    pub generation: u64,
    pub relation_oids: Seq<u32>,
    pub pinned: bool,
    pub invalidated: bool,
    pub sql: Seq<char>,
}

impl View for CachedQuery {
    type V = CachedView;

    open spec fn view(&self) -> CachedView {
        CachedView {
            fingerprint: self.fingerprint,
            generation: self.generation,
            relation_oids: self.relation_oids@,
            pinned: self.pinned,
            invalidated: self.invalidated,
            sql: self.sql@,
        }
    }
}

pub open spec fn cached_view(queries: Seq<CachedQuery>) -> Seq<CachedView> {
    Seq::new(queries.len(), |i: int| queries[i]@)
}

/// Whether a query can be served.
#[derive(Clone, Copy, Debug, PartialEq, Eq, Structural)]
pub enum CachedQueryState {
    /// Seen, not yet admitted; forgotten when the credit runs out.
    Pending { credit: u64 },
    Loading,
    Ready,
    Invalidated,
}

/// What the serving side knows of a query.
pub struct QueryEntry {
    pub state: CachedQueryState,
    pub generation: u64,
    pub max_limit: Option<u64>,
    /// Served since it was last looked at.
    pub referenced: bool,
    pub mv_state: MvState,
    pub shape_gate: ShapeGate,
    /// Row cap of the materialized result.
    pub mv_limit: Option<u64>,
    pub output_columns: Option<Vec<String>>,
    pub sql: Option<String>,
}

/// The mathematical value of a [`QueryEntry`].
pub struct EntryView {
    pub state: CachedQueryState,
    pub generation: u64,
    pub max_limit: Option<u64>,
    pub referenced: bool,
    pub mv_state: MvState,
    pub shape_gate: ShapeGate,
    pub mv_limit: Option<u64>,
    pub output_columns: Option<Seq<Seq<char>>>,
    pub sql: Option<Seq<char>>,
}

impl View for QueryEntry {
    type V = EntryView;

    open spec fn view(&self) -> EntryView {
        EntryView {
            state: self.state,
            generation: self.generation,
            max_limit: self.max_limit,
            referenced: self.referenced,
            mv_state: self.mv_state,
            shape_gate: self.shape_gate,
            mv_limit: self.mv_limit,
            output_columns: self.output_columns.deep_view(),
            sql: self.sql.deep_view(),
        }
    }
}

/// Up to which generation rows are purged.
#[derive(Clone, Copy, Debug, PartialEq, Eq, Structural)]
pub enum PurgeBound {
    /// Up to this one.
    Generation { generation: u64 },
    /// Up to the last one given out when the purge has its turn.
    Counter,
}

/// Work for the cache database or other parts of the system that a change of
/// the cached queries entails. It is carried out in order, and before the next
/// call that changes the cached queries.
#[derive(Clone, Debug, PartialEq, Eq)]
pub enum Effect {
    /// Drop the query's materialized table; a failure is only logged.
    MvDrop { fingerprint: u64 },
    /// Send the clients waiting for the query to the origin.
    WaitersFail { fingerprint: u64 },
    /// Tell the clients waiting for the query that it can be served.
    Ready { fingerprint: u64, generation: u64, sql: String, max_limit: Option<u64> },
    /// Populate the pinned query anew.
    Readmit { fingerprint: u64 },
    /// Stamp unstamped rows with a new generation, and delete rows of
    /// generations up to `up_to`; with `above` only if that lies above it.
    Purge { above: Option<PurgeBound>, up_to: PurgeBound },
    /// Drop a cache table that no query reads any more, by the given statement;
    /// a failure is only logged.
    TableDrop { sql: String },
}

/// The mathematical value of an [`Effect`].
pub enum EffectView {
    MvDrop { fingerprint: u64 },
    WaitersFail { fingerprint: u64 },
    Ready { fingerprint: u64, generation: u64, sql: Seq<char>, max_limit: Option<u64> },
    Readmit { fingerprint: u64 },
    Purge { above: Option<PurgeBound>, up_to: PurgeBound },
    TableDrop { sql: Seq<char> },
}

impl View for Effect {
    type V = EffectView;

    open spec fn view(&self) -> EffectView {
        match self {
            Effect::MvDrop { fingerprint } => EffectView::MvDrop { fingerprint: *fingerprint },
            Effect::WaitersFail { fingerprint } => EffectView::WaitersFail {
                fingerprint: *fingerprint,
            },
            Effect::Ready { fingerprint, generation, sql, max_limit } => EffectView::Ready {
                fingerprint: *fingerprint,
                generation: *generation,
                sql: sql@,
                max_limit: *max_limit,
            },
            Effect::Readmit { fingerprint } => EffectView::Readmit { fingerprint: *fingerprint },
            Effect::Purge { above, up_to } => EffectView::Purge { above: *above, up_to: *up_to },
            Effect::TableDrop { sql } => EffectView::TableDrop { sql: sql@ },
        }
    }
}

pub open spec fn effects_view(effects: Seq<Effect>) -> Seq<EffectView> {
    Seq::new(effects.len(), |i: int| effects[i]@)
}

/// What a purge asks of the cache database when it has its turn.
#[derive(Clone, Copy, Debug, PartialEq, Eq, Structural)]
pub struct PurgePlan {
    /// The generation that unstamped rows are stamped with.
    pub promote_to: u64,
    /// Rows of generations up to this one are deleted after that, if any.
    pub threshold: Option<u64>,
}

/// The cached queries and what hangs on them.
pub struct Cache {
    pub tables: HashMap<u32, TableMetadata>,
    pub update_queries: HashMap<u32, UpdateQueries>,
    /// In registration order.
    pub cached: Vec<CachedQuery>,
    /// Generations of the live queries, ascending.
    pub generations: Vec<u64>,
    pub generation_counter: u64,
    pub entries: HashMap<u64, QueryEntry>,
    pub active: ActiveRelations,
    pub memo: MemoStore,
    pub policy: CachePolicy,
    /// Size of the cache volume in bytes; zero when it is not known.
    pub disk_total: u64,
    pub disk_available: u64,
    /// Bytes of the cache volume that may be in use.
    pub disk_limit: u64,
    /// The volume counts as over its limit, whatever the reading.
    pub disk_forced: bool,
    /// Whether a purge waits for the cache transaction's locks.
    pub purge_pending: bool,
    pub effects: Vec<Effect>,
}

/// The mathematical value of a [`Cache`].
#[verifier::ext_equal]
pub struct CacheView {
    pub tables: Map<u32, TableMetadata>,
    pub update_queries: Map<u32, Seq<UpdateQuery>>,
    pub cached: Seq<CachedView>,
    pub generations: Seq<u64>,
    pub generation_counter: u64,
    pub entries: Map<u64, EntryView>,
    pub active: ActiveView,
    pub memo: MemoView,
    pub policy: CachePolicy,
    pub disk_total: u64,
    pub disk_available: u64,
    pub disk_limit: u64,
    pub disk_forced: bool,
    pub purge_pending: bool,
    pub effects: Seq<EffectView>,
}

pub open spec fn update_queries_view(m: Map<u32, UpdateQueries>) -> Map<u32, Seq<UpdateQuery>> {
    m.map_values(|u: UpdateQueries| u.queries@)
}

pub open spec fn entries_view(m: Map<u64, QueryEntry>) -> Map<u64, EntryView> {
    m.map_values(|e: QueryEntry| e@)
}

impl View for Cache {
    type V = CacheView;

    open spec fn view(&self) -> CacheView {
        CacheView {
            tables: self.tables@,
            update_queries: update_queries_view(self.update_queries@),
            cached: cached_view(self.cached@),
            generations: self.generations@,
            generation_counter: self.generation_counter,
            entries: entries_view(self.entries@),
            active: self.active@,
            memo: self.memo@,
            policy: self.policy,
            disk_total: self.disk_total,
            disk_available: self.disk_available,
            disk_limit: self.disk_limit,
            disk_forced: self.disk_forced,
            purge_pending: self.purge_pending,
            effects: effects_view(self.effects@),
        }
    }
}

/// A cache without a query, over a volume that is not known.
pub open spec fn cache_empty(policy: CachePolicy) -> CacheView {
    CacheView {
        tables: Map::empty(),
        update_queries: Map::empty(),
        cached: Seq::empty(),
        generations: Seq::empty(),
        generation_counter: 0,
        entries: Map::empty(),
        active: ActiveView { counts: Seq::empty(), dirty: false, publication_oids: Seq::empty() },
        memo: MemoView {
            memos: Seq::empty(),
            relation_versions: Map::empty(),
            memo_versions: Map::empty(),
        },
        policy,
        disk_total: 0,
        disk_available: 0,
        disk_limit: 0,
        disk_forced: false,
        purge_pending: false,
        effects: Seq::empty(),
    }
}

/// The registered query with the given fingerprint.
pub open spec fn cached_find(cached: Seq<CachedView>, fingerprint: u64) -> Option<CachedView>
    decreases cached.len(),
{
    if cached.len() == 0 {
        None
    } else if cached[0].fingerprint == fingerprint {
        Some(cached[0])
    } else {
        cached_find(cached.drop_first(), fingerprint)
    }
}

/// The registered queries without the given one.
pub open spec fn cached_without(cached: Seq<CachedView>, fingerprint: u64) -> Seq<CachedView>
    decreases cached.len(),
{
    if cached.len() == 0 {
        cached
    } else {
        let rest = cached_without(cached.drop_last(), fingerprint);
        if cached.last().fingerprint == fingerprint {
            rest
        } else {
            rest.push(cached.last())
        }
    }
}

/// The registered queries with the given one marked invalidated.
pub open spec fn cached_marked(cached: Seq<CachedView>, fingerprint: u64) -> Seq<CachedView> {
    Seq::new(
        cached.len(),
        |i: int|
            if cached[i].fingerprint == fingerprint {
                CachedView { invalidated: true, ..cached[i] }
            } else {
                cached[i]
            },
    )
}

/// A list of numbers without the given one.
pub open spec fn without(list: Seq<u64>, item: u64) -> Seq<u64>
    decreases list.len(),
{
    if list.len() == 0 {
        list
    } else {
        let rest = without(list.drop_last(), item);
        if list.last() == item {
            rest
        } else {
            rest.push(list.last())
        }
    }
}

/// A relation's queries without the given one.
pub open spec fn queries_without(queries: Seq<UpdateQuery>, fingerprint: u64) -> Seq<UpdateQuery>
    decreases queries.len(),
{
    if queries.len() == 0 {
        queries
    } else {
        let rest = queries_without(queries.drop_last(), fingerprint);
        if queries.last().fingerprint == fingerprint {
            rest
        } else {
            rest.push(queries.last())
        }
    }
}

/// A relation's queries without the given one; a relation left without queries
/// is not listed.
pub open spec fn relation_query_removed(
    m: Map<u32, Seq<UpdateQuery>>,
    oid: u32,
    fingerprint: u64,
) -> Map<u32, Seq<UpdateQuery>> {
    if m.contains_key(oid) {
        let rest = queries_without(m[oid], fingerprint);
        if rest.len() == 0 {
            m.remove(oid)
        } else {
            m.insert(oid, rest)
        }
    } else {
        m
    }
}

pub open spec fn query_removed(
    m: Map<u32, Seq<UpdateQuery>>,
    oids: Seq<u32>,
    fingerprint: u64,
) -> Map<u32, Seq<UpdateQuery>>
    decreases oids.len(),
{
    if oids.len() == 0 {
        m
    } else {
        relation_query_removed(
            query_removed(m, oids.drop_last(), fingerprint),
            oids.last(),
            fingerprint,
        )
    }
}

/// Up to where rows are kept by no query: below the oldest generation, or
/// anywhere when there is none.
pub open spec fn purge_bound(generations: Seq<u64>) -> PurgeBound {
    if generations.len() == 0 {
        PurgeBound::Counter
    } else if generations[0] == 0 {
        PurgeBound::Generation { generation: 0 }
    } else {
        PurgeBound::Generation { generation: (generations[0] - 1) as u64 }
    }
}

/// The generation of a bound.
pub open spec fn bound_value(bound: PurgeBound, counter: u64) -> u64 {
    match bound {
        PurgeBound::Generation { generation } => generation,
        PurgeBound::Counter => counter,
    }
}

/// Rows of generations up to this one are kept by no query.
pub open spec fn purge_threshold(generations: Seq<u64>, counter: u64) -> u64 {
    bound_value(purge_bound(generations), counter)
}

/// Whether a bound may turn out to lie above another: a promotion may move the
/// counter before the purge has its turn.
pub open spec fn may_lie_above(bound: PurgeBound, other: PurgeBound) -> bool {
    match (bound, other) {
        (PurgeBound::Generation { generation: a }, PurgeBound::Generation { generation: b }) => a
            > b,
        (PurgeBound::Counter, PurgeBound::Counter) => false,
        _ => true,
    }
}

/// Bytes of the cache volume in use.
pub open spec fn used_bytes(total: u64, available: u64) -> u64 {
    if available > total {
        0
    } else {
        (total - available) as u64
    }
}

/// Whether the cache volume is over its limit, or forced to count as such;
/// without a reading it is not over it.
pub open spec fn under_pressure(c: CacheView) -> bool {
    c.disk_forced || c.disk_total != 0 && used_bytes(c.disk_total, c.disk_available) > c.disk_limit
}

/// What a purge asks of the cache database when it has its turn; `None` when
/// its bound does not lie above the other.
pub open spec fn purge_planned(
    above: Option<PurgeBound>,
    up_to: PurgeBound,
    counter: u64,
) -> Option<PurgePlan> {
    let threshold = bound_value(up_to, counter);
    if above matches Some(other) && threshold <= bound_value(other, counter) {
        None
    } else {
        Some(
            PurgePlan {
                promote_to: (counter + 1) as u64,
                threshold: if threshold > 0 {
                    Some(threshold)
                } else {
                    None
                },
            },
        )
    }
}

/// Purging up to a bound: asked of the cache database, or left pending while
/// the cache transaction may hold locks.
pub open spec fn purge_asked(c: CacheView, up_to: PurgeBound, locks_held: bool) -> CacheView {
    if locks_held {
        CacheView { purge_pending: true, ..c }
    } else {
        CacheView { effects: c.effects.push(EffectView::Purge { above: None, up_to }), ..c }
    }
}

/// Purging when the bound rose above what it was before and the volume is under
/// pressure. A purge that waits for its turn decides that then.
pub open spec fn purge_if_moved(c: CacheView, before: PurgeBound, locks_held: bool) -> CacheView {
    let after = purge_bound(c.generations);
    if !under_pressure(c) {
        c
    } else if locks_held {
        if bound_value(after, c.generation_counter) > bound_value(before, c.generation_counter) {
            CacheView { purge_pending: true, ..c }
        } else {
            c
        }
    } else if may_lie_above(after, before) {
        CacheView {
            effects: c.effects.push(EffectView::Purge { above: Some(before), up_to: after }),
            ..c
        }
    } else {
        c
    }
}

/// The effects of taking a query out of service.
pub open spec fn evict_effects(c: CacheView, fingerprint: u64) -> Seq<EffectView> {
    let dropped = if c.entries.contains_key(fingerprint) && drop_due(
        c.entries[fingerprint].mv_state,
    ) {
        c.effects.push(EffectView::MvDrop { fingerprint })
    } else {
        c.effects
    };
    dropped.push(EffectView::WaitersFail { fingerprint })
}

/// Evicting a query: it leaves every structure, its memo goes stale, and its
/// waiters are sent away.
pub open spec fn evicted(c: CacheView, fingerprint: u64, locks_held: bool) -> CacheView {
    match cached_find(c.cached, fingerprint) {
        None => c,
        Some(q) => {
            let gone = CacheView {
                cached: cached_without(c.cached, fingerprint),
                active: relations_released(c.active, q.relation_oids),
                generations: without(c.generations, q.generation),
                entries: c.entries.remove(fingerprint),
                memo: memo_bumped(c.memo, fingerprint),
                update_queries: query_removed(c.update_queries, q.relation_oids, fingerprint),
                effects: evict_effects(c, fingerprint),
                ..c
            };
            purge_if_moved(gone, purge_bound(c.generations), locks_held)
        },
    }
}

/// The statement that drops a relation's cache table.
pub open spec fn table_drop_text(table: TableMetadata) -> Seq<char> {
    "DROP TABLE IF EXISTS "@ + identifier(table.schema@) + "."@ + identifier(table.name@)
}

/// Forgetting the relations' definitions: their cache tables go.
pub open spec fn tables_dropped(c: CacheView, oids: Seq<u32>) -> CacheView
    decreases oids.len(),
{
    if oids.len() == 0 {
        c
    } else {
        let before = tables_dropped(c, oids.drop_last());
        if before.tables.contains_key(oids.last()) {
            CacheView {
                tables: before.tables.remove(oids.last()),
                effects: before.effects.push(
                    EffectView::TableDrop { sql: table_drop_text(before.tables[oids.last()]) },
                ),
                ..before
            }
        } else {
            before
        }
    }
}

/// Evicting several queries in order.
pub open spec fn all_evicted(c: CacheView, fingerprints: Seq<u64>, locks_held: bool) -> CacheView
    decreases fingerprints.len(),
{
    if fingerprints.len() == 0 {
        c
    } else {
        evicted(
            all_evicted(c, fingerprints.drop_last(), locks_held),
            fingerprints.last(),
            locks_held,
        )
    }
}

/// The registered queries that read the relation, in order.
pub open spec fn readers_of(cached: Seq<CachedView>, oid: u32) -> Seq<u64>
    decreases cached.len(),
{
    if cached.len() == 0 {
        Seq::empty()
    } else {
        let rest = readers_of(cached.drop_last(), oid);
        if cached.last().relation_oids.contains(oid) {
            rest.push(cached.last().fingerprint)
        } else {
            rest
        }
    }
}

/// Evicting every query that reads the relation.
pub open spec fn table_invalidated(c: CacheView, oid: u32, locks_held: bool) -> CacheView {
    all_evicted(c, readers_of(c.cached, oid), locks_held)
}

/// Evicting every query that reads one of the relations, relation by relation.
pub open spec fn tables_invalidated(c: CacheView, oids: Seq<u32>, locks_held: bool) -> CacheView
    decreases oids.len(),
{
    if oids.len() == 0 {
        c
    } else {
        table_invalidated(
            tables_invalidated(c, oids.drop_last(), locks_held),
            oids.last(),
            locks_held,
        )
    }
}

/// An entry whose query stops serving: the materialized result is dirtied with
/// it.
pub open spec fn entry_invalidated(e: EntryView) -> EntryView {
    EntryView {
        state: CachedQueryState::Invalidated,
        referenced: false,
        mv_state: after_change(e.mv_state),
        ..e
    }
}

/// Invalidating a query because of a change. A pinned query is readmitted; a
/// FIFO cache evicts; otherwise the query stops serving but keeps its
/// registration for a quick return.
pub open spec fn cdc_invalidated(c: CacheView, fingerprint: u64, locks_held: bool) -> CacheView {
    match cached_find(c.cached, fingerprint) {
        Some(q) => if q.pinned {
            CacheView {
                effects: c.effects.push(EffectView::Readmit { fingerprint }).push(
                    EffectView::WaitersFail { fingerprint },
                ),
                ..c
            }
        } else if c.policy == CachePolicy::Fifo {
            evicted(c, fingerprint, locks_held)
        } else if q.invalidated {
            c
        } else {
            let marked = CacheView {
                generations: without(c.generations, q.generation),
                cached: cached_marked(c.cached, fingerprint),
                entries: if c.entries.contains_key(fingerprint) {
                    c.entries.insert(fingerprint, entry_invalidated(c.entries[fingerprint]))
                } else {
                    c.entries
                },
                effects: c.effects.push(EffectView::WaitersFail { fingerprint }),
                ..c
            };
            purge_if_moved(marked, purge_bound(c.generations), locks_held)
        },
        None => c,
    }
}

/// Whether invalidating the query is an event: not when it is gone already or
/// was invalidated before.
pub open spec fn invalidation_counts(c: CacheView, fingerprint: u64) -> bool {
    match cached_find(c.cached, fingerprint) {
        Some(q) => q.pinned || c.policy == CachePolicy::Fifo || !q.invalidated,
        None => c.policy == CachePolicy::Fifo,
    }
}

/// Invalidating several queries in order.
pub open spec fn all_cdc_invalidated(
    c: CacheView,
    fingerprints: Seq<u64>,
    locks_held: bool,
) -> CacheView
    decreases fingerprints.len(),
{
    if fingerprints.len() == 0 {
        c
    } else {
        cdc_invalidated(
            all_cdc_invalidated(c, fingerprints.drop_last(), locks_held),
            fingerprints.last(),
            locks_held,
        )
    }
}

/// A query's materialized result, after a relevant change.
pub open spec fn entry_dirtied(m: Map<u64, EntryView>, fingerprint: u64) -> Map<u64, EntryView> {
    if m.contains_key(fingerprint) && dirtied(m[fingerprint].mv_state) is Some {
        m.insert(
            fingerprint,
            EntryView { mv_state: after_change(m[fingerprint].mv_state), ..m[fingerprint] },
        )
    } else {
        m
    }
}

pub open spec fn entries_dirtied(m: Map<u64, EntryView>, fingerprints: Seq<u64>) -> Map<
    u64,
    EntryView,
>
    decreases fingerprints.len(),
{
    if fingerprints.len() == 0 {
        m
    } else {
        entry_dirtied(entries_dirtied(m, fingerprints.drop_last()), fingerprints.last())
    }
}

/// Whether a change can still dirty the query's materialized result.
pub open spec fn dirty_eval_required(m: Map<u64, EntryView>, fingerprint: u64) -> bool {
    m.contains_key(fingerprint) && dirtied(m[fingerprint].mv_state) is Some
}

/// Take a number off a list.
pub fn number_remove(list: &mut Vec<u64>, item: u64)
    ensures
        final(list)@ == without(old(list)@, item),
{
    let ghost start = list@;
    let mut left: Vec<u64> = Vec::new();
    let mut i: usize = 0;
    while i < list.len()
        invariant
            i <= list.len(),
            list@ == start,
            left@ =~= without(start.take(i as int), item),
        decreases list.len() - i,
    {
        proof {
            assert(start.take(i + 1).drop_last() =~= start.take(i as int));
        }
        if list[i] != item {
            left.push(list[i]);
        }
        i = i + 1;
    }
    proof {
        assert(start.take(i as int) =~= start);
    }
    *list = left;
}

/// A copy of a list of relations.
pub fn oids_clone(oids: &Vec<u32>) -> (copy: Vec<u32>)
    ensures
        copy@ == oids@,
{
    let mut copy: Vec<u32> = Vec::new();
    let mut i: usize = 0;
    while i < oids.len()
        invariant
            i <= oids.len(),
            copy@ =~= oids@.take(i as int),
        decreases oids.len() - i,
    {
        copy.push(oids[i]);
        i = i + 1;
    }
    copy
}

impl Cache {
    /// An empty cache.
    pub fn new(policy: CachePolicy) -> (c: Cache)
        ensures
            c@ == cache_empty(policy),
    {
        let c = Cache {
            tables: HashMap::new(),
            update_queries: HashMap::new(),
            cached: Vec::new(),
            generations: Vec::new(),
            generation_counter: 0,
            entries: HashMap::new(),
            active: ActiveRelations::new(),
            memo: MemoStore::new(),
            policy,
            disk_total: 0,
            disk_available: 0,
            disk_limit: 0,
            disk_forced: false,
            purge_pending: false,
            effects: Vec::new(),
        };
        proof {
            assert(c@.update_queries =~= Map::<u32, Seq<UpdateQuery>>::empty());
            assert(c@.entries =~= Map::<u64, EntryView>::empty());
            assert(c@.effects =~= Seq::<EffectView>::empty());
            assert(c@ =~= cache_empty(policy));
        }
        c
    }

    /// Bytes of the cache volume in use.
    pub fn disk_used(&self) -> (used: u64)
        ensures
            used == used_bytes(self@.disk_total, self@.disk_available),
    {
        if self.disk_available > self.disk_total {
            0
        } else {
            self.disk_total - self.disk_available
        }
    }

    /// Whether the cache volume is over its limit.
    pub fn disk_pressure(&self) -> (pressure: bool)
        ensures
            pressure == under_pressure(self@),
    {
        self.disk_forced || self.disk_total != 0 && self.disk_used() > self.disk_limit
    }

    /// Up to where rows are kept by no query.
    pub fn generation_purge_bound(&self) -> (bound: PurgeBound)
        ensures
            bound == purge_bound(self@.generations),
    {
        if self.generations.len() == 0 {
            PurgeBound::Counter
        } else if self.generations[0] == 0 {
            PurgeBound::Generation { generation: 0 }
        } else {
            PurgeBound::Generation { generation: self.generations[0] - 1 }
        }
    }

    /// Rows of generations up to this one are kept by no query.
    pub fn generation_purge_threshold(&self) -> (threshold: u64)
        ensures
            threshold == purge_threshold(self@.generations, self@.generation_counter),
    {
        self.bound_resolve(self.generation_purge_bound())
    }

    /// Index of the registered query with the given fingerprint.
    pub fn cached_position(&self, fingerprint: u64) -> (found: Option<usize>)
        ensures
            match found {
                Some(i) => i < self.cached@.len() && cached_find(self@.cached, fingerprint) == Some(
                    self.cached@[i as int]@,
                ) && self.cached@[i as int].fingerprint == fingerprint,
                None => cached_find(self@.cached, fingerprint) is None,
            },
    {
        let ghost view = self@.cached;
        let mut i: usize = 0;
        proof {
            assert(view.skip(0) =~= view);
        }
        while i < self.cached.len()
            invariant
                i <= self.cached.len(),
                view == cached_view(self.cached@),
                cached_find(view, fingerprint) == cached_find(view.skip(i as int), fingerprint),
            decreases self.cached.len() - i,
        {
            proof {
                assert(view.skip(i as int)[0] == view[i as int]);
                assert(view.skip(i as int).drop_first() =~= view.skip(i + 1));
            }
            if self.cached[i].fingerprint == fingerprint {
                return Some(i);
            }
            i = i + 1;
        }
        None
    }

    fn bound_resolve(&self, bound: PurgeBound) -> (generation: u64)
        ensures
            generation == bound_value(bound, self@.generation_counter),
    {
        match bound {
            PurgeBound::Generation { generation } => generation,
            PurgeBound::Counter => self.generation_counter,
        }
    }

    /// Let an effect wait for its turn.
    pub fn effect_push(&mut self, effect: Effect)
        ensures
            final(self)@ == (CacheView {
                effects: old(self)@.effects.push(effect@),
                ..old(self)@
            }),
    {
        let ghost e = effect@;
        self.effects.push(effect);
        proof {
            assert(self@.effects =~= old(self)@.effects.push(e));
        }
    }

    /// Purge rows up to a bound, now or when the locks are gone.
    pub fn generation_purge(&mut self, up_to: PurgeBound, locks_held: bool)
        ensures
            final(self)@ == purge_asked(old(self)@, up_to, locks_held),
    {
        if locks_held {
            self.purge_pending = true;
        } else {
            self.effect_push(Effect::Purge { above: None, up_to });
        }
        proof {
            assert(self@ =~= purge_asked(old(self)@, up_to, locks_held));
        }
    }

    fn purge_if_moved(&mut self, before: PurgeBound, locks_held: bool)
        ensures
            final(self)@ == purge_if_moved(old(self)@, before, locks_held),
    {
        if !self.disk_pressure() {
            return ;
        }
        let after = self.generation_purge_bound();
        if locks_held {
            if self.bound_resolve(after) > self.bound_resolve(before) {
                self.purge_pending = true;
            }
            proof {
                assert(self@ =~= purge_if_moved(old(self)@, before, locks_held));
            }
            return ;
        }
        let rises = match (after, before) {
            (
                PurgeBound::Generation { generation: a },
                PurgeBound::Generation { generation: b },
            ) => a > b,
            (PurgeBound::Counter, PurgeBound::Counter) => false,
            _ => true,
        };
        if rises {
            self.effect_push(Effect::Purge { above: Some(before), up_to: after });
        }
    }

    /// What a purge whose turn has come asks of the cache database; `None` when
    /// it is not needed after all.
    pub fn purge_plan(&self, above: Option<PurgeBound>, up_to: PurgeBound) -> (plan: Option<
        PurgePlan,
    >)
        requires
            self@.generation_counter < u64::MAX,
        ensures
            plan == purge_planned(above, up_to, self@.generation_counter),
    {
        let threshold = self.bound_resolve(up_to);
        if let Some(other) = above {
            if threshold <= self.bound_resolve(other) {
                return None;
            }
        }
        Some(
            PurgePlan {
                promote_to: self.generation_counter + 1,
                threshold: if threshold > 0 {
                    Some(threshold)
                } else {
                    None
                },
            },
        )
    }

    /// The cache database stamped `promoted` rows with the generation it was
    /// given: the generation is then taken.
    pub fn generation_zero_promote(&mut self, promoted: i64, generation: u64)
        ensures
            final(self)@ == (CacheView {
                generation_counter: if promoted > 0 {
                    generation
                } else {
                    old(self)@.generation_counter
                },
                ..old(self)@
            }),
    {
        if promoted > 0 {
            self.generation_counter = generation;
        }
        proof {
            assert(self@ =~= (CacheView {
                generation_counter: self.generation_counter,
                ..old(self)@
            }));
        }
    }

    /// Take a query off the registered ones.
    pub fn cached_remove(&mut self, fingerprint: u64)
        ensures
            final(self)@ == (CacheView {
                cached: cached_without(old(self)@.cached, fingerprint),
                ..old(self)@
            }),
    {
        let mut all: Vec<CachedQuery> = Vec::new();
        std::mem::swap(&mut all, &mut self.cached);
        let ghost source = all@;
        let ghost view = cached_view(source);
        let mut kept: Vec<CachedQuery> = Vec::new();
        proof {
            assert(cached_view(kept@) =~= cached_without(view.take(0), fingerprint));
        }
        for q in it: all
            invariant
                it.seq() == source,
                view == cached_view(source),
                cached_view(kept@) == cached_without(view.take(it.index()), fingerprint),
        {
            let ghost i = it.index();
            let ghost so_far = kept@;
            let ghost v = q@;
            proof {
                assert(view.take(i + 1).drop_last() =~= view.take(i));
                assert(view.take(i + 1).last() == v);
            }
            if q.fingerprint != fingerprint {
                kept.push(q);
                proof {
                    assert(cached_view(kept@) =~= cached_view(so_far).push(v));
                }
            }
        }
        proof {
            assert(view.take(view.len() as int) =~= view);
        }
        self.cached = kept;
        proof {
            assert(self@ =~= (CacheView {
                cached: cached_without(old(self)@.cached, fingerprint),
                ..old(self)@
            }));
        }
    }

    /// Take the query off the lists of the relations it read.
    pub fn update_queries_remove_fingerprint(&mut self, fingerprint: u64, oids: &Vec<u32>)
        ensures
            final(self)@ == (CacheView {
                update_queries: query_removed(old(self)@.update_queries, oids@, fingerprint),
                ..old(self)@
            }),
    {
        let ghost start = self@;
        let mut i: usize = 0;
        while i < oids.len()
            invariant
                i <= oids.len(),
                self@ == (CacheView {
                    update_queries: query_removed(
                        start.update_queries,
                        oids@.take(i as int),
                        fingerprint,
                    ),
                    ..start
                }),
            decreases oids.len() - i,
        {
            let oid = oids[i];
            let ghost before = self@;
            proof {
                assert(oids@.take(i + 1).drop_last() =~= oids@.take(i as int));
            }
            if let Some(list) = self.update_queries.remove(&oid) {
                let ghost source = list.queries@;
                let mut kept: Vec<UpdateQuery> = Vec::new();
                proof {
                    assert(kept@ =~= queries_without(source.take(0), fingerprint));
                }
                for q in it: list.queries
                    invariant
                        it.seq() == source,
                        kept@ == queries_without(source.take(it.index()), fingerprint),
                {
                    let ghost k = it.index();
                    proof {
                        assert(source.take(k + 1).drop_last() =~= source.take(k));
                        assert(source.take(k + 1).last() == q);
                    }
                    if q.fingerprint != fingerprint {
                        kept.push(q);
                    }
                }
                proof {
                    assert(source.take(source.len() as int) =~= source);
                }
                if kept.len() != 0 {
                    self.update_queries.insert(oid, UpdateQueries { queries: kept });
                }
            }
            proof {
                assert(self@.update_queries =~= relation_query_removed(
                    before.update_queries,
                    oid,
                    fingerprint,
                ));
                assert(self@ =~= (CacheView {
                    update_queries: query_removed(
                        start.update_queries,
                        oids@.take(i + 1),
                        fingerprint,
                    ),
                    ..start
                }));
            }
            i = i + 1;
        }
        proof {
            assert(oids@.take(i as int) =~= oids@);
        }
    }

    /// Forget the relations' definitions; their cache tables are to be dropped.
    pub fn cache_tables_drop(&mut self, oids: &Vec<u32>)
        ensures
            final(self)@ == tables_dropped(old(self)@, oids@),
    {
        let ghost start = self@;
        let mut i: usize = 0;
        while i < oids.len()
            invariant
                i <= oids.len(),
                self@ == tables_dropped(start, oids@.take(i as int)),
            decreases oids.len() - i,
        {
            proof {
                assert(oids@.take(i + 1).drop_last() =~= oids@.take(i as int));
            }
            let ghost before = self@;
            if let Some(table) = self.tables.remove(&oids[i]) {
                let mut sql = "DROP TABLE IF EXISTS ".to_owned();
                identifier_quote_into(table.schema.as_str(), &mut sql);
                sql.append(".");
                identifier_quote_into(table.name.as_str(), &mut sql);
                self.effect_push(Effect::TableDrop { sql });
            } else {
                assert(self@.tables =~= before.tables);
            }
            proof {
                assert(self@ =~= tables_dropped(start, oids@.take(i + 1)));
            }
            i = i + 1;
        }
        proof {
            assert(oids@.take(i as int) =~= oids@);
        }
    }

    /// Evict a query.
    pub fn cache_query_evict(&mut self, fingerprint: u64, locks_held: bool)
        ensures
            final(self)@ == evicted(old(self)@, fingerprint, locks_held),
    {
        let at = match self.cached_position(fingerprint) {
            Some(at) => at,
            None => {
                return;
            },
        };
        let generation = self.cached[at].generation;
        let oids = oids_clone(&self.cached[at].relation_oids);
        let before = self.generation_purge_bound();
        self.cached_remove(fingerprint);
        self.active.active_relations_release(&oids);
        number_remove(&mut self.generations, generation);
        if let Some(entry) = self.entries.get(&fingerprint) {
            if entry.mv_state.mv_drop() {
                self.effect_push(Effect::MvDrop { fingerprint });
            }
        }
        self.entries.remove(&fingerprint);
        self.memo.memo_bump(fingerprint);
        self.effect_push(Effect::WaitersFail { fingerprint });
        self.update_queries_remove_fingerprint(fingerprint, &oids);
        proof {
            let c = old(self)@;
            assert(self@.entries =~= c.entries.remove(fingerprint));
            assert(self@.active =~= relations_released(c.active, oids@));
            assert(self@ =~= (CacheView {
                cached: cached_without(c.cached, fingerprint),
                active: relations_released(c.active, oids@),
                generations: without(c.generations, generation),
                entries: c.entries.remove(fingerprint),
                memo: memo_bumped(c.memo, fingerprint),
                update_queries: query_removed(c.update_queries, oids@, fingerprint),
                effects: evict_effects(c, fingerprint),
                ..c
            }));
        }
        self.purge_if_moved(before, locks_held);
    }

    /// Evict every query that reads the relation.
    pub fn cache_table_invalidate(&mut self, oid: u32, locks_held: bool)
        ensures
            final(self)@ == table_invalidated(old(self)@, oid, locks_held),
    {
        let ghost view = self@.cached;
        let mut readers: Vec<u64> = Vec::new();
        let mut i: usize = 0;
        while i < self.cached.len()
            invariant
                i <= self.cached.len(),
                *self == *old(self),
                view == cached_view(self.cached@),
                readers@ =~= readers_of(view.take(i as int), oid),
            decreases self.cached.len() - i,
        {
            proof {
                assert(view.take(i + 1).drop_last() =~= view.take(i as int));
                assert(view.take(i + 1).last() == self.cached@[i as int]@);
            }
            if oid_contains(&self.cached[i].relation_oids, oid) {
                readers.push(self.cached[i].fingerprint);
            }
            i = i + 1;
        }
        proof {
            assert(view.take(i as int) =~= view);
        }
        let ghost start = self@;
        let mut k: usize = 0;
        while k < readers.len()
            invariant
                k <= readers.len(),
                self@ == all_evicted(start, readers@.take(k as int), locks_held),
            decreases readers.len() - k,
        {
            proof {
                assert(readers@.take(k + 1).drop_last() =~= readers@.take(k as int));
            }
            self.cache_query_evict(readers[k], locks_held);
            k = k + 1;
        }
        proof {
            assert(readers@.take(k as int) =~= readers@);
        }
    }

    /// Evict every query that reads one of the relations.
    pub fn cache_tables_invalidate(&mut self, oids: &Vec<u32>, locks_held: bool)
        ensures
            final(self)@ == tables_invalidated(old(self)@, oids@, locks_held),
    {
        let ghost start = self@;
        let mut i: usize = 0;
        while i < oids.len()
            invariant
                i <= oids.len(),
                self@ == tables_invalidated(start, oids@.take(i as int), locks_held),
            decreases oids.len() - i,
        {
            proof {
                assert(oids@.take(i + 1).drop_last() =~= oids@.take(i as int));
            }
            self.cache_table_invalidate(oids[i], locks_held);
            i = i + 1;
        }
        proof {
            assert(oids@.take(i as int) =~= oids@);
        }
    }

    /// Invalidate a query because of a change; whether that was an event.
    pub fn cache_query_cdc_invalidate(&mut self, fingerprint: u64, locks_held: bool) -> (event:
        bool)
        ensures
            final(self)@ == cdc_invalidated(old(self)@, fingerprint, locks_held),
            event == invalidation_counts(old(self)@, fingerprint),
    {
        let at = match self.cached_position(fingerprint) {
            Some(at) => at,
            None => {
                return self.policy == CachePolicy::Fifo;
            },
        };
        if self.cached[at].pinned {
            self.effect_push(Effect::Readmit { fingerprint });
            self.effect_push(Effect::WaitersFail { fingerprint });
            proof {
                assert(self@ =~= cdc_invalidated(old(self)@, fingerprint, locks_held));
            }
            return true;
        }
        if self.policy == CachePolicy::Fifo {
            self.cache_query_evict(fingerprint, locks_held);
            return true;
        }
        if self.cached[at].invalidated {
            return false;
        }
        let generation = self.cached[at].generation;
        let before = self.generation_purge_bound();
        number_remove(&mut self.generations, generation);
        self.cached_mark(fingerprint);
        if let Some(mut entry) = self.entries.remove(&fingerprint) {
            entry.state = CachedQueryState::Invalidated;
            entry.referenced = false;
            if let Some(d) = entry.mv_state.dirtied() {
                entry.mv_state = d;
            }
            self.entries.insert(fingerprint, entry);
        }
        self.effect_push(Effect::WaitersFail { fingerprint });
        proof {
            let c = old(self)@;
            assert(self@.entries =~= if c.entries.contains_key(fingerprint) {
                c.entries.insert(fingerprint, entry_invalidated(c.entries[fingerprint]))
            } else {
                c.entries
            });
            assert(self@ =~= (CacheView {
                generations: without(c.generations, generation),
                cached: cached_marked(c.cached, fingerprint),
                entries: self@.entries,
                effects: c.effects.push(EffectView::WaitersFail { fingerprint }),
                ..c
            }));
        }
        self.purge_if_moved(before, locks_held);
        true
    }

    fn cached_mark(&mut self, fingerprint: u64)
        ensures
            final(self)@ == (CacheView {
                cached: cached_marked(old(self)@.cached, fingerprint),
                ..old(self)@
            }),
    {
        let ghost view = self@.cached;
        let mut i: usize = 0;
        while i < self.cached.len()
            invariant
                i <= self.cached.len(),
                self.cached@.len() == view.len(),
                forall|k: int|
                    0 <= k < view.len() ==> (#[trigger] self.cached@[k])@ == if k < i {
                        cached_marked(view, fingerprint)[k]
                    } else {
                        view[k]
                    },
                self@ == (CacheView { cached: self@.cached, ..old(self)@ }),
            decreases self.cached.len() - i,
        {
            assert(self.cached@[i as int]@ == view[i as int]);
            if self.cached[i].fingerprint == fingerprint {
                let ghost before = self.cached@;
                self.cached[i].invalidated = true;
                proof {
                    assert(self.cached@[i as int]@ == cached_marked(view, fingerprint)[i as int]);
                    assert forall|k: int| 0 <= k < view.len() && k != i implies self.cached@[k]
                        == #[trigger] before[k] by {}
                }
            }
            proof {
                assert(self@ =~= (CacheView { cached: self@.cached, ..old(self)@ }));
            }
            i = i + 1;
        }
        proof {
            assert(self@.cached =~= cached_marked(view, fingerprint));
        }
    }

    /// Dirty the query's materialized result.
    pub fn mv_dirty_mark(&mut self, fingerprint: u64)
        ensures
            final(self)@ == (CacheView {
                entries: entry_dirtied(old(self)@.entries, fingerprint),
                ..old(self)@
            }),
    {
        if let Some(mut entry) = self.entries.remove(&fingerprint) {
            if let Some(d) = entry.mv_state.dirtied() {
                entry.mv_state = d;
            }
            self.entries.insert(fingerprint, entry);
        }
        proof {
            assert(self@.entries =~= entry_dirtied(old(self)@.entries, fingerprint));
            assert(self@ =~= (CacheView {
                entries: entry_dirtied(old(self)@.entries, fingerprint),
                ..old(self)@
            }));
        }
    }

    /// Dirty the queries' materialized results.
    pub fn mv_dirty_mark_all(&mut self, fingerprints: &Vec<u64>)
        ensures
            final(self)@ == (CacheView {
                entries: entries_dirtied(old(self)@.entries, fingerprints@),
                ..old(self)@
            }),
    {
        let ghost start = self@;
        let mut i: usize = 0;
        while i < fingerprints.len()
            invariant
                i <= fingerprints.len(),
                self@ == (CacheView {
                    entries: entries_dirtied(start.entries, fingerprints@.take(i as int)),
                    ..start
                }),
            decreases fingerprints.len() - i,
        {
            proof {
                assert(fingerprints@.take(i + 1).drop_last() =~= fingerprints@.take(i as int));
            }
            self.mv_dirty_mark(fingerprints[i]);
            i = i + 1;
        }
        proof {
            assert(fingerprints@.take(i as int) =~= fingerprints@);
        }
    }

    /// Whether a change can still dirty the query's materialized result.
    pub fn mv_dirty_eval_required(&self, fingerprint: u64) -> (required: bool)
        ensures
            required == dirty_eval_required(self@.entries, fingerprint),
    {
        match self.entries.get(&fingerprint) {
            Some(entry) => entry.mv_state.dirtied().is_some(),
            None => false,
        }
    }
}

} // verus!
