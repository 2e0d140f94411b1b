//! What the serving side sees of a query: its state, and where its
//! materialized result is.
use vstd::prelude::*;

use crate::cache::cached_find;
use crate::cache::entries_dirtied;
use crate::cache::Cache;
use crate::cache::CachedQueryState;
use crate::cache::CacheView;
use crate::cache::Effect;
use crate::cache::EffectView;
use crate::cache::EntryView;
use crate::cache::number_remove;
use crate::cache::without;
use crate::cache::QueryEntry;
use crate::cdc::fingerprints_collect;
use crate::cdc::query_fingerprints;
use crate::frame::fingerprint_contains;
use crate::maps::fingerprints_of;
use crate::maps::lists_keys;
use crate::mv::completion;
use crate::mv::mv_build_completion;
use crate::mv::outcome_end;
use crate::mv::BuildEnd;
use crate::mv::MvBuildOutcome;
use crate::mv::MvState;
use crate::mv::ShapeGate;
use crate::text::texts_clone;

verus! {

broadcast use vstd::std_specs::hash::group_hash_axioms;

/// The state of a newly registered query's materialized result.
pub open spec fn initial_state(gate: ShapeGate) -> MvState {
    if gate == ShapeGate::Skip {
        MvState::Skipped
    } else {
        MvState::Pending { has_table: false }
    }
}

/// The entries with one entry's materialized result in another state.
pub open spec fn mv_moved(m: Map<u64, EntryView>, fingerprint: u64, state: MvState) -> Map<
    u64,
    EntryView,
> {
    m.insert(fingerprint, EntryView { mv_state: state, ..m[fingerprint] })
}

/// The entries with a query's shape classified, which starts its materialized
/// result over.
pub open spec fn mv_classified(
    m: Map<u64, EntryView>,
    fingerprint: u64,
    gate: ShapeGate,
    mv_limit: Option<u64>,
) -> Map<u64, EntryView> {
    if m.contains_key(fingerprint) {
        m.insert(
            fingerprint,
            EntryView {
                shape_gate: gate,
                mv_limit,
                mv_state: initial_state(gate),
                output_columns: None,
                ..m[fingerprint]
            },
        )
    } else {
        m
    }
}

/// The entries with a query in another state. What is known of its
/// materialized result stays.
pub open spec fn entry_written(
    m: Map<u64, EntryView>,
    fingerprint: u64,
    state: CachedQueryState,
    generation: u64,
    sql: Seq<char>,
    max_limit: Option<u64>,
) -> Map<u64, EntryView> {
    let base = if m.contains_key(fingerprint) {
        m[fingerprint]
    } else {
        EntryView {
            state,
            generation,
            max_limit,
            referenced: false,
            mv_state: MvState::Skipped,
            shape_gate: ShapeGate::Skip,
            mv_limit: None,
            output_columns: None,
            sql: None,
        }
    };
    m.insert(
        fingerprint,
        EntryView { state, generation, max_limit, referenced: false, sql: Some(sql), ..base },
    )
}

/// Whether a pinned query's result is to be built without waiting for a hit.
pub open spec fn bootstrap_due(c: CacheView, fingerprint: u64) -> bool {
    &&& cached_find(c.cached, fingerprint) matches Some(q) && q.pinned
    &&& c.entries.contains_key(fingerprint)
    &&& c.entries[fingerprint].mv_state is Pending
}

/// Whether a build may be dispatched: it is scheduled, and the query is served.
pub open spec fn build_dispatchable(c: CacheView, fingerprint: u64) -> bool {
    &&& c.entries.contains_key(fingerprint)
    &&& c.entries[fingerprint].mv_state is Scheduled
    &&& c.entries[fingerprint].state == CachedQueryState::Ready
    &&& c.entries[fingerprint].sql is Some
}

/// What a build takes from its query when it is dispatched.
pub struct MvSnapshot {
    pub has_table: bool,
    pub shape_gate: ShapeGate,
    pub max_limit: Option<u64>,
    pub generation: u64,
    pub output_columns: Option<Vec<String>>,
}

/// Builds that run.
pub struct MvBuilds {
    pub inflight: Vec<u64>,
}

/// What is left to do when a build has completed.
#[derive(Clone, Copy, PartialEq, Eq, Structural)]
pub struct CompletionWork {
    /// The table is dropped.
    pub drop_table: bool,
    /// A build that waited for this one is dispatched.
    pub redispatch: bool,
}

/// Whether a query's source rows are served.
pub open spec fn is_ready(c: CacheView, fingerprint: u64) -> bool {
    c.entries.contains_key(fingerprint) && c.entries[fingerprint].state == CachedQueryState::Ready
}

/// Where a query's materialized result is; `None` when the query is gone.
pub open spec fn mv_state_of(c: CacheView, fingerprint: u64) -> Option<MvState> {
    if c.entries.contains_key(fingerprint) {
        Some(c.entries[fingerprint].mv_state)
    } else {
        None
    }
}

/// The entries after a build has completed.
pub open spec fn build_completed(
    c: CacheView,
    fingerprint: u64,
    end: BuildEnd,
    columns: Option<Seq<Seq<char>>>,
) -> Map<u64, EntryView> {
    let done = completion(mv_state_of(c, fingerprint), is_ready(c, fingerprint), end);
    match done.state {
        Some(MvState::Fresh) => c.entries.insert(
            fingerprint,
            EntryView {
                mv_state: MvState::Fresh,
                output_columns: columns,
                ..c.entries[fingerprint]
            },
        ),
        Some(state) => mv_moved(c.entries, fingerprint, state),
        None => c.entries,
    }
}

/// The column names that a build reports.
pub open spec fn outcome_columns(outcome: MvBuildOutcome) -> Option<Seq<Seq<char>>> {
    match outcome {
        MvBuildOutcome::Built { output_columns, .. } => Some(output_columns.deep_view()),
        _ => None,
    }
}

/// Whether a query's table holds rows that nothing serves.
pub open spec fn is_dead_weight(e: EntryView) -> bool {
    e.mv_state == (MvState::Pending { has_table: true })
}

impl Cache {
    fn mv_state_transition(&mut self, fingerprint: u64, state: MvState)
        ensures
            final(self)@ == (CacheView {
                entries: if old(self)@.entries.contains_key(fingerprint) {
                    mv_moved(old(self)@.entries, fingerprint, state)
                } else {
                    old(self)@.entries
                },
                ..old(self)@
            }),
    {
        match self.entries.remove(&fingerprint) {
            Some(mut entry) => {
                entry.mv_state = state;
                let ghost e = entry@;
                self.entries.insert(fingerprint, entry);
                proof {
                    assert(self@.entries =~= old(self)@.entries.insert(fingerprint, e));
                    assert(self@.entries =~= mv_moved(old(self)@.entries, fingerprint, state));
                    assert(self@ =~= (CacheView {
                        entries: mv_moved(old(self)@.entries, fingerprint, state),
                        ..old(self)@
                    }));
                }
            },
            None => {
                proof {
                    assert(self@.entries =~= old(self)@.entries);
                    assert(self@ =~= old(self)@);
                }
            },
        }
    }

    /// Classify a newly registered query's shape.
    pub fn mv_state_set(&mut self, fingerprint: u64, gate: ShapeGate, mv_limit: Option<u64>)
        ensures
            final(self)@ == (CacheView {
                entries: mv_classified(old(self)@.entries, fingerprint, gate, mv_limit),
                ..old(self)@
            }),
    {
        match self.entries.remove(&fingerprint) {
            Some(mut entry) => {
                entry.shape_gate = gate;
                entry.mv_limit = mv_limit;
                entry.mv_state = MvState::initial(gate);
                entry.output_columns = None;
                let ghost e = entry@;
                self.entries.insert(fingerprint, entry);
                proof {
                    assert(self@.entries =~= old(self)@.entries.insert(fingerprint, e));
                }
            },
            None => {
                proof {
                    assert(self@.entries =~= old(self)@.entries);
                }
            },
        }
        proof {
            assert(self@ =~= (CacheView {
                entries: mv_classified(old(self)@.entries, fingerprint, gate, mv_limit),
                ..old(self)@
            }));
        }
    }

    fn state_view_write(
        &mut self,
        fingerprint: u64,
        state: CachedQueryState,
        generation: u64,
        sql: String,
        max_limit: Option<u64>,
    )
        ensures
            final(self)@ == (CacheView {
                entries: entry_written(
                    old(self)@.entries,
                    fingerprint,
                    state,
                    generation,
                    sql@,
                    max_limit,
                ),
                ..old(self)@
            }),
    {
        let mut entry = match self.entries.remove(&fingerprint) {
            Some(entry) => entry,
            None => QueryEntry {
                state,
                generation,
                max_limit,
                referenced: false,
                mv_state: MvState::Skipped,
                shape_gate: ShapeGate::Skip,
                mv_limit: None,
                output_columns: None,
                sql: None,
            },
        };
        entry.state = state;
        entry.generation = generation;
        entry.max_limit = max_limit;
        entry.referenced = false;
        entry.sql = Some(sql);
        let ghost e = entry@;
        self.entries.insert(fingerprint, entry);
        proof {
            assert(self@.entries =~= old(self)@.entries.insert(fingerprint, e));
            assert(self@ =~= (CacheView {
                entries: entry_written(
                    old(self)@.entries,
                    fingerprint,
                    state,
                    generation,
                    sql@,
                    max_limit,
                ),
                ..old(self)@
            }));
        }
    }

    /// A query is being populated. Its population, or another transition, has
    /// to follow.
    pub fn state_loading_transition(
        &mut self,
        fingerprint: u64,
        generation: u64,
        sql: String,
        max_limit: Option<u64>,
    )
        ensures
            final(self)@ == (CacheView {
                entries: entry_written(
                    old(self)@.entries,
                    fingerprint,
                    CachedQueryState::Loading,
                    generation,
                    sql@,
                    max_limit,
                ),
                ..old(self)@
            }),
    {
        self.state_view_write(fingerprint, CachedQueryState::Loading, generation, sql, max_limit);
    }

    /// A query can be served, and the clients that wait for it are told.
    pub fn state_ready_transition(
        &mut self,
        fingerprint: u64,
        generation: u64,
        sql: String,
        max_limit: Option<u64>,
    )
        ensures
            final(self)@ == (CacheView {
                entries: entry_written(
                    old(self)@.entries,
                    fingerprint,
                    CachedQueryState::Ready,
                    generation,
                    sql@,
                    max_limit,
                ),
                effects: old(self)@.effects.push(
                    EffectView::Ready { fingerprint, generation, sql: sql@, max_limit },
                ),
                ..old(self)@
            }),
    {
        let notice = sql.clone();
        self.state_view_write(fingerprint, CachedQueryState::Ready, generation, sql, max_limit);
        self.effect_push(Effect::Ready { fingerprint, generation, sql: notice, max_limit });
    }

    /// Schedule the build of a pinned query's result without waiting for a hit;
    /// whether it is to be dispatched.
    pub fn mv_pinned_bootstrap(&mut self, fingerprint: u64) -> (scheduled: bool)
        ensures
            scheduled == bootstrap_due(old(self)@, fingerprint),
            final(self)@ == (if scheduled {
                CacheView {
                    entries: mv_moved(
                        old(self)@.entries,
                        fingerprint,
                        MvState::Scheduled {
                            has_table: old(
                                self,
                            )@.entries[fingerprint].mv_state->Pending_has_table,
                        },
                    ),
                    ..old(self)@
                }
            } else {
                old(self)@
            }),
    {
        let pinned = match self.cached_position(fingerprint) {
            Some(at) => self.cached[at].pinned,
            None => false,
        };
        if !pinned {
            return false;
        }
        let state = match self.entries.get(&fingerprint) {
            Some(entry) => entry.mv_state,
            None => {
                return false;
            },
        };
        match state {
            MvState::Pending { has_table } => {
                self.mv_state_transition(fingerprint, MvState::Scheduled { has_table });
                true
            },
            _ => false,
        }
    }

    /// Dispatch a scheduled build. One whose query has a build running waits
    /// for it.
    pub fn mv_build_dispatch(&mut self, builds: &mut MvBuilds, fingerprint: u64) -> (snapshot:
        Option<MvSnapshot>)
        ensures
            match snapshot {
                Some(s) => {
                    let e = old(self)@.entries[fingerprint];
                    &&& build_dispatchable(old(self)@, fingerprint)
                    &&& !old(builds).inflight@.contains(fingerprint)
                    &&& final(builds).inflight@ == old(builds).inflight@.push(fingerprint)
                    &&& s.has_table == e.mv_state->Scheduled_has_table
                    &&& s.shape_gate == e.shape_gate
                    &&& s.max_limit == e.mv_limit
                    &&& s.generation == e.generation
                    &&& s.output_columns.deep_view() == e.output_columns
                    &&& final(self)@ == (CacheView {
                        entries: mv_moved(
                            old(self)@.entries,
                            fingerprint,
                            MvState::Building { has_table: s.has_table },
                        ),
                        ..old(self)@
                    })
                },
                None => {
                    &&& !build_dispatchable(old(self)@, fingerprint) || old(
                        builds,
                    ).inflight@.contains(fingerprint)
                    &&& final(self)@ == old(self)@
                    &&& *final(builds) == *old(builds)
                },
            },
    {
        if fingerprint_contains(&builds.inflight, fingerprint) {
            return None;
        }
        let snapshot = match self.entries.get(&fingerprint) {
            Some(entry) => {
                let has_table = match entry.mv_state {
                    MvState::Scheduled { has_table } => has_table,
                    _ => {
                        return None;
                    },
                };
                if entry.state != CachedQueryState::Ready || entry.sql.is_none() {
                    return None;
                }
                let output_columns = match &entry.output_columns {
                    Some(names) => Some(texts_clone(names)),
                    None => None,
                };
                MvSnapshot {
                    has_table,
                    shape_gate: entry.shape_gate,
                    max_limit: entry.mv_limit,
                    generation: entry.generation,
                    output_columns,
                }
            },
            None => {
                return None;
            },
        };
        self.mv_state_transition(fingerprint, MvState::Building { has_table: snapshot.has_table });
        builds.inflight.push(fingerprint);
        Some(snapshot)
    }

    /// A build has completed: judge it by what happened to its query meanwhile.
    pub fn mv_build_complete(
        &mut self,
        builds: &mut MvBuilds,
        fingerprint: u64,
        outcome: MvBuildOutcome,
    ) -> (work: CompletionWork)
        ensures
            final(self)@ == (CacheView {
                entries: build_completed(
                    old(self)@,
                    fingerprint,
                    outcome_end(outcome),
                    outcome_columns(outcome),
                ),
                ..old(self)@
            }),
            final(builds).inflight@ == without(old(builds).inflight@, fingerprint),
            work.drop_table == completion(
                mv_state_of(old(self)@, fingerprint),
                is_ready(old(self)@, fingerprint),
                outcome_end(outcome),
            ).drop_table,
            work.redispatch == build_dispatchable(final(self)@, fingerprint),
    {
        number_remove(&mut builds.inflight, fingerprint);
        let (state, ready) = match self.entries.get(&fingerprint) {
            Some(entry) => (Some(entry.mv_state), entry.state == CachedQueryState::Ready),
            None => (None, false),
        };
        let (end, columns) = match outcome {
            MvBuildOutcome::Built { output_columns, was_first_build } => (
                BuildEnd::Built { was_first_build },
                Some(output_columns),
            ),
            MvBuildOutcome::Ineligible => (BuildEnd::Ineligible, None),
            MvBuildOutcome::Failed { has_table } => (BuildEnd::Failed { has_table }, None),
        };
        let done = mv_build_completion(state, ready, end);
        match done.state {
            Some(MvState::Fresh) => {
                self.mv_fresh_set(fingerprint, columns);
            },
            Some(next) => {
                self.mv_state_transition(fingerprint, next);
            },
            None => {},
        }
        CompletionWork {
            drop_table: done.drop_table,
            redispatch: self.mv_build_dispatchable(fingerprint),
        }
    }

    fn mv_fresh_set(&mut self, fingerprint: u64, columns: Option<Vec<String>>)
        requires
            old(self)@.entries.contains_key(fingerprint),
        ensures
            final(self)@ == (CacheView {
                entries: old(self)@.entries.insert(
                    fingerprint,
                    EntryView {
                        mv_state: MvState::Fresh,
                        output_columns: columns.deep_view(),
                        ..old(self)@.entries[fingerprint]
                    },
                ),
                ..old(self)@
            }),
    {
        if let Some(mut entry) = self.entries.remove(&fingerprint) {
            entry.mv_state = MvState::Fresh;
            entry.output_columns = columns;
            let ghost e = entry@;
            self.entries.insert(fingerprint, entry);
            proof {
                assert(self@.entries =~= old(self)@.entries.insert(fingerprint, e));
                assert(self@ =~= (CacheView {
                    entries: old(self)@.entries.insert(fingerprint, e),
                    ..old(self)@
                }));
            }
        }
    }

    fn mv_build_dispatchable(&self, fingerprint: u64) -> (dispatchable: bool)
        ensures
            dispatchable == build_dispatchable(self@, fingerprint),
    {
        match self.entries.get(&fingerprint) {
            Some(entry) => {
                let scheduled = match entry.mv_state {
                    MvState::Scheduled { .. } => true,
                    _ => false,
                };
                scheduled && entry.state == CachedQueryState::Ready && entry.sql.is_some()
            },
            None => false,
        }
    }

    /// The queries whose tables hold rows that nothing serves, in no
    /// particular order. A running or scheduled build's table is left alone.
    pub fn mv_dirty_sweep(&self) -> (fingerprints: Vec<u64>)
        ensures
            fingerprints@.no_duplicates(),
            forall|fp: u64|
                #[trigger] fingerprints@.contains(fp) <==> self@.entries.contains_key(fp)
                    && is_dead_weight(self@.entries[fp]),
    {
        let keys = fingerprints_of(&self.entries);
        let mut list: Vec<u64> = Vec::new();
        let mut i: usize = 0;
        while i < keys.len()
            invariant
                i <= keys.len(),
                lists_keys(keys@, self.entries@),
                list@.no_duplicates(),
                forall|fp: u64|
                    #[trigger] list@.contains(fp) <==> keys@.take(i as int).contains(fp)
                        && is_dead_weight(self@.entries[fp]),
            decreases keys.len() - i,
        {
            let fp = keys[i];
            proof {
                assert(keys@.contains(fp));
                assert(self.entries@.contains_key(fp));
                let now = keys@.take(i as int);
                let next = keys@.take(i as int + 1);
                assert(next =~= now.push(fp));
                assert(next[i as int] == fp);
                assert forall|x: u64| #[trigger] next.contains(x) <==> now.contains(x) || x
                    == fp by {
                    if now.contains(x) {
                        let k = choose|k: int| 0 <= k < now.len() && now[k] == x;
                        assert(next[k] == x);
                    }
                    if next.contains(x) {
                        let k = choose|k: int| 0 <= k < next.len() && next[k] == x;
                        if k < i {
                            assert(now[k] == x);
                        }
                    }
                }
                assert(!now.contains(fp));
            }
            let dead = match self.entries.get(&fp) {
                Some(entry) => match entry.mv_state {
                    MvState::Pending { has_table } => has_table,
                    _ => false,
                },
                None => false,
            };
            if dead {
                let ghost before = list@;
                list.push(fp);
                proof {
                    assert(list@[before.len() as int] == fp);
                    assert forall|x: u64| #[trigger] list@.contains(x) <==> before.contains(x) || x
                        == fp by {
                        if before.contains(x) {
                            let k = choose|k: int| 0 <= k < before.len() && before[k] == x;
                            assert(list@[k] == x);
                        }
                        if list@.contains(x) {
                            let k = choose|k: int| 0 <= k < list@.len() && list@[k] == x;
                            if k < before.len() {
                                assert(before[k] == x);
                            }
                        }
                    }
                    assert(!before.contains(fp));
                }
            }
            i = i + 1;
        }
        proof {
            assert(keys@.take(i as int) =~= keys@);
        }
        list
    }

    /// Every materialized result over a relation is stale.
    pub fn mv_dirty_mark_relation(&mut self, oid: u32)
        ensures
            final(self)@ == (CacheView {
                entries: if old(self)@.update_queries.contains_key(oid) {
                    entries_dirtied(
                        old(self)@.entries,
                        query_fingerprints(old(self)@.update_queries[oid]),
                    )
                } else {
                    old(self)@.entries
                },
                ..old(self)@
            }),
    {
        let fps = match self.update_queries.get(&oid) {
            Some(queries) => fingerprints_collect(&queries.queries),
            None => {
                return ;
            },
        };
        self.mv_dirty_mark_all(&fps);
    }
}

/// At most one build runs for a query: another is dispatched only when none
/// runs, and while it runs it is on the list.
pub proof fn one_build_per_query(inflight: Seq<u64>, fingerprint: u64)
    requires
        inflight.no_duplicates(),
        !inflight.contains(fingerprint),
    ensures
        inflight.push(fingerprint).no_duplicates(),
        without(inflight.push(fingerprint), fingerprint) == inflight,
{
    let after = inflight.push(fingerprint);
    assert forall|i: int, j: int|
        0 <= i < after.len() && 0 <= j < after.len() && i != j implies after[i] != after[j] by {
        if i < inflight.len() {
            assert(inflight.contains(inflight[i]));
        }
        if j < inflight.len() {
            assert(inflight.contains(inflight[j]));
        }
    }
    assert(after.drop_last() =~= inflight);
    lemma_without_absent(inflight, fingerprint);
}

proof fn lemma_without_absent(list: Seq<u64>, item: u64)
    requires
        !list.contains(item),
    ensures
        without(list, item) == list,
    decreases list.len(),
{
    if list.len() > 0 {
        let short = list.drop_last();
        assert forall|i: int| 0 <= i < short.len() implies short[i] != item by {
            assert(list.contains(list[i]));
        }
        assert(!short.contains(item));
        lemma_without_absent(short, item);
        assert(list.contains(list.last())) by {
            assert(list[list.len() - 1] == list.last());
        }
        assert(short.push(list.last()) =~= list);
    }
}

} // verus!
