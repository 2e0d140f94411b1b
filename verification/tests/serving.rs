use pgcache_writer::cache::Cache;
use pgcache_writer::cache::CachePolicy;
use pgcache_writer::cache::CachedQuery;
use pgcache_writer::cache::CachedQueryState;
use pgcache_writer::cache::Effect;
use pgcache_writer::cache::PurgeBound;
use pgcache_writer::cache::PurgePlan;
use pgcache_writer::catalog::TableMetadata;
use pgcache_writer::eviction::eviction_count_cap;
use pgcache_writer::eviction::EvictionRun;
use pgcache_writer::eviction::EvictionStage;
use pgcache_writer::fault::Faults;
use pgcache_writer::frame::FrameState;
use pgcache_writer::mv::MvBuildOutcome;
use pgcache_writer::mv::MvState;
use pgcache_writer::mv::ShapeGate;
use pgcache_writer::reclaim::DiskReclaim;
use pgcache_writer::reclaim::ReclaimStep;
use pgcache_writer::serving::MvBuilds;
use pgcache_writer::writer_core::WriterCore;

fn cached(fingerprint: u64, generation: u64, pinned: bool) -> CachedQuery {
    CachedQuery {
        fingerprint,
        generation,
        relation_oids: vec![10],
        pinned,
        invalidated: false,
        sql: format!("SELECT {fingerprint}"),
    }
}

fn core_with(queries: Vec<CachedQuery>) -> WriterCore {
    let mut core = WriterCore::new("pub".to_owned(), CachePolicy::Clock);
    for q in queries {
        core.cache.generations.push(q.generation);
        core.cache.generation_counter = q.generation;
        core.cache.active.active_relations_acquire(&q.relation_oids);
        core.cache
            .state_ready_transition(q.fingerprint, q.generation, q.sql.clone(), None);
        core.cache.cached.push(q);
    }
    core.cache.effects.clear();
    core
}

/// Run to the end; the statements that moved queries to a new generation.
fn evict(core: &mut WriterCore, cap: usize, max: Option<usize>) -> Vec<Vec<String>> {
    let mut bumps = Vec::new();
    let mut run = EvictionRun::new(core, cap, max);
    loop {
        match run.stage {
            EvictionStage::Done => return bumps,
            EvictionStage::Decide => run.eviction_run(core),
            EvictionStage::Bumping { .. } => {
                bumps.push(run.bump_sql(core));
                run.bumped(core);
            }
            EvictionStage::Publishing => run.published(),
        }
    }
}

fn fingerprints(core: &WriterCore) -> Vec<u64> {
    core.cache.cached.iter().map(|q| q.fingerprint).collect()
}

#[test]
fn the_oldest_queries_are_evicted_down_to_the_cap() {
    let mut core = core_with(vec![cached(1, 1, false), cached(2, 2, false), cached(3, 3, false)]);
    let bumps = evict(&mut core, 1, None);
    assert!(bumps.is_empty());
    assert_eq!(fingerprints(&core), vec![3]);
    assert_eq!(core.cache.generations, vec![3]);
    assert!(core.cache.effects.contains(&Effect::WaitersFail { fingerprint: 1 }));
}

#[test]
fn a_run_makes_no_more_evictions_than_it_may() {
    let mut core = core_with(vec![cached(1, 1, false), cached(2, 2, false), cached(3, 3, false)]);
    evict(&mut core, 0, Some(1));
    assert_eq!(fingerprints(&core), vec![2, 3]);
}

#[test]
fn a_run_that_may_evict_nothing_changes_nothing() {
    let mut core = core_with(vec![cached(1, 1, true), cached(2, 2, false)]);
    let bumps = evict(&mut core, 0, Some(0));
    assert!(bumps.is_empty());
    assert_eq!(fingerprints(&core), vec![1, 2]);
    assert_eq!(core.cache.generations, vec![1, 2]);
    assert!(core.cache.effects.is_empty());
}

#[test]
fn a_run_that_may_evict_two_evicts_two() {
    let mut core = core_with(vec![
        cached(1, 1, false),
        cached(2, 2, true),
        cached(3, 3, false),
        cached(4, 4, false),
    ]);
    evict(&mut core, 1, Some(2));
    assert_eq!(fingerprints(&core), vec![2, 4]);
}

#[test]
fn a_served_query_gets_a_second_chance() {
    let mut core = core_with(vec![cached(1, 1, false), cached(2, 2, false)]);
    core.cache.entries.get_mut(&1).expect("entry").referenced = true;
    let bumps = evict(&mut core, 1, None);
    assert_eq!(
        bumps,
        vec![vec![
            "SET mem.query_generation = 3".to_owned(),
            "SELECT 1".to_owned(),
            "SET mem.query_generation = 0".to_owned(),
        ]]
    );
    assert_eq!(fingerprints(&core), vec![1]);
    assert_eq!(core.cache.cached[0].generation, 3);
    assert_eq!(core.cache.generations, vec![3]);
    assert!(!core.cache.entries[&1].referenced);
}

#[test]
fn pinned_queries_stay() {
    let mut core = core_with(vec![cached(1, 1, true), cached(2, 2, true), cached(3, 3, false)]);
    let bumps = evict(&mut core, 0, None);
    assert_eq!(fingerprints(&core), vec![1, 2]);
    assert_eq!(bumps.len(), 4, "two before the eviction, two after");
}

#[test]
fn eviction_waits_for_the_cache_transaction() {
    let mut core = core_with(vec![cached(1, 1, false)]);
    core.frame.state = FrameState::TxnOpen;
    evict(&mut core, 0, None);
    assert_eq!(fingerprints(&core), vec![1]);
}

#[test]
fn a_fault_can_lower_the_cap() {
    let armed = Faults {
        eviction_count_cap: Some(3),
        ..Faults::none()
    };
    assert_eq!(eviction_count_cap(&armed, 10), 3);
    assert_eq!(eviction_count_cap(&armed, 2), 2);
    assert_eq!(eviction_count_cap(&Faults::none(), 10), 10);
}

#[test]
fn disk_pressure_escalates() {
    let mut core = core_with(vec![cached(1, 4, false)]);
    let mut reclaim = DiskReclaim::new();
    assert!(reclaim.disk_pressure_handle(&mut core) == (false, ReclaimStep::Relaxed));
    core.cache.disk_total = 100;
    core.cache.disk_available = 10;
    core.cache.disk_limit = 80;
    assert!(reclaim.disk_pressure_handle(&mut core) == (true, ReclaimStep::Purge));
    assert_eq!(
        core.cache.effects,
        vec![Effect::Purge {
            above: None,
            up_to: PurgeBound::Generation { generation: 3 }
        }]
    );
    assert!(reclaim.disk_pressure_handle(&mut core) == (true, ReclaimStep::Sweep));
    assert!(reclaim.disk_pressure_handle(&mut core) == (true, ReclaimStep::Drop));
    assert!(reclaim.disk_pressure_handle(&mut core) == (true, ReclaimStep::Wait));
    assert!(reclaim.disk_pressure_handle(&mut core) == (true, ReclaimStep::Drop));
    core.frame.state = FrameState::TxnOpen;
    reclaim.drop_backoff = false;
    assert!(reclaim.disk_pressure_handle(&mut core) == (true, ReclaimStep::Wait));
    core.cache.disk_available = 60;
    assert!(reclaim.disk_pressure_handle(&mut core) == (false, ReclaimStep::Relaxed));
    assert_eq!(reclaim.ticks, 0);
    core.frame.state = FrameState::Idle;
    core.cache.disk_forced = true;
    assert!(reclaim.disk_pressure_handle(&mut core) == (true, ReclaimStep::Purge));
}

/// Carry out the purges that wait, each of which finds rows to stamp or not;
/// what the cache database is asked.
fn purges_run(core: &mut WriterCore, promotes: bool) -> Vec<PurgePlan> {
    let mut plans = Vec::new();
    for effect in std::mem::take(&mut core.cache.effects) {
        if let Effect::Purge { above, up_to } = effect {
            if let Some(plan) = core.cache.purge_plan(above, up_to) {
                core.cache
                    .generation_zero_promote(if promotes { 7 } else { 0 }, plan.promote_to);
                plans.push(plan);
            }
        }
    }
    plans
}

#[test]
fn a_promotion_moves_the_purges_that_wait() {
    for evict in [true, false] {
        for promotes in [true, false] {
            let mut core = core_with(vec![cached(1, 1, false), cached(2, 2, false)]);
            core.cache.disk_forced = true;
            for fingerprint in [1, 2] {
                if evict {
                    core.cache.cache_query_evict(fingerprint, false);
                } else {
                    assert!(core.cache.cache_query_cdc_invalidate(fingerprint, false));
                }
            }
            let moved = u64::from(promotes);
            assert_eq!(
                purges_run(&mut core, promotes),
                vec![
                    PurgePlan {
                        promote_to: 3,
                        threshold: Some(1)
                    },
                    PurgePlan {
                        promote_to: 3 + moved,
                        threshold: Some(2 + moved)
                    },
                ]
            );
            assert_eq!(core.cache.generation_counter, 2 + 2 * moved);
        }
    }
}

#[test]
fn a_purge_waits_for_pressure_and_locks() {
    let mut core = core_with(vec![cached(1, 1, false), cached(2, 2, false)]);
    core.cache.cache_query_evict(1, false);
    assert!(purges_run(&mut core, true).is_empty(), "no pressure");
    core.cache.disk_forced = true;
    core.cache.cache_query_evict(2, true);
    assert!(core.cache.purge_pending);
    assert!(purges_run(&mut core, true).is_empty(), "the locks are held");
    let mut younger = core_with(vec![cached(1, 1, false), cached(2, 2, false)]);
    younger.cache.disk_forced = true;
    younger.cache.cache_query_evict(2, false);
    assert!(purges_run(&mut younger, true).is_empty(), "the oldest is still there");
    younger.cache.generation_purge(PurgeBound::Generation { generation: 0 }, false);
    assert_eq!(
        purges_run(&mut younger, false),
        vec![PurgePlan {
            promote_to: 3,
            threshold: None
        }]
    );
}

#[test]
fn stale_entries_are_forgotten() {
    let mut core = core_with(vec![cached(1, 1, false), cached(2, 5, false)]);
    core.cache.generations = vec![5];
    core.cache.cached[0].invalidated = true;
    core.cache.entries.get_mut(&1).expect("entry").state = CachedQueryState::Invalidated;
    core.cache
        .state_loading_transition(3, 5, "SELECT 3".to_owned(), None);
    core.cache.entries.get_mut(&3).expect("entry").state = CachedQueryState::Pending { credit: 7 };
    core.cache.stale_entries_cleanup(5);
    assert_eq!(fingerprints(&core), vec![2]);
    assert!(!core.cache.entries.contains_key(&1));
    assert_eq!(
        core.cache.entries[&3].state,
        CachedQueryState::Pending { credit: 2 }
    );
    core.cache.stale_entries_cleanup(2);
    assert!(!core.cache.entries.contains_key(&3), "the credit ran out");
    assert!(core.cache.entries.contains_key(&2));
}

#[test]
fn ready_queries_tell_their_waiters() {
    let mut cache = Cache::new(CachePolicy::Fifo);
    cache.state_loading_transition(1, 4, "SELECT 1".to_owned(), Some(9));
    assert_eq!(cache.entries[&1].state, CachedQueryState::Loading);
    assert_eq!(cache.entries[&1].mv_state, MvState::Skipped);
    cache.mv_state_set(1, ShapeGate::Measure, Some(100));
    cache.state_ready_transition(1, 4, "SELECT 1".to_owned(), Some(9));
    assert_eq!(
        cache.effects,
        vec![Effect::Ready {
            fingerprint: 1,
            generation: 4,
            sql: "SELECT 1".to_owned(),
            max_limit: Some(9)
        }]
    );
    assert_eq!(cache.entries[&1].mv_state, MvState::Pending { has_table: false });
    assert_eq!(cache.entries[&1].mv_limit, Some(100));
}

fn scheduled() -> Cache {
    let mut cache = Cache::new(CachePolicy::Fifo);
    cache.state_ready_transition(1, 4, "SELECT 1".to_owned(), None);
    cache.mv_state_set(1, ShapeGate::Materialize, None);
    cache.cached.push(cached(1, 4, true));
    assert!(cache.mv_pinned_bootstrap(1));
    assert_eq!(cache.entries[&1].mv_state, MvState::Scheduled { has_table: false });
    assert!(!cache.mv_pinned_bootstrap(1));
    cache
}

#[test]
fn a_build_becomes_fresh() {
    let mut cache = scheduled();
    let mut builds = MvBuilds { inflight: Vec::new() };
    let snapshot = cache.mv_build_dispatch(&mut builds, 1).expect("dispatched");
    assert!(!snapshot.has_table);
    assert_eq!(snapshot.generation, 4);
    assert!(cache.mv_build_dispatch(&mut builds, 1).is_none(), "one at a time");
    let outcome = MvBuildOutcome::Built {
        output_columns: vec!["a".to_owned()],
        was_first_build: true,
    };
    let work = cache.mv_build_complete(&mut builds, 1, outcome);
    assert!(!work.drop_table && !work.redispatch);
    assert_eq!(cache.entries[&1].mv_state, MvState::Fresh);
    assert!(builds.inflight.is_empty());
}

#[test]
fn a_build_that_a_change_overtook_is_discarded() {
    let mut cache = scheduled();
    let mut builds = MvBuilds { inflight: Vec::new() };
    cache.mv_build_dispatch(&mut builds, 1).expect("dispatched");
    cache.mv_dirty_mark(1);
    let outcome = MvBuildOutcome::Built {
        output_columns: vec!["a".to_owned()],
        was_first_build: true,
    };
    let work = cache.mv_build_complete(&mut builds, 1, outcome);
    assert!(!work.drop_table);
    assert_eq!(cache.entries[&1].mv_state, MvState::Pending { has_table: true });
    assert_eq!(cache.mv_dirty_sweep(), vec![1]);
}

#[test]
fn a_build_of_an_evicted_query_drops_its_table() {
    let mut cache = scheduled();
    let mut builds = MvBuilds { inflight: Vec::new() };
    cache.mv_build_dispatch(&mut builds, 1).expect("dispatched");
    cache.cache_query_evict(1, false);
    let outcome = MvBuildOutcome::Built {
        output_columns: vec!["a".to_owned()],
        was_first_build: true,
    };
    assert!(cache.mv_build_complete(&mut builds, 1, outcome).drop_table);
}

#[test]
fn a_build_that_waited_is_dispatched_again() {
    let mut cache = scheduled();
    let mut builds = MvBuilds { inflight: Vec::new() };
    cache.mv_build_dispatch(&mut builds, 1).expect("dispatched");
    cache.mv_state_set(1, ShapeGate::Materialize, None);
    assert!(cache.mv_pinned_bootstrap(1));
    let work = cache.mv_build_complete(&mut builds, 1, MvBuildOutcome::Failed { has_table: false });
    assert!(work.redispatch && !work.drop_table);
}

#[test]
fn a_population_is_finished_only_while_current() {
    let mut core = core_with(vec![cached(1, 4, false)]);
    assert!(core.population_is_current(1, 4));
    assert!(!core.population_is_current(1, 3));
    core.cache.cached[0].invalidated = true;
    assert!(!core.population_is_current(1, 4));
    assert!(!core.population_is_current(2, 4));
}

#[test]
fn the_smallest_relation_is_given_up() {
    let mut core = core_with(vec![cached(1, 1, false)]);
    core.cache.tables.insert(
        10,
        TableMetadata {
            relation_oid: 10,
            name: "t".to_owned(),
            schema: "public".to_owned(),
            primary_key_columns: vec![],
            columns: vec![],
        },
    );
    core.disk_reclaim_drop_smallest();
    assert_eq!(fingerprints(&core), vec![1], "no relation lists the query");
}
