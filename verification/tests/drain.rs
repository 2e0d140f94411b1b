use pgcache_writer::cache::CachePolicy;
use pgcache_writer::cache::CachedQuery;
use pgcache_writer::cache::CachedQueryState;
use pgcache_writer::cache::Effect;
use pgcache_writer::drain::DrainStart;
use pgcache_writer::fault::Faults;
use pgcache_writer::frame::FrameState;
use pgcache_writer::merge_queue::InputQueues;
use pgcache_writer::merge_queue::PopulationMerge;
use pgcache_writer::writer::Writer;

fn writer() -> Writer {
    let mut w = Writer::new("p".to_owned(), CachePolicy::Clock, Faults::none());
    w.core.cache.cached.push(CachedQuery {
        fingerprint: 1,
        generation: 4,
        relation_oids: vec![10],
        pinned: false,
        invalidated: false,
        sql: "SELECT 1".to_owned(),
    });
    w.core
        .cache
        .state_loading_transition(1, 4, "SELECT 1".to_owned(), Some(50));
    w
}

fn population(generation: u64, snapshot_lsn: u64) -> PopulationMerge {
    PopulationMerge {
        fingerprint: 1,
        generation,
        staged: vec![(10, format!("stage_1_{generation}_10"))],
        cached_bytes: 0,
        row_count: 0,
        snapshot_lsn,
    }
}

#[test]
fn a_population_waits_for_the_watermark_and_then_serves() {
    let mut w = writer();
    w.core.deleted_keys.activate(1, 4, &vec![10]);
    w.merges.merge_enqueue(population(4, 100));
    assert!(w.merges_drain_due());
    assert!(w.drain_begin() == DrainStart::Idle);
    w.cdc.last_applied_lsn = 100;
    w.core.frame.state = FrameState::Active;
    assert!(!w.merges_drain_due());
    assert!(w.drain_begin() == DrainStart::Idle, "a batch is open");
    w.core.frame.state = FrameState::Idle;
    assert!(w.drain_begin() == DrainStart::Merging);
    assert!(w.drain_begin() == DrainStart::Busy);
    assert!(w.chunk_due(InputQueues {
        cdc_empty: true,
        query_empty: true,
        internal_empty: true
    }));
    assert!(!w.drain_is_superseded());
    let staged = w.drain_finish();
    assert_eq!(staged, vec![(10, "stage_1_4_10".to_owned())]);
    assert_eq!(w.core.cache.entries[&1].state, CachedQueryState::Ready);
    assert_eq!(w.core.cache.entries[&1].max_limit, Some(50));
    assert!(w.core.cache.effects.contains(&Effect::Ready {
        fingerprint: 1,
        generation: 4,
        sql: "SELECT 1".to_owned(),
        max_limit: Some(50)
    }));
    assert!(!w.core.deleted_keys.is_recording(10));
}

#[test]
fn a_superseded_population_is_discarded() {
    let mut w = writer();
    w.cdc.last_applied_lsn = 100;
    w.merges.merge_enqueue(population(3, 100));
    assert!(w.drain_begin() == DrainStart::Superseded);
    assert!(w.drain_begin() == DrainStart::Discarding);
    assert!(w.merges.discards.is_empty());
    w.drain_finish();
    assert_eq!(w.core.cache.entries[&1].state, CachedQueryState::Loading, "not served");
    assert!(w.drain_begin() == DrainStart::Idle);
}

#[test]
fn a_population_invalidated_while_merging_is_given_up() {
    let mut w = writer();
    w.cdc.last_applied_lsn = 100;
    w.merges.merge_enqueue(population(4, 100));
    assert!(w.drain_begin() == DrainStart::Merging);
    w.core.cache.cached[0].invalidated = true;
    assert!(w.drain_is_superseded());
    w.drain_give_up();
    assert!(!w.drain_is_superseded(), "only emptied from here on");
    assert!(w.core.cache.effects.contains(&Effect::WaitersFail { fingerprint: 1 }));
    w.drain_finish();
    assert_eq!(w.core.cache.entries[&1].state, CachedQueryState::Loading);
}
