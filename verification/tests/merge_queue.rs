use pgcache_writer::cache::CachePolicy;
use pgcache_writer::catalog::ColumnMetadata;
use pgcache_writer::catalog::TableMetadata;
use pgcache_writer::deleted_keys::PopulationDeletedKeys;
use pgcache_writer::error::CacheError;
use pgcache_writer::fault::Faults;
use pgcache_writer::frame::FrameState;
use pgcache_writer::merge_queue::chunk_result_parse;
use pgcache_writer::merge_queue::discard_result_parse;
use pgcache_writer::merge_queue::ChunkBoundary;
use pgcache_writer::merge_queue::DrainCursor;
use pgcache_writer::merge_queue::DrainTarget;
use pgcache_writer::merge_queue::InputQueues;
use pgcache_writer::merge_queue::MergeInProgress;
use pgcache_writer::merge_queue::MergeNext;
use pgcache_writer::merge_queue::MergeQueue;
use pgcache_writer::merge_queue::PendingMerge;
use pgcache_writer::merge_queue::PopulationMerge;
use pgcache_writer::merge_queue::ReplyMessage;
use pgcache_writer::merge_queue::StagingDiscard;
use pgcache_writer::merge_queue::MERGE_CHUNK_BLOCKS_INITIAL;
use pgcache_writer::merge_queue::MERGE_CHUNK_BLOCKS_MAX;
use pgcache_writer::merge_queue::MERGE_CHUNK_BLOCKS_MIN;
use pgcache_writer::merge_queue::MERGE_CHUNK_TARGET_NANOS;
use pgcache_writer::merge_sql::discard_sql;
use pgcache_writer::merge_sql::MergePlan;
use pgcache_writer::writer_core::WriterCore;

const REL: u32 = 10;

fn boundary_default() -> ChunkBoundary {
    ChunkBoundary {
        batch_flush_seq: 0,
        commands_handled: 0,
        commands_owed: 0,
    }
}

fn drain() -> MergeInProgress {
    MergeInProgress::new(
        1,
        1,
        vec![(REL, "stage_10_0".to_owned())],
        DrainTarget::Discard,
        boundary_default(),
        &Faults::none(),
    )
}

fn keys_recording() -> PopulationDeletedKeys {
    let mut keys = PopulationDeletedKeys::new();
    keys.activate(1, 1, &vec![REL]);
    keys
}

/// The rendered filter is reused while the key set holds and rendered anew as
/// soon as a key lands or is cancelled between windows.
#[test]
fn test_filter_cache_follows_key_set_changes() {
    let pk = "(id)".to_owned();
    let mut keys = keys_recording();
    let mut drain = drain();
    assert!(drain.filter_predicate(&keys, REL, &pk).is_none());

    keys.record(REL, "4".to_owned(), 10);
    let first = drain
        .filter_predicate(&keys, REL, &pk)
        .expect("filter present")
        .as_ptr();
    let again = drain
        .filter_predicate(&keys, REL, &pk)
        .expect("filter present")
        .as_ptr();
    assert_eq!(first, again, "unchanged key set reuses the rendering");

    keys.record(REL, "7".to_owned(), 11);
    let grown = drain
        .filter_predicate(&keys, REL, &pk)
        .expect("filter present");
    assert!(grown.contains("(4)") && grown.contains("(7)"), "{grown}");

    assert!(keys.cancel(REL, &"4".to_owned()));
    let shrunk = drain
        .filter_predicate(&keys, REL, &pk)
        .expect("filter present");
    assert!(
        !shrunk.contains("(4)") && shrunk.contains("(7)"),
        "{shrunk}"
    );

    assert!(keys.cancel(REL, &"7".to_owned()));
    assert!(drain.filter_predicate(&keys, REL, &pk).is_none());
}

fn plan() -> MergePlan {
    MergePlan {
        schema: "public".to_owned(),
        name: "t".to_owned(),
        columns_csv: "\"id\",\"v\"".to_owned(),
        pk_columns_paren: "(\"id\")".to_owned(),
        conflict: "ON CONFLICT (\"id\") DO UPDATE SET \"id\" = EXCLUDED.\"id\"".to_owned(),
    }
}

#[test]
fn test_chunk_sql_drains_a_page_window_and_stamps_generation_locally() {
    let sql = plan().chunk_sql("stage_1_0", 9, 3, 67, None);
    assert!(
        sql.starts_with("SET LOCAL mem.query_generation = 9;"),
        "{sql}"
    );
    assert!(
        sql.contains("WHERE ctid >= '(3,0)'::tid AND ctid < '(67,0)'::tid"),
        "{sql}"
    );
    assert!(
        !sql.contains("LIMIT"),
        "a row limit is plan-dependent: {sql}"
    );
    assert!(sql.contains("DELETE FROM pgcache_stage.stage_1_0"), "{sql}");
    assert!(sql.contains("RETURNING \"id\",\"v\""), "{sql}");
    assert!(
        sql.contains("INSERT INTO \"public\".\"t\" (\"id\",\"v\") SELECT DISTINCT ON (\"id\") \"id\",\"v\" FROM d ON CONFLICT"),
        "{sql}"
    );
    assert!(sql.ends_with("SELECT count(*) FROM d"), "{sql}");
    assert!(
        !sql.contains("BEGIN"),
        "explicit BEGIN would strand an aborted txn: {sql}"
    );
}

#[test]
fn test_drain_cursor_walks_relations_then_finishes() {
    assert_eq!(DrainCursor::first(0), DrainCursor::Done);
    assert_eq!(
        DrainCursor::first(2),
        DrainCursor::RelationStart { index: 0 }
    );
    assert_eq!(
        DrainCursor::after_relation(1, 2),
        DrainCursor::RelationStart { index: 1 }
    );
    assert_eq!(DrainCursor::after_relation(2, 2), DrainCursor::Done);
}

fn merges_with_active_drain() -> MergeQueue {
    let mut merges = MergeQueue::new();
    let boundary = merges.boundary(0);
    merges.active = Some(MergeInProgress::new(
        1,
        1,
        vec![],
        DrainTarget::Discard,
        boundary,
        &Faults::none(),
    ));
    merges
}

const ALL_EMPTY: InputQueues = InputQueues {
    cdc_empty: true,
    query_empty: true,
    internal_empty: true,
};

#[test]
fn test_chunk_due_only_with_an_active_drain() {
    let merges = MergeQueue::new();
    assert!(!merges.chunk_due(ALL_EMPTY));
    assert!(merges_with_active_drain().chunk_due(ALL_EMPTY));
}

#[test]
fn test_chunk_waits_for_a_batch_flush_under_a_cdc_backlog() {
    let mut merges = merges_with_active_drain();
    let cdc_backlog = InputQueues {
        cdc_empty: false,
        ..ALL_EMPTY
    };
    assert!(
        !merges.chunk_due(cdc_backlog),
        "no flush since the boundary"
    );
    merges.batch_flushed();
    assert!(merges.chunk_due(cdc_backlog), "a batch flushed since");
    merges.chunk_boundary_mark(0);
    assert!(
        !merges.chunk_due(cdc_backlog),
        "boundary consumed the flush"
    );
}

#[test]
fn test_chunk_waits_for_the_commands_owed_at_the_boundary() {
    let mut merges = merges_with_active_drain();
    let query_backlog = InputQueues {
        query_empty: false,
        ..ALL_EMPTY
    };
    merges.chunk_boundary_mark(3);
    merges.command_handled();
    merges.command_handled();
    assert!(
        !merges.chunk_due(query_backlog),
        "one of three owed still queued"
    );
    merges.command_handled();
    assert!(merges.chunk_due(query_backlog), "owed set drained");
    merges.command_handled();
    assert!(
        merges.chunk_due(query_backlog),
        "arrivals beyond the owed set do not re-gate this chunk"
    );
    merges.chunk_boundary_mark(0);
    assert!(
        merges.chunk_due(query_backlog),
        "nothing owed: arrivals after the boundary compete"
    );
}

#[test]
fn test_chunk_always_waits_for_population_completions() {
    let mut merges = merges_with_active_drain();
    let internal_backlog = InputQueues {
        internal_empty: false,
        ..ALL_EMPTY
    };
    assert!(!merges.chunk_due(internal_backlog));
    merges.batch_flushed();
    merges.command_handled();
    assert!(!merges.chunk_due(internal_backlog), "no unit satisfies it");
}

#[test]
fn test_discard_sql_is_the_same_page_window_without_the_insert() {
    let sql = discard_sql("stage_1_0", 3, 67);
    assert_eq!(
        sql,
        "DELETE FROM pgcache_stage.stage_1_0 WHERE ctid >= '(3,0)'::tid AND ctid < '(67,0)'::tid"
    );
}

#[test]
fn test_chunk_sql_applies_deleted_key_filter_to_insert_only() {
    let filter = "(\"id\") NOT IN ((4))".to_owned();
    let sql = plan().chunk_sql("s", 1, 0, 10, Some(&filter));
    assert!(
        sql.contains("FROM d WHERE (\"id\") NOT IN ((4)) ON CONFLICT"),
        "{sql}"
    );
    let (delete, _) = sql.split_once("RETURNING").expect("returning clause");
    assert!(
        !delete.contains("NOT IN"),
        "filter must not gate the drain: {sql}"
    );
}

fn population(fingerprint: u64, generation: u64, snapshot_lsn: u64) -> PopulationMerge {
    PopulationMerge {
        fingerprint,
        generation,
        staged: vec![],
        cached_bytes: 0,
        row_count: 0,
        snapshot_lsn,
    }
}

#[test]
fn test_chunk_blocks_adapt_targets_chunk_time_within_clamps() {
    let faults = Faults::none();
    let mut m = MergeInProgress::new(
        1,
        1,
        vec![],
        DrainTarget::Apply(population(1, 1, 0)),
        boundary_default(),
        &faults,
    );
    assert_eq!(m.chunk_blocks, MERGE_CHUNK_BLOCKS_INITIAL);
    m.chunk_blocks_adapt(MERGE_CHUNK_TARGET_NANOS / 2, &faults);
    assert_eq!(m.chunk_blocks, MERGE_CHUNK_BLOCKS_INITIAL * 2);
    m.chunk_blocks_adapt(MERGE_CHUNK_TARGET_NANOS * 8, &faults);
    assert_eq!(
        m.chunk_blocks,
        MERGE_CHUNK_BLOCKS_INITIAL * 2 / 4,
        "growth ratio clamped at 4x/0.25x"
    );
    for _ in 0..10 {
        m.chunk_blocks_adapt(1, &faults);
    }
    assert_eq!(m.chunk_blocks, MERGE_CHUNK_BLOCKS_MAX);
    for _ in 0..10 {
        m.chunk_blocks_adapt(60_000_000_000, &faults);
    }
    assert_eq!(m.chunk_blocks, MERGE_CHUNK_BLOCKS_MIN);
}

#[test]
fn a_fixed_window_size_stays() {
    let faults = Faults {
        merge_chunk_blocks: Some(2),
        ..Faults::none()
    };
    let mut m = MergeInProgress::new(1, 1, vec![], DrainTarget::Discard, boundary_default(), &faults);
    assert_eq!(m.chunk_blocks, 2);
    m.chunk_blocks_adapt(1, &faults);
    assert_eq!(m.chunk_blocks, 2);
    let zero = Faults {
        merge_chunk_blocks: Some(0),
        ..Faults::none()
    };
    let m = MergeInProgress::new(1, 1, vec![], DrainTarget::Discard, boundary_default(), &zero);
    assert_eq!(m.chunk_blocks, MERGE_CHUNK_BLOCKS_INITIAL);
}

fn column(name: &str, position: u16, is_primary_key: bool) -> ColumnMetadata {
    ColumnMetadata {
        name: name.to_owned(),
        position,
        type_oid: 25,
        source_type_name: "text".to_owned(),
        cache_type_name: "text".to_owned(),
        is_primary_key,
        toastable: false,
    }
}

fn table() -> TableMetadata {
    TableMetadata {
        relation_oid: REL,
        name: "t".to_owned(),
        schema: "public".to_owned(),
        primary_key_columns: vec!["id".to_owned()],
        columns: vec![column("id", 1, true), column("v", 2, false)],
    }
}

#[test]
fn merge_plan_of_a_relation() {
    let built = MergePlan::build(&table());
    let expected = plan();
    assert_eq!(built.schema, expected.schema);
    assert_eq!(built.name, expected.name);
    assert_eq!(built.columns_csv, expected.columns_csv);
    assert_eq!(built.pk_columns_paren, expected.pk_columns_paren);
    assert_eq!(built.conflict, expected.conflict);
}

fn core_with_table() -> WriterCore {
    let mut core = WriterCore::new("pub".to_owned(), CachePolicy::Clock);
    core.cache.tables.insert(REL, table());
    core
}

#[test]
fn a_drain_sizes_then_drains_windows_without_a_gap() {
    let core = core_with_table();
    let faults = Faults {
        merge_chunk_blocks: Some(64),
        ..Faults::none()
    };
    let mut merges = MergeQueue::new();
    let mut merge = population(1, 3, 5);
    merge.staged = vec![(REL, "stage_a".to_owned())];
    merges.population_merge_start(merge, &faults);
    match merges.population_merge_step(&core) {
        MergeNext::Size { sql } => assert_eq!(
            sql,
            "SELECT (pg_relation_size('pgcache_stage.stage_a') / current_setting('block_size')::bigint)::bigint"
        ),
        _ => panic!("size first"),
    }
    let drain = merges.active.as_mut().expect("active");
    assert!(matches!(drain.sized(-1), Err(CacheError::Other)));
    assert!(drain.sized(100).is_ok());
    match merges.population_merge_step(&core) {
        MergeNext::Chunk { sql, apply } => {
            assert!(apply);
            assert!(sql.contains("ctid >= '(0,0)'::tid AND ctid < '(64,0)'::tid"), "{sql}");
        }
        _ => panic!("a window"),
    }
    merges.active.as_mut().expect("active").chunked(7, 1, &faults);
    match merges.population_merge_step(&core) {
        MergeNext::Chunk { sql, .. } => {
            assert!(sql.contains("ctid >= '(64,0)'::tid AND ctid < '(100,0)'::tid"), "{sql}");
        }
        _ => panic!("the last window"),
    }
    merges.active.as_mut().expect("active").chunked(5, 1, &faults);
    assert!(matches!(merges.population_merge_step(&core), MergeNext::Done));
    let drain = merges.active.expect("active");
    assert_eq!((drain.drained_rows, drain.chunks), (12, 2));
}

#[test]
fn an_empty_staging_table_is_passed_over() {
    let mut m = drain();
    assert!(m.sized(0).is_ok());
    assert_eq!(m.cursor, DrainCursor::Done);
}

#[test]
fn a_lost_population_is_given_up_and_its_rest_discarded() {
    let mut core = core_with_table();
    let faults = Faults::none();
    core.deleted_keys.activate(1, 3, &vec![REL]);
    let mut merges = MergeQueue::new();
    let mut merge = population(1, 3, 5);
    merge.staged = vec![(REL, "stage_a".to_owned())];
    merges.population_merge_start(merge, &faults);
    assert!(merges.active.as_mut().expect("active").sized(10).is_ok());
    core.deleted_keys.abort_below(REL, 6);
    assert!(matches!(merges.population_merge_step(&core), MergeNext::Aborted));
    merges.population_merge_discard_remaining();
    match merges.population_merge_step(&core) {
        MergeNext::Chunk { sql, apply } => {
            assert!(!apply);
            assert_eq!(
                sql,
                "DELETE FROM pgcache_stage.stage_a WHERE ctid >= '(0,0)'::tid AND ctid < '(10,0)'::tid"
            );
        }
        _ => panic!("a discarded window"),
    }
}

#[test]
fn a_removed_key_is_held_back_from_the_next_window() {
    let mut core = core_with_table();
    let faults = Faults::none();
    core.deleted_keys.activate(1, 3, &vec![REL]);
    core.deleted_keys.record(REL, "'4'".to_owned(), 2);
    let mut merges = MergeQueue::new();
    let mut merge = population(1, 3, 5);
    merge.staged = vec![(REL, "stage_a".to_owned())];
    merges.population_merge_start(merge, &faults);
    assert!(merges.active.as_mut().expect("active").sized(10).is_ok());
    match merges.population_merge_step(&core) {
        MergeNext::Chunk { sql, .. } => {
            assert!(sql.contains("FROM d WHERE (\"id\") NOT IN (('4')) ON CONFLICT"), "{sql}");
        }
        _ => panic!("a window"),
    }
}

#[test]
fn populations_are_released_in_snapshot_order_behind_the_watermark() {
    let mut merges = MergeQueue::new();
    merges.merge_enqueue(population(1, 9, 30));
    merges.merge_enqueue(population(2, 8, 20));
    merges.merge_enqueue(population(3, 7, 20));
    assert!(merges.merge_release(FrameState::Idle, 19).is_none());
    assert!(merges.merge_release(FrameState::Active, 100).is_none());
    let first = merges.merge_release(FrameState::Idle, 20).expect("released");
    assert_eq!((first.snapshot_lsn, first.generation), (20, 7));
    let second = merges.merge_release(FrameState::Idle, 20).expect("released");
    assert_eq!((second.snapshot_lsn, second.generation), (20, 8));
    assert!(merges.merge_release(FrameState::Idle, 20).is_none());
    assert_eq!(merges.pending.len(), 1);
    assert_eq!(PendingMerge(population(1, 9, 30)).key(), (30, 9));
}

#[test]
fn discards_wait_their_turn() {
    let mut merges = MergeQueue::new();
    merges.population_discard_enqueue(1, 2, vec![]);
    assert!(merges.discards.is_empty());
    merges.population_discard_enqueue(1, 2, vec![(REL, "stage_b".to_owned())]);
    assert_eq!(merges.discards.len(), 1);
    merges.population_discard_start(
        StagingDiscard {
            fingerprint: 1,
            generation: 2,
            staged: vec![(REL, "stage_b".to_owned())],
        },
        &Faults::none(),
    );
    assert!(!merges.active.expect("active").is_applying());
}

#[test]
fn replies_of_windows_are_read() {
    let row = vec![Some("12".to_owned())];
    assert_eq!(
        chunk_result_parse(&vec![
            ReplyMessage::CommandComplete(0),
            ReplyMessage::RowDescription,
            ReplyMessage::Row(row),
        ])
        .expect("count"),
        12
    );
    assert!(matches!(
        chunk_result_parse(&vec![ReplyMessage::CommandComplete(3)]),
        Err(CacheError::Other)
    ));
    assert!(matches!(
        chunk_result_parse(&vec![ReplyMessage::Row(vec![Some("x".to_owned())])]),
        Err(CacheError::Other)
    ));
    assert_eq!(discard_result_parse(&vec![ReplyMessage::CommandComplete(3)]), 3);
    assert_eq!(discard_result_parse(&vec![]), 0);
}

#[test]
fn a_stalled_merge_forces_one_flush() {
    let second: u64 = 1_000_000_000;
    let mut queue = MergeQueue::new();
    assert!(!queue.stall_check(0, 0), "nothing waits");
    let waits = |snapshot_lsn: u64| PopulationMerge {
        fingerprint: 1,
        generation: snapshot_lsn,
        staged: vec![],
        cached_bytes: 0,
        row_count: 0,
        snapshot_lsn,
    };
    queue.merge_enqueue(waits(100));
    queue.merge_enqueue(waits(200));
    assert!(!queue.stall_check(99, second), "the stall begins");
    assert_eq!(queue.stall_since, Some(second));
    assert!(!queue.stall_check(99, second + 99_999_999));
    assert!(queue.stall_check(99, second + 100_000_000));
    queue.flush_forced(300);
    assert!(!queue.stall_check(99, 10 * second), "one marker serves both");
    assert!(!queue.stall_check(100, 10 * second), "the first may go on");
    assert_eq!(queue.stall_since, None);
    let mut later = MergeQueue::new();
    later.merge_enqueue(waits(400));
    later.flush_forced(300);
    assert!(!later.stall_check(300, 0));
    assert!(later.stall_check(300, second), "the marker lies before it");
}
