//! What holds of every drain.
use vstd::prelude::*;

use crate::cache::CacheView;
use crate::deleted_keys::cancelled;
use crate::deleted_keys::filter_sql;
use crate::deleted_keys::recorded;
use crate::deleted_keys::DeletedKeysView;
use crate::fault::Faults;
use crate::merge_queue::cursor_before;
use crate::merge_queue::drain_begun;
use crate::merge_queue::drain_chunked;
use crate::merge_queue::drain_next;
use crate::merge_queue::drain_sized;
use crate::merge_queue::filter_asked;
use crate::merge_queue::flush_due;
use crate::merge_queue::is_stalled;
use crate::merge_queue::population_lost;
use crate::merge_queue::window_adapted;
use crate::merge_queue::window_end;
use crate::merge_queue::DrainCursor;
use crate::merge_queue::DrainView;
use crate::merge_queue::FilterView;
use crate::merge_queue::MergeQueue;
use crate::merge_queue::NextView;
use crate::merge_queue::PopulationMerge;
use crate::merge_queue::MERGE_CHUNK_BLOCKS_MAX;
use crate::merge_queue::MERGE_CHUNK_BLOCKS_MIN;
use crate::merge_queue::MERGE_CHUNK_TARGET_NANOS;
use crate::merge_sql::discard_text;
use crate::order::lower;
use crate::order::lower_at;

verus! {

/// A window never leaves its bounds, and one that took exactly the target time
/// keeps its size.
pub proof fn window_size_is_bounded(blocks: u32, elapsed_nanos: u64)
    ensures
        MERGE_CHUNK_BLOCKS_MIN <= window_adapted(blocks, elapsed_nanos) <= MERGE_CHUNK_BLOCKS_MAX,
        elapsed_nanos == MERGE_CHUNK_TARGET_NANOS && MERGE_CHUNK_BLOCKS_MIN <= blocks
            <= MERGE_CHUNK_BLOCKS_MAX ==> window_adapted(blocks, elapsed_nanos) == blocks,
{
    if elapsed_nanos == MERGE_CHUNK_TARGET_NANOS {
        assert(blocks * MERGE_CHUNK_TARGET_NANOS / MERGE_CHUNK_TARGET_NANOS as int == blocks)
            by (nonlinear_arith)
            requires
                MERGE_CHUNK_TARGET_NANOS == 100_000_000,
        ;
    }
}

/// A window grows or shrinks by no more than four at a time.
pub proof fn window_size_moves_gradually(blocks: u32, elapsed_nanos: u64)
    requires
        MERGE_CHUNK_BLOCKS_MIN <= blocks <= MERGE_CHUNK_BLOCKS_MAX,
    ensures
        blocks as int / 4 <= window_adapted(blocks, elapsed_nanos) <= blocks * 4,
{
    let t = MERGE_CHUNK_TARGET_NANOS as int;
    let e = elapsed_nanos as int;
    let b = blocks as int;
    if e * 4 > t && e < t * 4 {
        let q = b * t / e;
        assert(b / 4 <= q <= b * 4) by (nonlinear_arith)
            requires
                e * 4 > t,
                e < t * 4,
                t == 100_000_000,
                b >= 0,
                q == b * t / e,
        {
            assert(b * t <= b * 4 * e) by (nonlinear_arith)
                requires
                    e * 4 > t,
                    b >= 0,
            ;
            assert((b * 4 * e) / e == b * 4) by (nonlinear_arith)
                requires
                    e > 0,
            ;
            assert(b * t / e <= (b * 4 * e) / e) by (nonlinear_arith)
                requires
                    b * t <= b * 4 * e,
                    e > 0,
            ;
            assert((b / 4) * e <= b * t) by (nonlinear_arith)
                requires
                    e < t * 4,
                    b >= 0,
                    e > 0,
            ;
            assert(((b / 4) * e) / e == b / 4) by (nonlinear_arith)
                requires
                    e > 0,
            ;
            assert(((b / 4) * e) / e <= b * t / e) by (nonlinear_arith)
                requires
                    (b / 4) * e <= b * t,
                    e > 0,
            ;
        }
    }
}

/// What every drain meets: its windows are not empty, and a cursor inside a
/// staging table is before its end.
pub open spec fn drain_wf(d: DrainView) -> bool {
    &&& d.chunk_blocks > 0
    &&& match d.cursor {
        DrainCursor::RelationStart { index } => index < d.staged.len(),
        DrainCursor::InRelation { index, next_block, blocks } => index < d.staged.len()
            && next_block < blocks,
        DrainCursor::Done => true,
    }
}

/// A drain begins well formed and stays so.
pub proof fn drain_stays_wf(
    d: DrainView,
    c: CacheView,
    keys: DeletedKeysView,
    blocks: u32,
    count: u64,
    elapsed_nanos: u64,
    faults: Faults,
)
    requires
        drain_wf(d),
        d.staged.len() < usize::MAX,
    ensures
        drain_wf(drain_next(d, c, keys).1),
        drain_wf(drain_sized(d, blocks)),
        drain_wf(drain_chunked(d, count, elapsed_nanos, faults)),
        drain_wf(drain_begun(d.fingerprint, d.generation, d.staged, d.applying, d.boundary, faults)),
{
    window_size_is_bounded(d.chunk_blocks, elapsed_nanos);
}

/// The windows of a staging table follow one another without a gap from its
/// first block to its last: each begins where the one before ended, takes at
/// least a block, and the table is left exactly when its end is reached.
pub proof fn windows_tile_the_table(
    d: DrainView,
    count: u64,
    elapsed_nanos: u64,
    faults: Faults,
)
    requires
        drain_wf(d),
        d.cursor is InRelation,
    ensures
        ({
            let (index, lo, blocks) = (
                d.cursor->InRelation_index,
                d.cursor->InRelation_next_block,
                d.cursor->InRelation_blocks,
            );
            let hi = window_end(lo, d.chunk_blocks, blocks);
            &&& lo < hi <= blocks
            &&& drain_chunked(d, count, elapsed_nanos, faults).cursor == if hi == blocks {
                cursor_before(index + 1, d.staged.len() as int)
            } else {
                DrainCursor::InRelation { index, next_block: hi, blocks }
            }
        }),
{
}

/// How much of a drain is left.
pub open spec fn drain_rank(d: DrainView) -> Seq<int> {
    match d.cursor {
        DrainCursor::RelationStart { index } => seq![d.staged.len() - index, 1, 0],
        DrainCursor::InRelation { index, next_block, blocks } => seq![
            d.staged.len() - index,
            0,
            blocks - next_block,
        ],
        DrainCursor::Done => seq![0, 0, 0],
    }
}

/// A drain comes to an end: every size that becomes known and every window
/// leaves less to do.
pub proof fn drain_comes_to_an_end(
    d: DrainView,
    blocks: u32,
    count: u64,
    elapsed_nanos: u64,
    faults: Faults,
)
    requires
        drain_wf(d),
        d.staged.len() < usize::MAX,
    ensures
        d.cursor is RelationStart ==> lower(drain_rank(drain_sized(d, blocks)), drain_rank(d)),
        d.cursor is InRelation ==> lower(
            drain_rank(drain_chunked(d, count, elapsed_nanos, faults)),
            drain_rank(d),
        ),
{
    let b = drain_rank(d);
    if d.cursor is RelationStart {
        let a = drain_rank(drain_sized(d, blocks));
        if blocks == 0 {
            assert(lower_at(a, b, 0));
        } else {
            assert(lower_at(a, b, 1));
        }
    }
    if d.cursor is InRelation {
        windows_tile_the_table(d, count, elapsed_nanos, faults);
        let after = drain_chunked(d, count, elapsed_nanos, faults);
        let a = drain_rank(after);
        if after.cursor is InRelation {
            assert(lower_at(a, b, 2));
        } else {
            assert(lower_at(a, b, 0));
        }
    }
}

/// A population that lost rows it cannot tell apart merges no further window.
pub proof fn lost_population_is_given_up(
    d: DrainView,
    c: CacheView,
    keys: DeletedKeysView,
    merge: PopulationMerge,
)
    requires
        drain_wf(d),
        d.cursor is InRelation,
        d.applying == Some(merge),
        population_lost(d.staged, keys, merge.snapshot_lsn),
    ensures
        drain_next(d, c, keys).0 == NextView::Aborted,
{
}

/// A drain that merges nothing, and one into a relation whose cache table is
/// gone, only empties its windows.
pub proof fn discarding_drain_writes_nothing(d: DrainView, c: CacheView, keys: DeletedKeysView)
    requires
        drain_wf(d),
        d.cursor is InRelation,
        d.applying is None || !c.tables.contains_key(
            d.staged[d.cursor->InRelation_index as int].0,
        ),
        d.applying matches Some(merge) ==> !population_lost(d.staged, keys, merge.snapshot_lsn),
    ensures
        ({
            let lo = d.cursor->InRelation_next_block;
            let hi = window_end(lo, d.chunk_blocks, d.cursor->InRelation_blocks);
            drain_next(d, c, keys).0 == (NextView::Chunk {
                sql: discard_text(
                    d.staged[d.cursor->InRelation_index as int].1,
                    lo as nat,
                    hi as nat,
                ),
                apply: false,
            })
        }),
{
}

/// Whether a rendered filter is up to date: where its version is that of the
/// relation's deleted keys, it leaves out exactly those.
pub open spec fn filter_valid(
    f: FilterView,
    keys: DeletedKeysView,
    pk_columns_paren: Seq<char>,
) -> bool {
    keys.contains_key(f.relation_oid) && keys[f.relation_oid].version == f.version ==> filter_sql(
        keys,
        f.relation_oid,
        pk_columns_paren,
    ) == Some(f.predicate)
}

/// Every window is merged with the filter of the keys as they are then: an
/// up-to-date rendering is reused, and whatever is asked stays up to date.
pub proof fn windows_use_the_current_filter(
    cache: Option<FilterView>,
    keys: DeletedKeysView,
    oid: u32,
    pk_columns_paren: Seq<char>,
)
    requires
        cache matches Some(f) ==> filter_valid(f, keys, pk_columns_paren),
    ensures
        filter_asked(cache, keys, oid, pk_columns_paren).1 == filter_sql(
            keys,
            oid,
            pk_columns_paren,
        ),
        filter_asked(cache, keys, oid, pk_columns_paren).0 matches Some(f) ==> filter_valid(
            f,
            keys,
            pk_columns_paren,
        ),
{
}

/// A key that lands or is cancelled between two windows leaves no rendering
/// that passes for up to date: the keys' version moves past it.
pub proof fn changed_keys_outdate_the_filter(
    f: FilterView,
    keys: DeletedKeysView,
    oid: u32,
    key: Seq<char>,
    lsn: u64,
    pk_columns_paren: Seq<char>,
)
    requires
        filter_valid(f, keys, pk_columns_paren),
        keys.contains_key(f.relation_oid) ==> f.version <= keys[f.relation_oid].version < u64::MAX,
    ensures
        filter_valid(f, recorded(keys, oid, key, lsn), pk_columns_paren),
        filter_valid(f, cancelled(keys, oid, key), pk_columns_paren),
{
}

/// One flush of the origin's log serves every population that waits by then:
/// while one of them is left, no other flush is asked for, however long the
/// watermark takes.
pub proof fn one_flush_serves_the_backlog(q: MergeQueue, applied: u64, now: u64, at: int)
    requires
        0 <= at < q.pending@.len(),
        q.pending@[at].0.snapshot_lsn <= q.flush_marker_lsn,
    ensures
        !flush_due(q, applied, now),
{
}

/// The origin is left alone while its log keeps up: nothing is asked of it when
/// some population may go on, nor when a stall has only begun.
pub proof fn healthy_origin_is_left_alone(q: MergeQueue, applied: u64, now: u64)
    requires
        !is_stalled(q.pending@, applied) || q.stall_since is None,
    ensures
        !flush_due(q, applied, now),
{
}

} // verus!
