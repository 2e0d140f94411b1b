//! The merge pipeline: populations whose staging tables wait to be merged,
//! staging tables that wait to be emptied, and the one drain in progress.
//!
//! A population waits until the watermark has reached its snapshot and no
//! source transaction is open. Its staging tables are then drained window by
//! window, so that CDC is applied in between.
use vstd::prelude::*;

use crate::cache::CacheView;
use crate::catalog::Row;
use crate::deleted_keys::filter_sql;
use crate::deleted_keys::filter_version_spec;
use crate::deleted_keys::must_abort;
use crate::deleted_keys::DeletedKeysView;
use crate::deleted_keys::PopulationDeletedKeys;
use crate::error::CacheError;
use crate::fault::fault_merge_chunk_blocks;
use crate::fault::fixed_chunk_blocks;
use crate::fault::Faults;
use crate::frame::FrameState;
use crate::merge_sql::chunk_text;
use crate::merge_sql::discard_sql;
use crate::merge_sql::discard_text;
use crate::merge_sql::merge_plan;
use crate::merge_sql::staging_blocks_sql;
use crate::merge_sql::staging_blocks_text;
use crate::merge_sql::MergePlan;
use crate::values::unsigned_parse;
use crate::values::unsigned_value;
use crate::writer_core::WriterCore;

verus! {

broadcast use vstd::std_specs::hash::group_hash_axioms;

/// Heap blocks of a drain's first window.
pub const MERGE_CHUNK_BLOCKS_INITIAL: u32 = 64;

/// Heap blocks of the smallest window.
pub const MERGE_CHUNK_BLOCKS_MIN: u32 = 4;

/// Heap blocks of the largest window.
pub const MERGE_CHUNK_BLOCKS_MAX: u32 = 8192;

/// How long a window should take, in nanoseconds.
pub const MERGE_CHUNK_TARGET_NANOS: u64 = 100_000_000;

/// How long populations may wait for the watermark before the origin is made to
/// flush its log, in nanoseconds.
pub const MERGE_FLUSH_FORCE_AFTER_NANOS: u64 = 100_000_000;

/// A population whose rows are all staged.
pub struct PopulationMerge {
    pub fingerprint: u64,
    pub generation: u64,
    /// The staging table of each relation.
    pub staged: Vec<(u32, String)>,
    pub cached_bytes: u64,
    pub row_count: u64,
    /// The LSN of the snapshot that the rows come from.
    pub snapshot_lsn: u64,
}

/// A population that waits to be merged.
pub struct PendingMerge(pub PopulationMerge);

impl PendingMerge {
    /// What the population waits by: its snapshot, then its generation, which
    /// no two populations share.
    pub fn key(&self) -> (key: (u64, u64))
        ensures
            key == pending_key(*self),
    {
        (self.0.snapshot_lsn, self.0.generation)
    }
}

/// What a population waits by.
pub open spec fn pending_key(p: PendingMerge) -> (u64, u64) {
    (p.0.snapshot_lsn, p.0.generation)
}

/// Whether a key comes before another.
pub open spec fn key_before(a: (u64, u64), b: (u64, u64)) -> bool {
    a.0 < b.0 || a.0 == b.0 && a.1 < b.1
}

/// What a drain does with a window.
pub enum DrainTarget {
    /// Merge its rows into the cache table.
    Apply(PopulationMerge),
    /// Empty it.
    Discard,
}

/// Where a drain is.
#[derive(Clone, Copy, Debug, PartialEq, Eq, Structural)]
pub enum DrainCursor {
    /// Before a staging table, whose size is not known yet.
    RelationStart { index: usize },
    /// In a staging table of `blocks` heap blocks, before `next_block`.
    InRelation { index: usize, next_block: u32, blocks: u32 },
    /// Past the last.
    Done,
}

/// The cursor before the staging table at `index`, or past the last.
pub open spec fn cursor_before(index: int, staged_len: int) -> DrainCursor {
    if index < staged_len {
        DrainCursor::RelationStart { index: index as usize }
    } else {
        DrainCursor::Done
    }
}

impl DrainCursor {
    /// The cursor before the first of `staged_len` staging tables.
    pub fn first(staged_len: usize) -> (cursor: DrainCursor)
        ensures
            cursor == cursor_before(0, staged_len as int),
    {
        DrainCursor::after_relation(0, staged_len)
    }

    /// The cursor once the staging tables before `index` are drained.
    pub fn after_relation(index: usize, staged_len: usize) -> (cursor: DrainCursor)
        ensures
            cursor == cursor_before(index as int, staged_len as int),
    {
        if index < staged_len {
            DrainCursor::RelationStart { index }
        } else {
            DrainCursor::Done
        }
    }
}

/// Staging tables that wait to be emptied.
pub struct StagingDiscard {
    pub fingerprint: u64,
    pub generation: u64,
    pub staged: Vec<(u32, String)>,
}

/// A relation's filter, as it was rendered for a version of its deleted keys.
pub struct FilterCache {
    pub relation_oid: u32,
    pub version: u64,
    pub predicate: String,
}

/// The mathematical value of a [`FilterCache`].
#[verifier::ext_equal]
pub struct FilterView {
    pub relation_oid: u32,
    pub version: u64,
    pub predicate: Seq<char>,
}

impl View for FilterCache {
    type V = FilterView;

    open spec fn view(&self) -> FilterView {
        FilterView {
            relation_oid: self.relation_oid,
            version: self.version,
            predicate: self.predicate@,
        }
    }
}

/// What the other work had come to when the drain last took a window, and how
/// many commands it owed a turn to.
#[derive(Clone, Copy, Debug, PartialEq, Eq, Structural)]
pub struct ChunkBoundary {
    pub batch_flush_seq: u64,
    pub commands_handled: u64,
    pub commands_owed: u64,
}

/// Which of the writer's queues are empty.
#[derive(Clone, Copy, Debug, PartialEq, Eq, Structural)]
pub struct InputQueues {
    pub cdc_empty: bool,
    pub query_empty: bool,
    pub internal_empty: bool,
}

/// A drain in progress.
pub struct MergeInProgress {
    pub fingerprint: u64,
    pub generation: u64,
    pub staged: Vec<(u32, String)>,
    pub target: DrainTarget,
    pub cursor: DrainCursor,
    pub chunk_blocks: u32,
    pub boundary: ChunkBoundary,
    pub filter: Option<FilterCache>,
    /// Rows drained so far.
    pub drained_rows: u64,
    /// Windows drained so far.
    pub chunks: u64,
}

/// The staging tables of a drain.
pub open spec fn staged_view(staged: Seq<(u32, String)>) -> Seq<(u32, Seq<char>)> {
    Seq::new(staged.len(), |i: int| (staged[i].0, staged[i].1@))
}

/// The mathematical value of a [`MergeInProgress`].
#[verifier::ext_equal]
pub struct DrainView {
    pub fingerprint: u64,
    pub generation: u64,
    pub staged: Seq<(u32, Seq<char>)>,
    /// The population being merged; `None` when the windows are only emptied.
    pub applying: Option<PopulationMerge>,
    pub cursor: DrainCursor,
    pub chunk_blocks: u32,
    pub boundary: ChunkBoundary,
    pub filter: Option<FilterView>,
    pub drained_rows: u64,
    pub chunks: u64,
}

impl View for MergeInProgress {
    type V = DrainView;

    open spec fn view(&self) -> DrainView {
        DrainView {
            fingerprint: self.fingerprint,
            generation: self.generation,
            staged: staged_view(self.staged@),
            applying: match self.target {
                DrainTarget::Apply(merge) => Some(merge),
                DrainTarget::Discard => None,
            },
            cursor: self.cursor,
            chunk_blocks: self.chunk_blocks,
            boundary: self.boundary,
            filter: match self.filter {
                Some(f) => Some(f@),
                None => None,
            },
            drained_rows: self.drained_rows,
            chunks: self.chunks,
        }
    }
}

/// A drain that has not begun.
pub open spec fn drain_begun(
    fingerprint: u64,
    generation: u64,
    staged: Seq<(u32, Seq<char>)>,
    applying: Option<PopulationMerge>,
    boundary: ChunkBoundary,
    faults: Faults,
) -> DrainView {
    DrainView {
        fingerprint,
        generation,
        staged,
        applying,
        cursor: cursor_before(0, staged.len() as int),
        chunk_blocks: match fixed_chunk_blocks(faults) {
            Some(blocks) => blocks,
            None => MERGE_CHUNK_BLOCKS_INITIAL,
        },
        boundary,
        filter: None,
        drained_rows: 0,
        chunks: 0,
    }
}

/// The number of blocks within the bounds of a window.
pub open spec fn window_bounded(blocks: int) -> u32 {
    if blocks < MERGE_CHUNK_BLOCKS_MIN {
        MERGE_CHUNK_BLOCKS_MIN
    } else if blocks > MERGE_CHUNK_BLOCKS_MAX {
        MERGE_CHUNK_BLOCKS_MAX
    } else {
        blocks as u32
    }
}

/// The size of the next window: the last one's, scaled to what would have
/// taken the target time, by no more than four in either direction.
pub open spec fn window_adapted(blocks: u32, elapsed_nanos: u64) -> u32 {
    window_bounded(
        if elapsed_nanos * 4 <= MERGE_CHUNK_TARGET_NANOS {
            blocks * 4
        } else if elapsed_nanos >= MERGE_CHUNK_TARGET_NANOS * 4 {
            blocks as int / 4
        } else {
            blocks * MERGE_CHUNK_TARGET_NANOS / elapsed_nanos as int
        },
    )
}

/// The filter cache after a window of the relation asked for its filter, and
/// that filter.
pub open spec fn filter_asked(
    cache: Option<FilterView>,
    keys: DeletedKeysView,
    oid: u32,
    pk_columns_paren: Seq<char>,
) -> (Option<FilterView>, Option<Seq<char>>) {
    match filter_version_spec(keys, oid) {
        None => (cache, None),
        Some(version) => if cache matches Some(f) && f.relation_oid == oid && f.version == version {
            (cache, Some(cache->0.predicate))
        } else {
            match filter_sql(keys, oid, pk_columns_paren) {
                Some(predicate) => (
                    Some(FilterView { relation_oid: oid, version, predicate }),
                    Some(predicate),
                ),
                None => (cache, None),
            }
        },
    }
}

fn staged_clone(staged: &Vec<(u32, String)>) -> (copy: Vec<(u32, String)>)
    ensures
        staged_view(copy@) == staged_view(staged@),
{
    let mut copy: Vec<(u32, String)> = Vec::new();
    let mut i: usize = 0;
    proof {
        assert(staged_view(copy@) =~= staged_view(staged@).take(0));
    }
    while i < staged.len()
        invariant
            i <= staged.len(),
            staged_view(copy@) == staged_view(staged@).take(i as int),
        decreases staged.len() - i,
    {
        let ghost before = staged_view(copy@);
        let item = &staged[i];
        copy.push((item.0, item.1.clone()));
        proof {
            assert(staged_view(copy@) =~= before.push(staged_view(staged@)[i as int]));
            assert(staged_view(copy@) =~= staged_view(staged@).take(i as int + 1));
        }
        i = i + 1;
    }
    proof {
        assert(staged_view(staged@).take(i as int) =~= staged_view(staged@));
    }
    copy
}

impl MergeInProgress {
    /// A drain that has not begun.
    pub fn new(
        fingerprint: u64,
        generation: u64,
        staged: Vec<(u32, String)>,
        target: DrainTarget,
        boundary: ChunkBoundary,
        faults: &Faults,
    ) -> (drain: MergeInProgress)
        ensures
            drain@ == drain_begun(
                fingerprint,
                generation,
                staged_view(staged@),
                match target {
                    DrainTarget::Apply(merge) => Some(merge),
                    DrainTarget::Discard => None,
                },
                boundary,
                *faults,
            ),
    {
        let cursor = DrainCursor::first(staged.len());
        let chunk_blocks = match fault_merge_chunk_blocks(faults) {
            Some(blocks) => blocks,
            None => MERGE_CHUNK_BLOCKS_INITIAL,
        };
        MergeInProgress {
            fingerprint,
            generation,
            staged,
            target,
            cursor,
            chunk_blocks,
            boundary,
            filter: None,
            drained_rows: 0,
            chunks: 0,
        }
    }

    /// Whether the drain merges a population.
    pub fn is_applying(&self) -> (applying: bool)
        ensures
            applying == (self@.applying is Some),
    {
        match self.target {
            DrainTarget::Apply(_) => true,
            DrainTarget::Discard => false,
        }
    }

    /// The filter for the next window of a relation. It is rendered anew only
    /// when the relation's deleted keys changed since it was last.
    pub fn filter_predicate(
        &mut self,
        keys: &PopulationDeletedKeys,
        oid: u32,
        pk_columns_paren: &String,
    ) -> (predicate: Option<&String>)
        ensures
            ({
                let asked = filter_asked(old(self)@.filter, keys@, oid, pk_columns_paren@);
                &&& final(self)@ == (DrainView { filter: asked.0, ..old(self)@ })
                &&& match predicate {
                    Some(p) => asked.1 == Some(p@),
                    None => asked.1 is None,
                }
            }),
    {
        let version = match keys.filter_version(oid) {
            Some(version) => version,
            None => {
                return None;
            },
        };
        let current = match &self.filter {
            Some(f) => f.relation_oid == oid && f.version == version,
            None => false,
        };
        if !current {
            match keys.filter_predicate(oid, pk_columns_paren) {
                Some(predicate) => {
                    self.filter = Some(FilterCache { relation_oid: oid, version, predicate });
                },
                None => {
                    return None;
                },
            }
        }
        match &self.filter {
            Some(f) => Some(&f.predicate),
            None => None,
        }
    }

    /// Size the next window by how long the last one took. A fixed size stays.
    pub fn chunk_blocks_adapt(&mut self, elapsed_nanos: u64, faults: &Faults)
        ensures
            final(self)@ == (DrainView {
                chunk_blocks: if fixed_chunk_blocks(*faults) is Some {
                    old(self)@.chunk_blocks
                } else {
                    window_adapted(old(self)@.chunk_blocks, elapsed_nanos)
                },
                ..old(self)@
            }),
    {
        if fault_merge_chunk_blocks(faults).is_some() {
            return ;
        }
        let blocks: u64 = self.chunk_blocks as u64;
        let next: u64 = if elapsed_nanos <= MERGE_CHUNK_TARGET_NANOS / 4 {
            blocks * 4
        } else if elapsed_nanos >= MERGE_CHUNK_TARGET_NANOS * 4 {
            blocks / 4
        } else {
            proof {
                assert(blocks * MERGE_CHUNK_TARGET_NANOS <= u64::MAX) by (nonlinear_arith)
                    requires
                        blocks <= u32::MAX,
                        MERGE_CHUNK_TARGET_NANOS == 100_000_000,
                ;
            }
            blocks * MERGE_CHUNK_TARGET_NANOS / elapsed_nanos
        };
        self.chunk_blocks = if next < MERGE_CHUNK_BLOCKS_MIN as u64 {
            MERGE_CHUNK_BLOCKS_MIN
        } else if next > MERGE_CHUNK_BLOCKS_MAX as u64 {
            MERGE_CHUNK_BLOCKS_MAX
        } else {
            next as u32
        };
    }
}

/// What a drain needs from outside.
pub enum MergeNext {
    /// Nothing: every staging table is drained.
    Done,
    /// Nothing: the population is given up.
    Aborted,
    /// Run `sql`, which counts the next staging table's blocks.
    Size { sql: String },
    /// Run `sql`, which drains a window; with `apply` it merges the rows and
    /// reports their number as its result.
    Chunk { sql: String, apply: bool },
}

/// The mathematical value of a [`MergeNext`].
pub enum NextView {
    Done,
    Aborted,
    Size { sql: Seq<char> },
    Chunk { sql: Seq<char>, apply: bool },
}

impl View for MergeNext {
    type V = NextView;

    open spec fn view(&self) -> NextView {
        match self {
            MergeNext::Done => NextView::Done,
            MergeNext::Aborted => NextView::Aborted,
            MergeNext::Size { sql } => NextView::Size { sql: sql@ },
            MergeNext::Chunk { sql, apply } => NextView::Chunk { sql: sql@, apply: *apply },
        }
    }
}

/// Whether a population with the given snapshot must be given up: a relation
/// of its lost rows since that it can no longer tell apart.
pub open spec fn population_lost(
    staged: Seq<(u32, Seq<char>)>,
    keys: DeletedKeysView,
    snapshot_lsn: u64,
) -> bool {
    exists|i: int|
        0 <= i < staged.len() && must_abort(keys, (#[trigger] staged[i]).0, snapshot_lsn)
}

/// Where a window that begins at `next_block` ends.
pub open spec fn window_end(next_block: u32, chunk_blocks: u32, blocks: u32) -> u32 {
    if next_block + chunk_blocks < blocks {
        (next_block + chunk_blocks) as u32
    } else {
        blocks
    }
}

/// What a drain needs next, and the drain as it goes on.
pub open spec fn drain_next(d: DrainView, c: CacheView, keys: DeletedKeysView) -> (
    NextView,
    DrainView,
) {
    match d.cursor {
        DrainCursor::Done => (NextView::Done, d),
        DrainCursor::RelationStart { index } => if index < d.staged.len() {
            (NextView::Size { sql: staging_blocks_text(d.staged[index as int].1) }, d)
        } else {
            (NextView::Done, d)
        },
        DrainCursor::InRelation { index, next_block, blocks } => if index >= d.staged.len() {
            (NextView::Done, d)
        } else if d.applying matches Some(merge) && population_lost(
            d.staged,
            keys,
            merge.snapshot_lsn,
        ) {
            (NextView::Aborted, d)
        } else {
            let (oid, staging) = d.staged[index as int];
            let hi = window_end(next_block, d.chunk_blocks, blocks);
            if d.applying is Some && c.tables.contains_key(oid) {
                let plan = merge_plan(c.tables[oid]);
                let asked = filter_asked(d.filter, keys, oid, plan.pk_columns_paren);
                (
                    NextView::Chunk {
                        sql: chunk_text(
                            plan,
                            staging,
                            d.generation as nat,
                            next_block as nat,
                            hi as nat,
                            asked.1,
                        ),
                        apply: true,
                    },
                    DrainView { filter: asked.0, ..d },
                )
            } else {
                (
                    NextView::Chunk {
                        sql: discard_text(staging, next_block as nat, hi as nat),
                        apply: false,
                    },
                    d,
                )
            }
        },
    }
}

/// The drain once the size of the staging table before it is known.
pub open spec fn drain_sized(d: DrainView, blocks: u32) -> DrainView {
    match d.cursor {
        DrainCursor::RelationStart { index } => DrainView {
            cursor: if blocks == 0 {
                cursor_before(index + 1, d.staged.len() as int)
            } else {
                DrainCursor::InRelation { index, next_block: 0, blocks }
            },
            ..d
        },
        _ => d,
    }
}

/// The drain once a window of `count` rows was drained in the given time.
pub open spec fn drain_chunked(d: DrainView, count: u64, elapsed_nanos: u64, faults: Faults)
    -> DrainView {
    match d.cursor {
        DrainCursor::InRelation { index, next_block, blocks } => {
            let hi = window_end(next_block, d.chunk_blocks, blocks);
            DrainView {
                chunks: (d.chunks + 1) as u64,
                drained_rows: (d.drained_rows + count) as u64,
                chunk_blocks: if fixed_chunk_blocks(faults) is Some {
                    d.chunk_blocks
                } else {
                    window_adapted(d.chunk_blocks, elapsed_nanos)
                },
                cursor: if hi >= blocks {
                    cursor_before(index + 1, d.staged.len() as int)
                } else {
                    DrainCursor::InRelation { index, next_block: hi, blocks }
                },
                ..d
            }
        },
        _ => d,
    }
}

fn window_end_find(next_block: u32, chunk_blocks: u32, blocks: u32) -> (hi: u32)
    ensures
        hi == window_end(next_block, chunk_blocks, blocks),
{
    if (next_block as u64) + (chunk_blocks as u64) < blocks as u64 {
        next_block + chunk_blocks
    } else {
        blocks
    }
}

fn population_is_lost(
    staged: &Vec<(u32, String)>,
    keys: &PopulationDeletedKeys,
    snapshot_lsn: u64,
) -> (lost: bool)
    ensures
        lost == population_lost(staged_view(staged@), keys@, snapshot_lsn),
{
    let ghost view = staged_view(staged@);
    let mut i: usize = 0;
    while i < staged.len()
        invariant
            i <= staged.len(),
            view == staged_view(staged@),
            forall|j: int| 0 <= j < i ==> !must_abort(keys@, (#[trigger] view[j]).0, snapshot_lsn),
        decreases staged.len() - i,
    {
        if keys.should_abort(staged[i].0, snapshot_lsn) {
            assert(must_abort(keys@, view[i as int].0, snapshot_lsn));
            return true;
        }
        i = i + 1;
    }
    false
}

impl MergeInProgress {
    /// What the drain needs next. A population that lost rows it cannot tell
    /// apart is given up before its next window.
    pub fn next(&mut self, core: &WriterCore) -> (next: MergeNext)
        ensures
            (next@, final(self)@) == drain_next(old(self)@, core@.cache, core@.keys),
    {
        match self.cursor {
            DrainCursor::Done => MergeNext::Done,
            DrainCursor::RelationStart { index } => {
                if index < self.staged.len() {
                    MergeNext::Size { sql: staging_blocks_sql(self.staged[index].1.as_str()) }
                } else {
                    MergeNext::Done
                }
            },
            DrainCursor::InRelation { index, next_block, blocks } => {
                if index >= self.staged.len() {
                    return MergeNext::Done;
                }
                let applying = match &self.target {
                    DrainTarget::Apply(merge) => {
                        if population_is_lost(
                            &self.staged,
                            &core.deleted_keys,
                            merge.snapshot_lsn,
                        ) {
                            return MergeNext::Aborted;
                        }
                        true
                    },
                    DrainTarget::Discard => false,
                };
                self.window_next(core, index, next_block, blocks, applying)
            },
        }
    }

    fn window_next(
        &mut self,
        core: &WriterCore,
        index: usize,
        next_block: u32,
        blocks: u32,
        applying: bool,
    ) -> (next: MergeNext)
        requires
            old(self)@.cursor == (DrainCursor::InRelation { index, next_block, blocks }),
            index < old(self)@.staged.len(),
            applying == (old(self)@.applying is Some),
            old(self)@.applying matches Some(merge) ==> !population_lost(
                old(self)@.staged,
                core@.keys,
                merge.snapshot_lsn,
            ),
        ensures
            (next@, final(self)@) == drain_next(old(self)@, core@.cache, core@.keys),
    {
        let ghost d = self@;
        let oid = self.staged[index].0;
        let staging = self.staged[index].1.clone();
        let hi_block = window_end_find(next_block, self.chunk_blocks, blocks);
        let generation = self.generation;
        if applying {
            if let Some(table) = core.cache.tables.get(&oid) {
                let plan = MergePlan::build(table);
                let filter = self.filter_predicate(
                    &core.deleted_keys,
                    oid,
                    &plan.pk_columns_paren,
                );
                let sql = plan.chunk_sql(
                    staging.as_str(),
                    generation,
                    next_block,
                    hi_block,
                    filter,
                );
                return MergeNext::Chunk { sql, apply: true };
            }
        }
        MergeNext::Chunk {
            sql: discard_sql(staging.as_str(), next_block, hi_block),
            apply: false,
        }
    }

    /// The staging table before the cursor has `blocks` heap blocks. A number
    /// that is none gives [`CacheError::Other`].
    pub fn sized(&mut self, blocks: i64) -> (done: Result<(), CacheError>)
        ensures
            match done {
                Ok(_) => 0 <= blocks <= u32::MAX && final(self)@ == drain_sized(
                    old(self)@,
                    blocks as u32,
                ),
                Err(e) => !(0 <= blocks <= u32::MAX) && e == CacheError::Other && final(self)@
                    == old(self)@,
            },
    {
        if blocks < 0 || blocks > u32::MAX as i64 {
            return Err(CacheError::Other);
        }
        let blocks: u32 = blocks as u32;
        if let DrainCursor::RelationStart { index } = self.cursor {
            let count: usize = self.staged.len();
            self.cursor = if blocks == 0 {
                if index < count {
                    DrainCursor::after_relation(index + 1, count)
                } else {
                    DrainCursor::Done
                }
            } else {
                DrainCursor::InRelation { index, next_block: 0, blocks }
            };
        }
        Ok(())
    }

    /// The window at the cursor was drained: `count` rows, in the given time.
    pub fn chunked(&mut self, count: u64, elapsed_nanos: u64, faults: &Faults)
        requires
            old(self)@.chunks < u64::MAX,
            old(self)@.drained_rows + count <= u64::MAX,
        ensures
            final(self)@ == drain_chunked(old(self)@, count, elapsed_nanos, *faults),
    {
        if let DrainCursor::InRelation { index, next_block, blocks } = self.cursor {
            let hi_block = window_end_find(next_block, self.chunk_blocks, blocks);
            self.chunks = self.chunks + 1;
            self.drained_rows = self.drained_rows + count;
            self.chunk_blocks_adapt(elapsed_nanos, faults);
            let staged: usize = self.staged.len();
            self.cursor = if hi_block >= blocks {
                if index < staged {
                    DrainCursor::after_relation(index + 1, staged)
                } else {
                    DrainCursor::Done
                }
            } else {
                DrainCursor::InRelation { index, next_block: hi_block, blocks }
            };
        }
    }
}

/// A message of a statement's reply.
pub enum ReplyMessage {
    /// The names of the columns that follow.
    RowDescription,
    Row(Row),
    /// A statement is over; how many rows it touched.
    CommandComplete(u64),
}

/// The number of rows that a merged window reports: the first cell of the
/// first row.
pub open spec fn chunk_count(messages: Seq<ReplyMessage>) -> Option<nat>
    decreases messages.len(),
{
    if messages.len() == 0 {
        None
    } else {
        match messages[0] {
            ReplyMessage::Row(row) => if row.deep_view().len() > 0 {
                match row.deep_view()[0] {
                    Some(text) => unsigned_value(text),
                    None => None,
                }
            } else {
                None
            },
            _ => chunk_count(messages.drop_first()),
        }
    }
}

/// The number of rows that an emptied window reports: that of the first
/// statement that is over, or none.
pub open spec fn discard_count(messages: Seq<ReplyMessage>) -> u64
    decreases messages.len(),
{
    if messages.len() == 0 {
        0
    } else {
        match messages[0] {
            ReplyMessage::CommandComplete(rows) => rows,
            _ => discard_count(messages.drop_first()),
        }
    }
}

/// Read how many rows a merged window drained. A reply without the number
/// gives [`CacheError::Other`].
pub fn chunk_result_parse(messages: &Vec<ReplyMessage>) -> (count: Result<u64, CacheError>)
    ensures
        match count {
            Ok(n) => chunk_count(messages@) == Some(n as nat),
            Err(e) => e == CacheError::Other && chunk_count(messages@) is None,
        },
{
    let mut i: usize = 0;
    proof {
        assert(messages@.skip(0) =~= messages@);
    }
    while i < messages.len()
        invariant
            i <= messages.len(),
            chunk_count(messages@) == chunk_count(messages@.skip(i as int)),
        decreases messages.len() - i,
    {
        proof {
            assert(messages@.skip(i as int).drop_first() =~= messages@.skip(i as int + 1));
        }
        if let ReplyMessage::Row(row) = &messages[i] {
            if row.len() == 0 {
                return Err(CacheError::Other);
            }
            proof {
                assert(row.deep_view()[0] == row@[0].deep_view());
            }
            return match &row[0] {
                Some(text) => match unsigned_parse(text.as_str()) {
                    Some(n) => Ok(n),
                    None => Err(CacheError::Other),
                },
                None => Err(CacheError::Other),
            };
        }
        i = i + 1;
    }
    Err(CacheError::Other)
}

/// Read how many rows an emptied window held.
pub fn discard_result_parse(messages: &Vec<ReplyMessage>) -> (count: u64)
    ensures
        count == discard_count(messages@),
{
    let mut i: usize = 0;
    proof {
        assert(messages@.skip(0) =~= messages@);
    }
    while i < messages.len()
        invariant
            i <= messages.len(),
            discard_count(messages@) == discard_count(messages@.skip(i as int)),
        decreases messages.len() - i,
    {
        proof {
            assert(messages@.skip(i as int).drop_first() =~= messages@.skip(i as int + 1));
        }
        if let ReplyMessage::CommandComplete(rows) = &messages[i] {
            return *rows;
        }
        i = i + 1;
    }
    0
}

/// The merge pipeline.
pub struct MergeQueue {
    /// Populations that wait for the watermark.
    pub pending: Vec<PendingMerge>,
    /// Staging tables that wait to be emptied, in order.
    pub discards: Vec<StagingDiscard>,
    /// The drain in progress.
    pub active: Option<MergeInProgress>,
    /// Counts the flushed batches.
    pub batch_flush_seq: u64,
    /// Counts the handled query commands.
    pub commands_handled: u64,
    /// Since when nothing that waits may go on, in nanoseconds.
    pub stall_since: Option<u64>,
    /// Where the origin's log was last flushed to on demand.
    pub flush_marker_lsn: u64,
}

/// Whether the waiting populations all wait for the watermark.
pub open spec fn is_stalled(pending: Seq<PendingMerge>, applied: u64) -> bool {
    &&& pending.len() > 0
    &&& forall|i: int| 0 <= i < pending.len() ==> applied < (#[trigger] pending[i]).0.snapshot_lsn
}

/// Since when the waiting populations have been stalled.
pub open spec fn stalled_since(q: MergeQueue, applied: u64, now: u64) -> Option<u64> {
    if is_stalled(q.pending@, applied) {
        match q.stall_since {
            Some(since) => Some(since),
            None => Some(now),
        }
    } else {
        None
    }
}

/// Whether the origin has to flush its log for the waiting populations to go
/// on: they have been stalled for a while, and no flush reached a snapshot of
/// theirs yet.
pub open spec fn flush_due(q: MergeQueue, applied: u64, now: u64) -> bool {
    &&& stalled_since(q, applied, now) matches Some(since) && now - since
        >= MERGE_FLUSH_FORCE_AFTER_NANOS
    &&& is_stalled(q.pending@, q.flush_marker_lsn)
}

/// The next number of a counter that wraps.
pub open spec fn counted(n: u64) -> u64 {
    if n == u64::MAX {
        0
    } else {
        (n + 1) as u64
    }
}

/// How far a counter that wraps has come since it stood at `since`.
pub open spec fn counted_since(now: u64, since: u64) -> int {
    if now >= since {
        now - since
    } else {
        now - since + 0x1_0000_0000_0000_0000
    }
}

/// Whether a drain may take its next window: every queue is empty, or has had
/// its turn since the last one. Completed populations always go first.
pub open spec fn window_due(q: MergeQueue, queues: InputQueues) -> bool {
    q.active matches Some(drain) && {
        &&& queues.cdc_empty || q.batch_flush_seq != drain.boundary.batch_flush_seq
        &&& queues.query_empty || counted_since(
            q.commands_handled,
            drain.boundary.commands_handled,
        ) >= drain.boundary.commands_owed
        &&& queues.internal_empty
    }
}

/// The boundary of a drain that takes a window now.
pub open spec fn boundary_now(q: MergeQueue, commands_owed: u64) -> ChunkBoundary {
    ChunkBoundary {
        batch_flush_seq: q.batch_flush_seq,
        commands_handled: q.commands_handled,
        commands_owed,
    }
}

/// Whether `at` is the population that goes first.
pub open spec fn is_earliest(pending: Seq<PendingMerge>, at: int) -> bool {
    &&& 0 <= at < pending.len()
    &&& forall|i: int|
        0 <= i < pending.len() ==> !key_before(pending_key(#[trigger] pending[i]), pending_key(
            pending[at],
        ))
}

fn next_count(n: u64) -> (next: u64)
    ensures
        next == counted(n),
{
    if n == u64::MAX {
        0
    } else {
        n + 1
    }
}

impl MergeQueue {
    /// Nothing waits.
    pub fn new() -> (q: MergeQueue)
        ensures
            q.pending@.len() == 0,
            q.discards@.len() == 0,
            q.active is None,
            q.batch_flush_seq == 0,
            q.commands_handled == 0,
            q.stall_since is None,
            q.flush_marker_lsn == 0,
    {
        MergeQueue {
            pending: Vec::new(),
            discards: Vec::new(),
            active: None,
            batch_flush_seq: 0,
            commands_handled: 0,
            stall_since: None,
            flush_marker_lsn: 0,
        }
    }

    /// A batch was flushed.
    pub fn batch_flushed(&mut self)
        ensures
            *final(self) == (MergeQueue {
                batch_flush_seq: counted(old(self).batch_flush_seq),
                ..*old(self)
            }),
    {
        self.batch_flush_seq = next_count(self.batch_flush_seq);
    }

    /// A query command was handled.
    pub fn command_handled(&mut self)
        ensures
            *final(self) == (MergeQueue {
                commands_handled: counted(old(self).commands_handled),
                ..*old(self)
            }),
    {
        self.commands_handled = next_count(self.commands_handled);
    }

    /// The boundary of a drain that takes a window now, owing `commands_owed`
    /// commands a turn.
    pub fn boundary(&self, commands_owed: u64) -> (boundary: ChunkBoundary)
        ensures
            boundary == boundary_now(*self, commands_owed),
    {
        ChunkBoundary {
            batch_flush_seq: self.batch_flush_seq,
            commands_handled: self.commands_handled,
            commands_owed,
        }
    }

    /// The drain took a window, or began: the waiting commands are owed a turn.
    pub fn chunk_boundary_mark(&mut self, query_queued: usize)
        ensures
            final(self).active is Some == old(self).active is Some,
            final(self).active matches Some(drain) ==> drain@ == (DrainView {
                boundary: boundary_now(*old(self), query_queued as u64),
                ..old(self).active->0@
            }),
            *final(self) == (MergeQueue { active: final(self).active, ..*old(self) }),
    {
        let boundary = self.boundary(query_queued as u64);
        let mut active: Option<MergeInProgress> = None;
        std::mem::swap(&mut active, &mut self.active);
        if let Some(mut drain) = active {
            drain.boundary = boundary;
            self.active = Some(drain);
        }
    }

    /// Whether the drain may take its next window now.
    pub fn chunk_due(&self, queues: InputQueues) -> (due: bool)
        ensures
            due == window_due(*self, queues),
    {
        match &self.active {
            None => false,
            Some(drain) => {
                let boundary = drain.boundary;
                let flushed_since = self.batch_flush_seq != boundary.batch_flush_seq;
                let handled: u64 = self.commands_handled.wrapping_sub(boundary.commands_handled);
                let owed_handled = handled >= boundary.commands_owed;
                (queues.cdc_empty || flushed_since) && (queues.query_empty || owed_handled)
                    && queues.internal_empty
            },
        }
    }

    /// A population waits to be merged.
    pub fn merge_enqueue(&mut self, merge: PopulationMerge)
        ensures
            final(self).pending@ == old(self).pending@.push(PendingMerge(merge)),
            *final(self) == (MergeQueue { pending: final(self).pending, ..*old(self) }),
    {
        self.pending.push(PendingMerge(merge));
    }

    /// Which waiting population goes first.
    pub fn earliest(&self) -> (at: Option<usize>)
        ensures
            match at {
                Some(i) => is_earliest(self.pending@, i as int),
                None => self.pending@.len() == 0,
            },
    {
        if self.pending.len() == 0 {
            return None;
        }
        let mut at: usize = 0;
        let mut i: usize = 1;
        while i < self.pending.len()
            invariant
                1 <= i <= self.pending@.len(),
                0 <= at < i,
                forall|j: int|
                    0 <= j < i ==> !key_before(
                        pending_key(#[trigger] self.pending@[j]),
                        pending_key(self.pending@[at as int]),
                    ),
            decreases self.pending.len() - i,
        {
            let a = self.pending[i].key();
            let b = self.pending[at].key();
            if a.0 < b.0 || (a.0 == b.0 && a.1 < b.1) {
                at = i;
            }
            i = i + 1;
        }
        Some(at)
    }

    /// Release the waiting population that goes first, if the writer is
    /// between batches and everything up to its snapshot is applied.
    pub fn merge_release(&mut self, state: FrameState, applied: u64) -> (merge: Option<
        PopulationMerge,
    >)
        ensures
            match merge {
                Some(m) => {
                    &&& state == FrameState::Idle
                    &&& m.snapshot_lsn <= applied
                    &&& exists|at: int|
                        #![trigger is_earliest(old(self).pending@, at)]
                        is_earliest(old(self).pending@, at) && m == old(self).pending@[at].0
                            && final(self).pending@ == old(self).pending@.remove(at)
                    &&& *final(self) == (MergeQueue {
                        pending: final(self).pending,
                        ..*old(self)
                    })
                },
                None => {
                    &&& *final(self) == *old(self)
                    &&& state == FrameState::Idle ==> forall|i: int|
                        0 <= i < old(self).pending@.len() ==> applied < (#[trigger] old(
                            self,
                        ).pending@[i]).0.snapshot_lsn
                },
            },
    {
        if state != FrameState::Idle {
            return None;
        }
        match self.earliest() {
            None => None,
            Some(at) => {
                if self.pending[at].0.snapshot_lsn <= applied {
                    let PendingMerge(merge) = self.pending.remove(at);
                    assert(is_earliest(old(self).pending@, at as int));
                    Some(merge)
                } else {
                    proof {
                        assert forall|i: int| 0 <= i < self.pending@.len() implies applied < (
                        #[trigger] self.pending@[i]).0.snapshot_lsn by {
                            assert(!key_before(
                                pending_key(self.pending@[i]),
                                pending_key(self.pending@[at as int]),
                            ));
                        }
                    }
                    None
                }
            },
        }
    }

    fn pending_is_stalled(&self, applied: u64) -> (stalled: bool)
        ensures
            stalled == is_stalled(self.pending@, applied),
    {
        match self.earliest() {
            None => false,
            Some(at) => {
                proof {
                    assert forall|i: int|
                        0 <= i < self.pending@.len() implies self.pending@[at as int].0.snapshot_lsn
                        <= (#[trigger] self.pending@[i]).0.snapshot_lsn by {
                        assert(!key_before(
                            pending_key(self.pending@[i]),
                            pending_key(self.pending@[at as int]),
                        ));
                    }
                }
                applied < self.pending[at].0.snapshot_lsn
            },
        }
    }

    /// Look at how long the waiting populations have been stalled; whether the
    /// origin has to flush its log for them to go on.
    pub fn stall_check(&mut self, applied: u64, now: u64) -> (force: bool)
        ensures
            force == flush_due(*old(self), applied, now),
            *final(self) == (MergeQueue {
                stall_since: stalled_since(*old(self), applied, now),
                ..*old(self)
            }),
    {
        if !self.pending_is_stalled(applied) {
            self.stall_since = None;
            return false;
        }
        let since: u64 = match self.stall_since {
            Some(since) => since,
            None => now,
        };
        self.stall_since = Some(since);
        now >= since && now - since >= MERGE_FLUSH_FORCE_AFTER_NANOS && self.pending_is_stalled(
            self.flush_marker_lsn,
        )
    }

    /// The origin flushed its log up to a marker.
    pub fn flush_forced(&mut self, marker_lsn: u64)
        ensures
            *final(self) == (MergeQueue { flush_marker_lsn: marker_lsn, ..*old(self) }),
    {
        self.flush_marker_lsn = marker_lsn;
    }

    /// Begin to merge a population.
    pub fn population_merge_start(&mut self, merge: PopulationMerge, faults: &Faults)
        requires
            old(self).active is None,
        ensures
            final(self).active is Some,
            final(self).active->0@ == drain_begun(
                merge.fingerprint,
                merge.generation,
                staged_view(merge.staged@),
                Some(merge),
                boundary_now(*old(self), 0),
                *faults,
            ),
            *final(self) == (MergeQueue { active: final(self).active, ..*old(self) }),
    {
        let staged = staged_clone(&merge.staged);
        let boundary = self.boundary(0);
        self.active = Some(
            MergeInProgress::new(
                merge.fingerprint,
                merge.generation,
                staged,
                DrainTarget::Apply(merge),
                boundary,
                faults,
            ),
        );
    }

    /// Begin to empty staging tables.
    pub fn population_discard_start(&mut self, discard: StagingDiscard, faults: &Faults)
        requires
            old(self).active is None,
        ensures
            final(self).active is Some,
            final(self).active->0@ == drain_begun(
                discard.fingerprint,
                discard.generation,
                staged_view(discard.staged@),
                None,
                boundary_now(*old(self), 0),
                *faults,
            ),
            *final(self) == (MergeQueue { active: final(self).active, ..*old(self) }),
    {
        let boundary = self.boundary(0);
        self.active = Some(
            MergeInProgress::new(
                discard.fingerprint,
                discard.generation,
                discard.staged,
                DrainTarget::Discard,
                boundary,
                faults,
            ),
        );
    }

    /// The staging tables that a population still holds wait to be emptied.
    pub fn population_discard_enqueue(
        &mut self,
        fingerprint: u64,
        generation: u64,
        held: Vec<(u32, String)>,
    )
        ensures
            final(self).discards@ == (if held@.len() == 0 {
                old(self).discards@
            } else {
                old(self).discards@.push(
                    (StagingDiscard { fingerprint, generation, staged: held }),
                )
            }),
            *final(self) == (MergeQueue { discards: final(self).discards, ..*old(self) }),
    {
        if held.len() == 0 {
            return ;
        }
        self.discards.push(StagingDiscard { fingerprint, generation, staged: held });
    }

    /// Give up the population being merged: what is left of its staging tables
    /// is emptied from where it stopped.
    pub fn population_merge_discard_remaining(&mut self)
        ensures
            final(self).active is Some == old(self).active is Some,
            final(self).active matches Some(drain) ==> drain@ == (DrainView {
                applying: None,
                ..old(self).active->0@
            }),
            *final(self) == (MergeQueue { active: final(self).active, ..*old(self) }),
    {
        let mut active: Option<MergeInProgress> = None;
        std::mem::swap(&mut active, &mut self.active);
        if let Some(mut drain) = active {
            drain.target = DrainTarget::Discard;
            self.active = Some(drain);
        }
    }

    /// What the drain in progress needs next; without one, nothing.
    pub fn population_merge_step(&mut self, core: &WriterCore) -> (next: MergeNext)
        ensures
            final(self).active is Some == old(self).active is Some,
            match old(self).active {
                Some(drain) => (next@, final(self).active->0@) == drain_next(
                    drain@,
                    core@.cache,
                    core@.keys,
                ),
                None => next@ == NextView::Done,
            },
            *final(self) == (MergeQueue { active: final(self).active, ..*old(self) }),
    {
        let mut active: Option<MergeInProgress> = None;
        std::mem::swap(&mut active, &mut self.active);
        match active {
            Some(mut drain) => {
                let next = drain.next(core);
                self.active = Some(drain);
                next
            },
            None => MergeNext::Done,
        }
    }
}

} // verus!
