//! What each row event does: which queries it invalidates, whether its row is
//! kept, and what is written to the cache table.
use vstd::prelude::*;
use vstd::string::*;

use crate::cache::dirty_eval_required;
use crate::cache::entries_dirtied;
use crate::cache::CacheView;
use crate::catalog::pk_body;
use crate::catalog::pk_body_render;
use crate::catalog::Row;
use crate::catalog::RowView;
use crate::catalog::TableMetadata;
use crate::writer_core::CoreView;
use crate::writer_core::WriterCore;
use crate::deleted_keys::cancelled;
use crate::deleted_keys::tracks;
use crate::error::CacheError;
use crate::frame::chunk_full;
use crate::frame::fingerprint_contains;
use crate::frame::fingerprint_insert;
use crate::frame::row_keys;
use crate::frame::txn_begun;
use crate::frame::with_distinct;
use crate::frame::write_finished;
use crate::frame::FrameView;
use crate::invalidation::candidates;
use crate::invalidation::is_candidate;
use crate::keymap::RowKey;
use crate::memo::Memo;
use crate::memo::MemoView;
use crate::query::matches_locally;
use crate::query::row_constraints_match;
use crate::query::update_query_matches_locally;
use crate::query::UpdateEvalStrategy;
use crate::query::UpdateQuery;
use crate::segment::batch_covers;
use crate::segment::batch_hit;
use crate::segment::BatchView;
use crate::segment::SegmentMembership;
use crate::sql::cache_delete_into;
use crate::sql::cache_upsert_unconditional_into;
use crate::sql::delete_head;
use crate::sql::delete_sql;
use crate::sql::has_pk_cell;
use crate::sql::upsert_sql;

verus! {

broadcast use vstd::std_specs::hash::group_hash_axioms;

/// The key of a row of a known relation.
pub open spec fn row_key(c: CacheView, oid: u32, row: RowView) -> Option<RowKey> {
    if c.tables.contains_key(oid) {
        match pk_body(c.tables[oid], row) {
            Some(k) => Some((oid, k)),
            None => None,
        }
    } else {
        None
    }
}

/// A buffered upsert of the row: the key is present again, whatever the batch
/// deleted before.
pub open spec fn frame_upserted(f: FrameView, c: CacheView, oid: u32, row: RowView) -> FrameView {
    let begun = txn_begun(f, seq![oid]);
    write_finished(
        FrameView {
            buf: begun.buf + upsert_sql(c.tables[oid], row),
            batch_deleted_pks: match row_key(c, oid, row) {
                Some(k) => begun.batch_deleted_pks.remove(k),
                None => begun.batch_deleted_pks,
            },
            ..begun
        },
    )
}

/// A batch with the row's key among the deleted ones.
pub open spec fn pk_deleted(f: FrameView, c: CacheView, oid: u32, row: RowView) -> FrameView {
    FrameView {
        batch_deleted_pks: match row_key(c, oid, row) {
            Some(k) => f.batch_deleted_pks.insert(k),
            None => f.batch_deleted_pks,
        },
        ..f
    }
}

/// A buffered delete of the row. With `record` the key is kept for the
/// populations in flight over the relation.
pub open spec fn frame_deleted(
    c: CoreView,
    oid: u32,
    row: RowView,
    record: bool,
) -> FrameView {
    let begun = pk_deleted(txn_begun(c.frame, seq![oid]), c.cache, oid, row);
    write_finished(
        FrameView {
            buf: begun.buf + delete_sql(c.cache.tables[oid], row),
            deleted_keys: if record && c.keys.contains_key(oid) && row_key(
                c.cache,
                oid,
                row,
            ) is Some {
                begun.deleted_keys.push(row_key(c.cache, oid, row)->0)
            } else {
                begun.deleted_keys
            },
            ..begun
        },
    )
}

/// The state of a delete that fails because the row has no key cell.
pub open spec fn frame_delete_failed(c: CoreView, oid: u32, row: RowView) -> FrameView {
    let begun = pk_deleted(txn_begun(c.frame, seq![oid]), c.cache, oid, row);
    FrameView { buf: begun.buf + delete_head(c.cache.tables[oid]), ..begun }
}

/// `keys` without `gone`.
pub open spec fn keys_without(keys: Seq<RowKey>, gone: RowKey) -> Seq<RowKey>
    decreases keys.len(),
{
    if keys.len() == 0 {
        keys
    } else {
        let rest = keys_without(keys.drop_last(), gone);
        if keys.last() == gone {
            rest
        } else {
            rest.push(keys.last())
        }
    }
}

/// Whether a deletion of the row's key is tracked: stamped already, or waiting
/// for its commit LSN.
pub open spec fn deletion_tracked(c: CoreView, oid: u32, row: RowView) -> bool {
    match row_key(c.cache, oid, row) {
        Some(k) => tracks(c.keys, oid, k.1) || c.frame.deleted_keys.contains(k),
        None => false,
    }
}

/// The row is alive: a tracked deletion of its key is dropped.
pub open spec fn deletion_cancelled(c: CoreView, oid: u32, row: RowView) -> CoreView {
    match row_key(c.cache, oid, row) {
        Some(k) => CoreView {
            keys: cancelled(c.keys, oid, k.1),
            frame: FrameView { deleted_keys: keys_without(c.frame.deleted_keys, k), ..c.frame },
            ..c
        },
        None => c,
    }
}

/// The memoized queries over the relation among `candidates` lose their memo
/// with the batch.
pub open spec fn memo_accumulated(
    evictions: Seq<u64>,
    memo: MemoView,
    oid: u32,
    candidates: Seq<u64>,
) -> Seq<u64>
    decreases candidates.len(),
{
    if candidates.len() == 0 {
        evictions
    } else {
        let rest = memo_accumulated(evictions, memo, oid, candidates.drop_last());
        if memo.memos.contains(Memo { relation_oid: oid, fingerprint: candidates.last() }) {
            with_distinct(rest, candidates.last())
        } else {
            rest
        }
    }
}

fn row_keys_contain(keys: &Vec<(u32, String)>, oid: u32, key: &String) -> (found: bool)
    ensures
        found == row_keys(keys@).contains((oid, key@)),
{
    let mut i: usize = 0;
    while i < keys.len()
        invariant
            i <= keys.len(),
            forall|j: int| 0 <= j < i ==> #[trigger] row_keys(keys@)[j] != (oid, key@),
        decreases keys.len() - i,
    {
        if keys[i].0 == oid && keys[i].1 == *key {
            assert(row_keys(keys@)[i as int] == (oid, key@));
            return true;
        }
        i = i + 1;
    }
    false
}

impl WriterCore {
    /// Buffer an upsert of the row; whether the buffer has to be sent now. An
    /// unknown relation gives [`CacheError::UnknownTable`].
    pub fn frame_cache_upsert(&mut self, oid: u32, row: &Row) -> (send: Result<bool, CacheError>)
        ensures
            send is Ok <==> old(self)@.cache.tables.contains_key(oid),
            send matches Ok(s) ==> final(self)@ == (CoreView {
                frame: frame_upserted(old(self)@.frame, old(self)@.cache, oid, row.deep_view()),
                ..old(self)@
            }) && s == chunk_full(final(self)@.frame.buf),
            send matches Err(e) ==> e == (CacheError::UnknownTable { oid }) && final(self)@ == (
            CoreView { frame: txn_begun(old(self)@.frame, seq![oid]), ..old(self)@ }),
    {
        let relations: Vec<u32> = vec![oid];
        assert(relations@ =~= seq![oid]);
        self.frame.frame_begin_ensure(&relations);
        let ghost begun = self.frame@;
        let table = match self.cache.tables.get(&oid) {
            Some(table) => table,
            None => {
                proof {
                    assert(self@ =~= (CoreView {
                        frame: txn_begun(old(self)@.frame, seq![oid]),
                        ..old(self)@
                    }));
                }
                return Err(CacheError::UnknownTable { oid });
            },
        };
        if let Some(key) = pk_body_render(table, row) {
            self.frame.batch_deleted_pks.remove(oid, &key);
        }
        cache_upsert_unconditional_into(&mut self.frame.buf, table, row);
        proof {
            assert(self.frame@ =~= (FrameView {
                buf: begun.buf + upsert_sql(*table, row.deep_view()),
                batch_deleted_pks: match row_key(old(self)@.cache, oid, row.deep_view()) {
                    Some(k) => begun.batch_deleted_pks.remove(k),
                    None => begun.batch_deleted_pks,
                },
                ..begun
            }));
        }
        let send = self.frame.write_finish();
        proof {
            assert(self@ =~= (CoreView {
                frame: frame_upserted(old(self)@.frame, old(self)@.cache, oid, row.deep_view()),
                ..old(self)@
            }));
        }
        Ok(send)
    }

    /// Buffer a delete of the row; whether the buffer has to be sent now. With
    /// `record_lost_key` the key is kept for the populations in flight over
    /// the relation. An unknown relation gives [`CacheError::UnknownTable`], a
    /// row with no key cell [`CacheError::NoPrimaryKey`].
    pub fn frame_cache_delete_inner(
        &mut self,
        oid: u32,
        row: &Row,
        record_lost_key: bool,
    ) -> (send: Result<bool, CacheError>)
        ensures
            ({
                let c = old(self)@;
                match send {
                    Ok(s) => {
                        &&& c.cache.tables.contains_key(oid)
                        &&& has_pk_cell(c.cache.tables[oid], row.deep_view())
                        &&& final(self)@ == (CoreView {
                            frame: frame_deleted(c, oid, row.deep_view(), record_lost_key),
                            ..c
                        })
                        &&& s == chunk_full(final(self)@.frame.buf)
                    },
                    Err(e) => {
                        if c.cache.tables.contains_key(oid) {
                            &&& !has_pk_cell(c.cache.tables[oid], row.deep_view())
                            &&& e == CacheError::NoPrimaryKey
                            &&& final(self)@ == (CoreView {
                                frame: frame_delete_failed(c, oid, row.deep_view()),
                                ..c
                            })
                        } else {
                            &&& e == (CacheError::UnknownTable { oid })
                            &&& final(self)@ == (CoreView {
                                frame: txn_begun(c.frame, seq![oid]),
                                ..c
                            })
                        }
                    },
                }
            }),
    {
        let relations: Vec<u32> = vec![oid];
        assert(relations@ =~= seq![oid]);
        self.frame.frame_begin_ensure(&relations);
        let ghost begun = self.frame@;
        let ghost c = old(self)@;
        let ghost view = row.deep_view();
        let table = match self.cache.tables.get(&oid) {
            Some(table) => table,
            None => {
                proof {
                    assert(self@ =~= (CoreView { frame: txn_begun(c.frame, seq![oid]), ..c }));
                }
                return Err(CacheError::UnknownTable { oid });
            },
        };
        let recorded = record_lost_key && self.deleted_keys.is_recording(oid);
        let key = pk_body_render(table, row);
        if let Some(k) = &key {
            self.frame.batch_deleted_pks.insert(oid, k.clone(), ());
        }
        let ghost marked = pk_deleted(begun, c.cache, oid, view);
        proof {
            assert(self.frame@ =~= marked);
        }
        match cache_delete_into(&mut self.frame.buf, table, row) {
            Ok(_) => {},
            Err(e) => {
                proof {
                    assert(self@.frame =~= frame_delete_failed(c, oid, view));
                    assert(self@ =~= (CoreView {
                        frame: frame_delete_failed(c, oid, view),
                        ..c
                    }));
                }
                return Err(e);
            },
        }
        if recorded {
            if let Some(k) = key {
                let ghost before = self.frame.deleted_keys@;
                let ghost key_v = (oid, k@);
                self.frame.deleted_keys.push((oid, k));
                proof {
                    assert(row_keys(self.frame.deleted_keys@) =~= row_keys(before).push(key_v));
                }
            }
        }
        proof {
            assert(self.frame@ =~= (FrameView {
                buf: marked.buf + delete_sql(*table, view),
                deleted_keys: if record_lost_key && c.keys.contains_key(oid) && row_key(
                    c.cache,
                    oid,
                    view,
                ) is Some {
                    marked.deleted_keys.push(row_key(c.cache, oid, view)->0)
                } else {
                    marked.deleted_keys
                },
                ..marked
            }));
        }
        let send = self.frame.write_finish();
        proof {
            assert(self@ =~= (CoreView {
                frame: frame_deleted(c, oid, view, record_lost_key),
                ..c
            }));
        }
        Ok(send)
    }

    /// Whether a deletion of the row's key is tracked.
    pub fn deletion_is_tracked(&self, oid: u32, row: &Row) -> (found: bool)
        ensures
            found == deletion_tracked(self@, oid, row.deep_view()),
    {
        let table = match self.cache.tables.get(&oid) {
            Some(table) => table,
            None => {
                return false;
            },
        };
        match pk_body_render(table, row) {
            Some(key) => self.deleted_keys.is_tracked(oid, &key) || row_keys_contain(
                &self.frame.deleted_keys,
                oid,
                &key,
            ),
            None => false,
        }
    }

    /// Drop a tracked deletion of the row's key, because the row is alive;
    /// whether there was one.
    pub fn population_deleted_key_cancel(&mut self, oid: u32, row: &Row) -> (found: bool)
        ensures
            found == deletion_tracked(old(self)@, oid, row.deep_view()),
            final(self)@ == deletion_cancelled(old(self)@, oid, row.deep_view()),
    {
        let table = match self.cache.tables.get(&oid) {
            Some(table) => table,
            None => {
                return false;
            },
        };
        let key = match pk_body_render(table, row) {
            Some(key) => key,
            None => {
                return false;
            },
        };
        let stamped = self.deleted_keys.cancel(oid, &key);
        let ghost keys = row_keys(self.frame.deleted_keys@);
        let ghost gone = (oid, key@);
        let mut left: Vec<(u32, String)> = Vec::new();
        let mut waiting = false;
        let mut i: usize = 0;
        proof {
            assert(row_keys(left@) =~= keys_without(keys.take(0), gone));
        }
        while i < self.frame.deleted_keys.len()
            invariant
                i <= self.frame.deleted_keys.len(),
                gone == (oid, key@),
                keys == row_keys(self.frame.deleted_keys@),
                row_keys(left@) == keys_without(keys.take(i as int), gone),
                waiting <==> exists|j: int| 0 <= j < i && #[trigger] keys[j] == gone,
                self@ == (CoreView { keys: self@.keys, ..old(self)@ }),
                self@.keys == cancelled(old(self)@.keys, oid, key@),
            decreases self.frame.deleted_keys.len() - i,
        {
            proof {
                assert(keys.take(i + 1).drop_last() =~= keys.take(i as int));
                assert(keys.take(i + 1).last() == keys[i as int]);
            }
            let entry = &self.frame.deleted_keys[i];
            if entry.0 == oid && entry.1 == key {
                assert(keys[i as int] == gone);
                waiting = true;
            } else {
                let ghost before = left@;
                left.push((entry.0, entry.1.clone()));
                proof {
                    assert(row_keys(left@) =~= row_keys(before).push(keys[i as int]));
                }
            }
            i = i + 1;
        }
        proof {
            assert(keys.take(i as int) =~= keys);
            assert(waiting == keys.contains(gone));
        }
        self.frame.deleted_keys = left;
        proof {
            assert(self@.frame =~= (FrameView {
                deleted_keys: keys_without(keys, gone),
                ..old(self)@.frame
            }));
            assert(self@ =~= deletion_cancelled(old(self)@, oid, row.deep_view()));
        }
        stamped || waiting
    }

    /// The memoized queries over the relation among `candidates` lose their
    /// memo with the batch.
    pub fn memo_frame_accumulate(&mut self, oid: u32, candidates: &Vec<u64>)
        ensures
            final(self)@ == (CoreView {
                frame: FrameView {
                    memo_evictions: memo_accumulated(
                        old(self)@.frame.memo_evictions,
                        old(self)@.cache.memo,
                        oid,
                        candidates@,
                    ),
                    ..old(self)@.frame
                },
                ..old(self)@
            }),
    {
        let ghost start = self.frame.memo_evictions@;
        let ghost memo = self.cache.memo@;
        let mut evictions: Vec<u64> = Vec::new();
        std::mem::swap(&mut evictions, &mut self.frame.memo_evictions);
        let mut i: usize = 0;
        proof {
            assert(candidates@.take(0) =~= Seq::<u64>::empty());
        }
        while i < candidates.len()
            invariant
                i <= candidates.len(),
                memo == self.cache.memo@,
                evictions@ == memo_accumulated(start, memo, oid, candidates@.take(i as int)),
            decreases candidates.len() - i,
        {
            proof {
                assert(candidates@.take(i + 1).drop_last() =~= candidates@.take(i as int));
            }
            if self.cache.memo.relation_has_fingerprint(oid, candidates[i]) {
                fingerprint_insert(&mut evictions, candidates[i]);
            }
            i = i + 1;
        }
        proof {
            assert(candidates@.take(i as int) =~= candidates@);
        }
        self.frame.memo_evictions = evictions;
        proof {
            assert(self@ =~= (CoreView {
                frame: FrameView {
                    memo_evictions: memo_accumulated(start, memo, oid, candidates@),
                    ..old(self)@.frame
                },
                ..old(self)@
            }));
        }
    }
}

/// A query that the row may belong to and that is not being invalidated.
pub open spec fn is_evaluable(
    q: UpdateQuery,
    table: TableMetadata,
    row: RowView,
    invalidations: Seq<u64>,
) -> bool {
    is_candidate(q, table, row) && !invalidations.contains(q.fingerprint)
}

/// Whether the query is known to hold the row without asking the cache
/// database: it was evaluated here, or the segment's answers say so.
pub open spec fn is_sure_hit(
    q: UpdateQuery,
    m: Map<u32, BatchView>,
    oid: u32,
    idx: usize,
    row: RowView,
) -> bool {
    match q.eval_strategy {
        UpdateEvalStrategy::LocalEval => matches_locally(q, row),
        UpdateEvalStrategy::PgEval => batch_covers(m, oid, idx, q.fingerprint) && batch_hit(
            m,
            oid,
            idx,
            q.fingerprint,
        ),
    }
}

/// Whether the cache database has yet to be asked about the query.
pub open spec fn is_unasked(q: UpdateQuery, m: Map<u32, BatchView>, oid: u32, idx: usize) -> bool {
    q.eval_strategy == UpdateEvalStrategy::PgEval && !batch_covers(m, oid, idx, q.fingerprint)
}

/// The evaluable queries that are known to hold the row, in order.
pub open spec fn sure_hits(
    queries: Seq<UpdateQuery>,
    table: TableMetadata,
    m: Map<u32, BatchView>,
    oid: u32,
    idx: usize,
    row: RowView,
    invalidations: Seq<u64>,
) -> Seq<u64>
    decreases queries.len(),
{
    if queries.len() == 0 {
        Seq::empty()
    } else {
        let rest = sure_hits(queries.drop_last(), table, m, oid, idx, row, invalidations);
        let q = queries.last();
        if is_evaluable(q, table, row, invalidations) && is_sure_hit(
            q,
            m,
            oid,
            idx,
            row,
        ) {
            rest.push(q.fingerprint)
        } else {
            rest
        }
    }
}

/// The evaluable queries that the cache database has yet to be asked about, in
/// order.
pub open spec fn unasked(
    queries: Seq<UpdateQuery>,
    table: TableMetadata,
    m: Map<u32, BatchView>,
    oid: u32,
    idx: usize,
    row: RowView,
    invalidations: Seq<u64>,
) -> Seq<u64>
    decreases queries.len(),
{
    if queries.len() == 0 {
        Seq::empty()
    } else {
        let rest = unasked(queries.drop_last(), table, m, oid, idx, row, invalidations);
        let q = queries.last();
        if is_evaluable(q, table, row, invalidations) && is_unasked(
            q,
            m,
            oid,
            idx,
        ) {
            rest.push(q.fingerprint)
        } else {
            rest
        }
    }
}

/// The fingerprints whose materialized result a change can (`dirtyable`) or
/// cannot dirty.
pub open spec fn by_dirtyable(fps: Seq<u64>, c: CacheView, dirtyable: bool) -> Seq<u64>
    decreases fps.len(),
{
    if fps.len() == 0 {
        fps
    } else {
        let rest = by_dirtyable(fps.drop_last(), c, dirtyable);
        if dirty_eval_required(c.entries, fps.last()) == dirtyable {
            rest.push(fps.last())
        } else {
            rest
        }
    }
}

/// Where the evaluation of a row's membership stands.
pub struct EvalPlan {
    /// Whether a query is known to hold the row.
    pub matched: bool,
    /// Queries to ask one by one: each match dirties a materialized result.
    pub fresh: Vec<u64>,
    /// Queries to ask only if nothing matched: one match is enough.
    pub rest: Vec<u64>,
}

/// The mathematical value of an [`EvalPlan`].
pub struct EvalView {
    pub matched: bool,
    pub fresh: Seq<u64>,
    pub rest: Seq<u64>,
}

impl View for EvalPlan {
    type V = EvalView;

    open spec fn view(&self) -> EvalView {
        EvalView { matched: self.matched, fresh: self.fresh@, rest: self.rest@ }
    }
}

/// Nothing to evaluate.
pub open spec fn eval_none() -> EvalView {
    EvalView { matched: false, fresh: Seq::empty(), rest: Seq::empty() }
}

/// The queries over the relation; none when it or its table is unknown.
pub open spec fn relation_queries(c: CacheView, oid: u32) -> Seq<UpdateQuery> {
    if c.update_queries.contains_key(oid) && c.tables.contains_key(oid) {
        c.update_queries[oid]
    } else {
        Seq::empty()
    }
}

/// The state with the given materialized results dirtied.
pub open spec fn core_dirtied(c: CoreView, fps: Seq<u64>) -> CoreView {
    CoreView {
        cache: CacheView { entries: entries_dirtied(c.cache.entries, fps), ..c.cache },
        ..c
    }
}

/// The queries known to hold the row when its evaluation begins.
pub open spec fn membership_hits(
    c: CoreView,
    m: Map<u32, BatchView>,
    idx: usize,
    oid: u32,
    row: RowView,
) -> Seq<u64> {
    sure_hits(
        relation_queries(c.cache, oid),
        c.cache.tables[oid],
        m,
        oid,
        idx,
        row,
        c.frame.invalidations,
    )
}

/// The evaluation of a row's membership, as far as it goes without the cache
/// database.
pub open spec fn membership_plan(
    c: CoreView,
    m: Map<u32, BatchView>,
    idx: usize,
    oid: u32,
    row: RowView,
) -> EvalView {
    if relation_queries(c.cache, oid).len() == 0 {
        eval_none()
    } else {
        let hits = membership_hits(c, m, idx, oid, row);
        let after = core_dirtied(c, hits).cache;
        let open = unasked(
            relation_queries(c.cache, oid),
            c.cache.tables[oid],
            m,
            oid,
            idx,
            row,
            c.frame.invalidations,
        );
        EvalView {
            matched: hits.len() > 0,
            fresh: by_dirtyable(open, after, true),
            rest: by_dirtyable(open, after, false),
        }
    }
}

/// The state after that: every match dirtied its materialized result.
pub open spec fn membership_begun(
    c: CoreView,
    m: Map<u32, BatchView>,
    idx: usize,
    oid: u32,
    row: RowView,
) -> CoreView {
    if relation_queries(c.cache, oid).len() == 0 {
        c
    } else {
        core_dirtied(c, membership_hits(c, m, idx, oid, row))
    }
}

fn by_dirtyable_collect(core: &WriterCore, fps: &Vec<u64>, dirtyable: bool) -> (list: Vec<u64>)
    ensures
        list@ == by_dirtyable(fps@, core@.cache, dirtyable),
{
    let mut list: Vec<u64> = Vec::new();
    let mut i: usize = 0;
    while i < fps.len()
        invariant
            i <= fps.len(),
            list@ =~= by_dirtyable(fps@.take(i as int), core@.cache, dirtyable),
        decreases fps.len() - i,
    {
        proof {
            assert(fps@.take(i + 1).drop_last() =~= fps@.take(i as int));
        }
        if core.cache.mv_dirty_eval_required(fps[i]) == dirtyable {
            list.push(fps[i]);
        }
        i = i + 1;
    }
    proof {
        assert(fps@.take(i as int) =~= fps@);
    }
    list
}

impl WriterCore {
    /// Begin to evaluate a row's membership: everything that can be said
    /// without asking the cache database. `idx` is the event's index in the
    /// segment's answers.
    pub fn update_queries_execute_batch(
        &mut self,
        membership: &SegmentMembership,
        idx: usize,
        oid: u32,
        row: &Row,
    ) -> (plan: EvalPlan)
        ensures
            final(self)@ == membership_begun(
                old(self)@,
                membership@,
                idx,
                oid,
                row.deep_view(),
            ),
            plan@ == membership_plan(old(self)@, membership@, idx, oid, row.deep_view()),
    {
        let ghost c = self@;
        let ghost view = row.deep_view();
        let none = EvalPlan { matched: false, fresh: Vec::new(), rest: Vec::new() };
        proof {
            assert(none@.fresh =~= Seq::<u64>::empty());
            assert(none@.rest =~= Seq::<u64>::empty());
        }
        let queries = match self.cache.update_queries.get(&oid) {
            Some(u) => &u.queries,
            None => {
                return none;
            },
        };
        let table = match self.cache.tables.get(&oid) {
            Some(t) => t,
            None => {
                return none;
            },
        };
        if queries.len() == 0 {
            return none;
        }
        let mut hits: Vec<u64> = Vec::new();
        let mut open: Vec<u64> = Vec::new();
        let mut i: usize = 0;
        proof {
            assert(queries@ == relation_queries(c.cache, oid));
        }
        while i < queries.len()
            invariant
                i <= queries.len(),
                view == row.deep_view(),
                *self == *old(self),
                c == self@,
                hits@ =~= sure_hits(
                    queries@.take(i as int),
                    *table,
                    membership@,
                    oid,
                    idx,
                    view,
                    c.frame.invalidations,
                ),
                open@ =~= unasked(
                    queries@.take(i as int),
                    *table,
                    membership@,
                    oid,
                    idx,
                    view,
                    c.frame.invalidations,
                ),
            decreases queries.len() - i,
        {
            proof {
                assert(queries@.take(i + 1).drop_last() =~= queries@.take(i as int));
            }
            let q = &queries[i];
            if !fingerprint_contains(&self.frame.invalidations, q.fingerprint)
                && row_constraints_match(&q.constraints, table, row) {
                match q.eval_strategy {
                    UpdateEvalStrategy::LocalEval => {
                        if update_query_matches_locally(q, row) {
                            hits.push(q.fingerprint);
                        }
                    },
                    UpdateEvalStrategy::PgEval => {
                        if membership.covers(oid, idx, q.fingerprint) {
                            if membership.hit(oid, idx, q.fingerprint) {
                                hits.push(q.fingerprint);
                            }
                        } else {
                            open.push(q.fingerprint);
                        }
                    },
                }
            }
            i = i + 1;
        }
        proof {
            assert(queries@.take(i as int) =~= queries@);
        }
        self.cache.mv_dirty_mark_all(&hits);
        proof {
            assert(self@ =~= core_dirtied(c, hits@));
        }
        let fresh = by_dirtyable_collect(self, &open, true);
        let rest = by_dirtyable_collect(self, &open, false);
        EvalPlan { matched: hits.len() > 0, fresh, rest }
    }
}

} // verus!
