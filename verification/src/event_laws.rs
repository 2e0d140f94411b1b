//! What holds of every row event, and of what a batch does to the cached
//! queries and to the populations in flight.
use vstd::prelude::*;

use crate::cache::all_cdc_invalidated;
use crate::cache::cached_find;
use crate::cache::cached_marked;
use crate::cache::cached_without;
use crate::cache::cdc_invalidated;
use crate::cache::entries_dirtied;
use crate::cache::CachedView;
use crate::cache::CacheView;
use crate::cache::EffectView;
use crate::cache::EntryView;
use crate::deleted_keys::aborted_below;
use crate::deleted_keys::must_abort;
use crate::deleted_keys::recorded;
use crate::deleted_keys::tracks;
use crate::deleted_keys::DeletedKeysView;
use crate::dispatch::membership_begun;
use crate::dispatch::membership_hits;
use crate::dispatch::relation_queries;
use crate::dispatch::row_key;
use crate::frame::all_aborted;
use crate::frame::all_recorded;
use crate::handlers::insert_ops;
use crate::handlers::toast_ops;
use crate::handlers::update_ops;
use crate::keymap::RowKey;
use crate::mv::dirtied;
use crate::mv::MvState;
use crate::row_ops::boundary_stamped;
use crate::row_ops::delete_applied;
use crate::row_ops::delete_failure;
use crate::row_ops::truncate_evicted;
use crate::row_ops::RowOp;
use crate::segment::BatchView;
use crate::writer_core::CoreView;
use crate::catalog::RowView;

verus! {

/// Whether a list of steps has one.
pub open spec fn takes(ops: Seq<RowOp>, op: RowOp) -> bool {
    ops.contains(op)
}

/// A row that a query holds is written; one that none holds is not, unless a
/// deletion of its key is tracked. A tracked deletion is always dropped.
pub proof fn inserted_row_is_written_when_held(matched: bool, tracks_deletion: bool)
    ensures
        takes(insert_ops(matched, tracks_deletion), RowOp::Upsert) == (matched || tracks_deletion),
        takes(insert_ops(matched, tracks_deletion), RowOp::Cancel),
        takes(insert_ops(matched, tracks_deletion), RowOp::MemoEntered),
{
    let ops = insert_ops(matched, tracks_deletion);
    if matched {
        assert(ops[0] == RowOp::Upsert);
        assert(ops[1] == RowOp::MemoEntered);
        assert(ops[2] == RowOp::Cancel);
    } else {
        assert(ops[0] == RowOp::MemoEntered);
        assert(ops[1] == RowOp::Cancel);
        if tracks_deletion {
            assert(ops[2] == RowOp::Upsert);
        }
    }
}

/// An UPDATE never leaves the old version in the cache table: the row is
/// written or removed, and so is the one under an old key. What the old version
/// may have been in is made stale.
pub proof fn updated_row_leaves_no_old_version(matched: bool, recording: bool, key_changed: bool)
    ensures
        ({
            let ops = update_ops(matched, recording, key_changed);
            &&& takes(ops, RowOp::Upsert) != takes(ops, RowOp::Delete { record: true })
            &&& takes(ops, RowOp::Upsert) == (matched || recording)
            &&& takes(ops, RowOp::DeleteKey) == key_changed
            &&& takes(ops, RowOp::DirtySource)
        }),
{
    let ops = update_ops(matched, recording, key_changed);
    if key_changed {
        assert(ops[ops.len() - 1] == RowOp::DeleteKey);
    }
    if matched {
        assert(ops[0] == RowOp::Upsert);
        assert(ops[2] == RowOp::DirtySource);
    } else if recording {
        assert(ops[1] == RowOp::Upsert);
        assert(ops[2] == RowOp::DirtySource);
    } else {
        assert(ops[0] == (RowOp::Delete { record: true }));
        assert(ops[1] == RowOp::DirtySource);
    }
}

/// An incomplete image is never written, and the row it stands for is removed.
pub proof fn incomplete_image_is_never_written(recording: bool, key_changed: bool)
    ensures
        ({
            let ops = toast_ops(recording, key_changed);
            &&& !takes(ops, RowOp::Upsert)
            &&& takes(ops, RowOp::Delete { record: !recording })
            &&& takes(ops, RowOp::DeleteKey) == key_changed
        }),
{
    let ops = toast_ops(recording, key_changed);
    assert(ops[1] == (RowOp::Delete { record: !recording }));
    if key_changed {
        assert(ops[2] == RowOp::DeleteKey);
    }
}

/// While populations are in flight over a relation, a row that is alive at the
/// origin is never recorded as lost: a merge that has it keeps it.
pub proof fn live_row_is_never_recorded_as_lost(matched: bool, key_changed: bool)
    ensures
        !takes(update_ops(matched, true, key_changed), RowOp::Delete { record: true }),
        !takes(toast_ops(true, key_changed), RowOp::Delete { record: true }),
{
    updated_row_leaves_no_old_version(matched, true, key_changed);
    incomplete_image_is_never_written(true, key_changed);
}

/// Whether a removed row stays out of every merge of a population with the
/// given snapshot: its key is tracked, or the population aborts.
pub open spec fn stays_out(m: DeletedKeysView, oid: u32, key: Seq<char>, snapshot_lsn: u64) -> bool {
    tracks(m, oid, key) || must_abort(m, oid, snapshot_lsn)
}

proof fn lemma_record_keeps(
    m: DeletedKeysView,
    oid: u32,
    key: Seq<char>,
    other: RowKey,
    lsn: u64,
    snapshot_lsn: u64,
)
    requires
        snapshot_lsn < lsn,
        stays_out(m, oid, key, snapshot_lsn),
    ensures
        stays_out(recorded(m, other.0, other.1, lsn), oid, key, snapshot_lsn),
{
    if m.contains_key(other.0) && other.0 == oid && tracks(m, oid, key) {
        let r = m[oid];
        let i = choose|i: int| 0 <= i < r.keys.len() && r.keys[i] == key;
        let after = r.keys.push(other.1);
        assert(after[i] == key);
    }
}

proof fn lemma_all_recorded(
    m: DeletedKeysView,
    keys: Seq<RowKey>,
    lsn: u64,
    k: int,
    snapshot_lsn: u64,
)
    requires
        0 <= k < keys.len(),
        m.contains_key(keys[k].0),
        snapshot_lsn < lsn,
    ensures
        stays_out(all_recorded(m, keys, lsn), keys[k].0, keys[k].1, snapshot_lsn),
    decreases keys.len(),
{
    let short = keys.drop_last();
    lemma_recorded_domain(m, short, lsn);
    if k < short.len() {
        lemma_all_recorded(m, short, lsn, k, snapshot_lsn);
        lemma_record_keeps(
            all_recorded(m, short, lsn),
            keys[k].0,
            keys[k].1,
            keys.last(),
            lsn,
            snapshot_lsn,
        );
    } else {
        let before = all_recorded(m, short, lsn);
        crate::deleted_keys::recorded_key_is_tracked_or_aborts(
            before,
            keys[k].0,
            keys[k].1,
            lsn,
            snapshot_lsn,
        );
    }
}

proof fn lemma_recorded_domain(m: DeletedKeysView, keys: Seq<RowKey>, lsn: u64)
    ensures
        all_recorded(m, keys, lsn).dom() == m.dom(),
    decreases keys.len(),
{
    if keys.len() > 0 {
        lemma_recorded_domain(m, keys.drop_last(), lsn);
        assert(all_recorded(m, keys, lsn).dom() =~= m.dom());
    }
}

proof fn lemma_all_aborted(m: DeletedKeysView, oids: Seq<u32>, lsn: u64)
    ensures
        all_aborted(m, oids, lsn).dom() == m.dom(),
        forall|o: u32|
            #[trigger] m.contains_key(o) ==> all_aborted(m, oids, lsn)[o].keys == m[o].keys
                && all_aborted(m, oids, lsn)[o].abort_lsn >= m[o].abort_lsn && (oids.contains(o)
                ==> all_aborted(m, oids, lsn)[o].abort_lsn >= lsn),
    decreases oids.len(),
{
    if oids.len() > 0 {
        let short = oids.drop_last();
        lemma_all_aborted(m, short, lsn);
        let before = all_aborted(m, short, lsn);
        let after = all_aborted(m, oids, lsn);
        assert(after == aborted_below(before, oids.last(), lsn));
        assert(after.dom() =~= m.dom());
        assert forall|o: u32| #[trigger] m.contains_key(o) implies after[o].keys == m[o].keys
            && after[o].abort_lsn >= m[o].abort_lsn && (oids.contains(o) ==> after[o].abort_lsn
            >= lsn) by {
            assert(before.contains_key(o));
            if oids.contains(o) {
                let i = choose|i: int| 0 <= i < oids.len() && oids[i] == o;
                if i < short.len() {
                    assert(short[i] == o);
                    assert(short.contains(o));
                }
            }
        }
    }
}

/// A deleted row stays out of every population that was in flight: from its
/// commit on, the key is tracked, or populations with an older snapshot abort.
pub proof fn deleted_row_stays_out_of_merges(
    c: CoreView,
    oid: u32,
    row: RowView,
    lsn: u64,
    snapshot_lsn: u64,
)
    requires
        delete_failure(c.cache, oid, row) is None,
        row_key(c.cache, oid, row) is Some,
        c.keys.contains_key(oid),
        snapshot_lsn < lsn,
    ensures
        ({
            let after = boundary_stamped(delete_applied(c, oid, row, true), lsn);
            stays_out(after.keys, oid, (row_key(c.cache, oid, row)->0).1, snapshot_lsn)
        }),
{
    let deleted = delete_applied(c, oid, row, true);
    let key = row_key(c.cache, oid, row)->0;
    let keys = deleted.frame.deleted_keys;
    assert(keys == c.frame.deleted_keys.push(key));
    assert(keys[keys.len() - 1] == key);
    lemma_all_recorded(deleted.keys, keys, lsn, keys.len() - 1, snapshot_lsn);
    lemma_recorded_domain(deleted.keys, keys, lsn);
    let noted = all_recorded(deleted.keys, keys, lsn);
    lemma_all_aborted(noted, deleted.frame.truncated_relations, lsn);
    assert(noted.contains_key(oid));
}

/// After a TRUNCATE's commit, populations over its relations with an older
/// snapshot abort: none brings a truncated row back.
pub proof fn truncated_relation_aborts_older_populations(
    c: CoreView,
    oids: Seq<u32>,
    oid: u32,
    lsn: u64,
    snapshot_lsn: u64,
)
    requires
        oids.contains(oid),
        c.keys.contains_key(oid),
        snapshot_lsn < lsn,
    ensures
        must_abort(boundary_stamped(truncate_evicted(c, oids), lsn).keys, oid, snapshot_lsn),
{
    let evicted = truncate_evicted(c, oids);
    let relations = evicted.frame.truncated_relations;
    assert(relations == c.frame.truncated_relations + oids);
    let i = choose|i: int| 0 <= i < oids.len() && oids[i] == oid;
    assert(relations[c.frame.truncated_relations.len() + i] == oid);
    assert(relations.contains(oid));
    lemma_recorded_domain(evicted.keys, evicted.frame.deleted_keys, lsn);
    let noted = all_recorded(evicted.keys, evicted.frame.deleted_keys, lsn);
    assert(noted.contains_key(oid));
    lemma_all_aborted(noted, relations, lsn);
}

proof fn lemma_dirtied(m: Map<u64, EntryView>, fps: Seq<u64>)
    ensures
        entries_dirtied(m, fps).dom() == m.dom(),
        forall|fp: u64|
            #[trigger] m.contains_key(fp) && fps.contains(fp) ==> dirtied(
                entries_dirtied(m, fps)[fp].mv_state,
            ) is None,
        forall|fp: u64|
            #[trigger] m.contains_key(fp) && dirtied(m[fp].mv_state) is None ==> dirtied(
                entries_dirtied(m, fps)[fp].mv_state,
            ) is None,
    decreases fps.len(),
{
    if fps.len() > 0 {
        let short = fps.drop_last();
        lemma_dirtied(m, short);
        let before = entries_dirtied(m, short);
        let after = entries_dirtied(m, fps);
        assert(after.dom() =~= m.dom());
        assert forall|fp: u64| #[trigger] m.contains_key(fp) && fps.contains(fp) implies dirtied(
            after[fp].mv_state,
        ) is None by {
            assert(before.contains_key(fp));
            if fp != fps.last() {
                let i = choose|i: int| 0 <= i < fps.len() && fps[i] == fp;
                assert(short[i] == fp);
                assert(short.contains(fp));
            }
        }
        assert forall|fp: u64| #[trigger] m.contains_key(fp) && dirtied(m[fp].mv_state) is None
            implies dirtied(after[fp].mv_state) is None by {
            assert(before.contains_key(fp));
        }
    }
}

/// No materialized result that a matching row dirties stays fresh: once a query
/// is known to hold the row, its result is rebuilt before it is served.
pub proof fn matched_result_is_never_fresh(
    c: CoreView,
    m: Map<u32, BatchView>,
    idx: usize,
    oid: u32,
    row: RowView,
    fp: u64,
)
    requires
        membership_hits(c, m, idx, oid, row).contains(fp),
        relation_queries(c.cache, oid).len() > 0,
        c.cache.entries.contains_key(fp),
    ensures
        membership_begun(c, m, idx, oid, row).cache.entries[fp].mv_state != MvState::Fresh,
{
    lemma_dirtied(c.cache.entries, membership_hits(c, m, idx, oid, row));
}

/// Whether a query was dealt with after it was flagged: it is gone, or marked
/// invalidated, or pinned and asked to be populated anew.
pub open spec fn is_dealt_with(c: CacheView, fp: u64) -> bool {
    match cached_find(c.cached, fp) {
        None => true,
        Some(q) => q.invalidated || q.pinned && c.effects.contains(
            EffectView::Readmit { fingerprint: fp },
        ),
    }
}

proof fn lemma_find_push(cached: Seq<CachedView>, q: CachedView, fp: u64)
    ensures
        cached_find(cached.push(q), fp) == (match cached_find(cached, fp) {
            Some(found) => Some(found),
            None => if q.fingerprint == fp {
                Some(q)
            } else {
                None
            },
        }),
    decreases cached.len(),
{
    if cached.len() == 0 {
        assert(cached.push(q)[0] == q);
        assert(cached.push(q).drop_first() =~= cached);
    } else {
        assert(cached.push(q)[0] == cached[0]);
        assert(cached.push(q).drop_first() =~= cached.drop_first().push(q));
        lemma_find_push(cached.drop_first(), q, fp);
    }
}

proof fn lemma_find_without(cached: Seq<CachedView>, gone: u64, fp: u64)
    ensures
        cached_find(cached_without(cached, gone), fp) == if fp == gone {
            None
        } else {
            cached_find(cached, fp)
        },
    decreases cached.len(),
{
    if cached.len() > 0 {
        let short = cached.drop_last();
        lemma_find_without(short, gone, fp);
        assert(short.push(cached.last()) =~= cached);
        lemma_find_push(short, cached.last(), fp);
        lemma_find_push(cached_without(short, gone), cached.last(), fp);
    }
}

proof fn lemma_find_marked(cached: Seq<CachedView>, marked: u64, fp: u64)
    ensures
        cached_find(cached_marked(cached, marked), fp) == (match cached_find(cached, fp) {
            Some(q) => Some(
                if fp == marked {
                    CachedView { invalidated: true, ..q }
                } else {
                    q
                },
            ),
            None => None,
        }),
    decreases cached.len(),
{
    if cached.len() > 0 {
        assert(cached_marked(cached, marked).drop_first() =~= cached_marked(
            cached.drop_first(),
            marked,
        ));
        lemma_find_marked(cached.drop_first(), marked, fp);
    }
}

proof fn lemma_pushed<T>(list: Seq<T>, item: T, x: T)
    requires
        list.contains(x) || x == item,
    ensures
        list.push(item).contains(x),
{
    if list.contains(x) {
        let i = choose|i: int| 0 <= i < list.len() && list[i] == x;
        assert(list.push(item)[i] == x);
    } else {
        assert(list.push(item)[list.len() as int] == x);
    }
}

proof fn lemma_effects_grow(c: CacheView, fp: u64, locks_held: bool, e: EffectView)
    requires
        c.effects.contains(e),
    ensures
        cdc_invalidated(c, fp, locks_held).effects.contains(e),
{
    let after = cdc_invalidated(c, fp, locks_held);
    assert(after.effects.len() >= c.effects.len());
    let i = choose|i: int| 0 <= i < c.effects.len() && c.effects[i] == e;
    assert(after.effects[i] == e);
}

proof fn lemma_invalidated_step(c: CacheView, done: u64, fp: u64, locks_held: bool)
    requires
        is_dealt_with(c, fp) || done == fp,
    ensures
        is_dealt_with(cdc_invalidated(c, done, locks_held), fp),
{
    let after = cdc_invalidated(c, done, locks_held);
    lemma_find_without(c.cached, done, fp);
    lemma_find_marked(c.cached, done, fp);
    let readmit = EffectView::Readmit { fingerprint: fp };
    if c.effects.contains(readmit) {
        lemma_effects_grow(c, done, locks_held, readmit);
    }
    if done == fp && cached_find(c.cached, fp) is Some && (cached_find(c.cached, fp)->0).pinned {
        lemma_pushed(c.effects, readmit, readmit);
        lemma_pushed(
            c.effects.push(readmit),
            EffectView::WaitersFail { fingerprint: fp },
            readmit,
        );
    }
}

/// No flagged query is served on after the flush: each is gone, marked
/// invalidated, or, when it is pinned, asked to be populated anew.
pub proof fn flagged_queries_are_dealt_with(
    c: CacheView,
    fps: Seq<u64>,
    locks_held: bool,
    fp: u64,
)
    requires
        fps.contains(fp),
    ensures
        is_dealt_with(all_cdc_invalidated(c, fps, locks_held), fp),
    decreases fps.len(),
{
    let short = fps.drop_last();
    let before = all_cdc_invalidated(c, short, locks_held);
    let i = choose|i: int| 0 <= i < fps.len() && fps[i] == fp;
    if fps.last() != fp {
        assert(short[i] == fp);
        assert(short.contains(fp));
        flagged_queries_are_dealt_with(c, short, locks_held, fp);
    }
    lemma_invalidated_step(before, fps.last(), fp, locks_held);
}

} // verus!
