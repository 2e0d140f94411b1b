//! How a row event is handled: what is checked before its row is evaluated,
//! which steps it takes then, and that it takes them all.
use vstd::prelude::*;

use crate::catalog::RowView;
use crate::deadlock::is_deadlock;
use crate::dispatch::deletion_tracked;
use crate::dispatch::memo_accumulated;
use crate::error::CacheError;
use crate::event::EventView;
use crate::frame::lemma_with_all_distinct;
use crate::frame::with_all_distinct;
use crate::frame::FrameState;
use crate::handlers::insert_ops;
use crate::handlers::known_changes;
use crate::handlers::needs_changes;
use crate::handlers::toast_ops;
use crate::handlers::update_ops;
use crate::invalidation::CdcOperation;
use crate::invalidation::ColumnChange;
use crate::replay::matching;
use crate::replay::replay_answered;
use crate::replay::replay_step;
use crate::replay::segment_end;
use crate::replay::slots_by_relation;
use crate::replay::update_started;
use crate::replay::ReplayReplyView;
use crate::replay::ReplayStage;
use crate::replay::ReplayView;
use crate::row_ops::change_invalidates;
use crate::row_ops::entered;
use crate::row_ops::op_applied;
use crate::row_ops::op_failure;
use crate::row_ops::removed_from;
use crate::row_ops::RowOp;
use crate::toast::source_image;
use crate::toast::PendingView;
use crate::writer_core::CoreView;

verus! {

/// Whether a replay is about to begin its next event.
pub open spec fn begins_event(r: ReplayView, c: CoreView) -> bool {
    &&& r.stage == ReplayStage::Event
    &&& c.frame.state != FrameState::Recovering
    &&& 0 <= r.next < r.end <= r.events.len()
}

/// Whether a query is flagged after, exactly if it was before or is listed.
pub open spec fn flags_exactly(before: Seq<u64>, listed: Seq<u64>, after: Seq<u64>) -> bool {
    forall|fp: u64| #[trigger]
        after.contains(fp) <==> before.contains(fp) || listed.contains(fp)
}

/// An inserted row of a known relation flags exactly the queries that it
/// invalidates, and is evaluated next. One of an unknown relation is passed over,
/// and nothing changes.
pub proof fn inserted_row_is_checked_first(
    r: ReplayView,
    c: CoreView,
    oid: u32,
    row: RowView,
)
    requires
        begins_event(r, c),
        r.events[r.next] == (EventView::Insert { relation_oid: oid, row_data: row }),
    ensures
        ({
            let o = replay_step(r, c);
            &&& o.error is None
            &&& c.cache.tables.contains_key(oid) ==> o.replay.stage == ReplayStage::Fresh
                && o.replay.next == r.next && flags_exactly(
                c.frame.invalidations,
                change_invalidates(c.cache, oid, None, row, None, CdcOperation::Upsert),
                o.core.frame.invalidations,
            )
            &&& !c.cache.tables.contains_key(oid) ==> o.core == c && o.replay.next == r.next + 1
                && o.replay.stage == ReplayStage::Event
            &&& o.core.frame.buf == c.frame.buf
        }),
{
    reveal(replay_step);
    lemma_with_all_distinct(
        c.frame.invalidations,
        change_invalidates(c.cache, oid, None, row, None, CdcOperation::Upsert),
    );
}

/// An updated row of a known relation whose changes are known, or matter to no
/// query, flags exactly the queries that it invalidates, and marks the memos that
/// the new version entered and the old one may have been in; it is evaluated next.
/// Where its changes matter and are not known, they are asked for first.
pub proof fn updated_row_is_checked_first(
    r: ReplayView,
    c: CoreView,
    oid: u32,
    key: RowView,
    row: RowView,
    answer: Option<Option<Seq<ColumnChange>>>,
)
    requires
        c.cache.tables.contains_key(oid),
    ensures
        ({
            let o = update_started(r, c, oid, key, row, answer);
            let known = known_changes(c, r.eval.membership, r.next as usize, oid, row, answer);
            let memos = memo_accumulated(
                memo_accumulated(
                    c.frame.memo_evictions,
                    c.cache.memo,
                    oid,
                    entered(c.cache, oid, row),
                ),
                c.cache.memo,
                oid,
                removed_from(c.cache, oid, source_image(key, row), true),
            );
            &&& !needs_changes(c.cache, oid) ==> o.replay.stage == ReplayStage::Fresh
                && o.core.frame.invalidations == c.frame.invalidations
                && o.core.frame.memo_evictions == memos
            &&& needs_changes(c.cache, oid) && known is None ==> o.replay.stage
                == ReplayStage::Changes && o.core == c
            &&& needs_changes(c.cache, oid) && known is Some && o.error is None ==> {
                &&& o.replay.stage == ReplayStage::Fresh
                &&& flags_exactly(
                    c.frame.invalidations,
                    change_invalidates(
                        c.cache,
                        oid,
                        known->0,
                        row,
                        Some(key),
                        CdcOperation::Upsert,
                    ),
                    o.core.frame.invalidations,
                )
                &&& o.core.frame.memo_evictions == memos
            }
            &&& o.error is Some ==> o.error == Some(CacheError::ColumnMissing)
        }),
{
    let known = known_changes(c, r.eval.membership, r.next as usize, oid, row, answer);
    if known is Some {
        lemma_with_all_distinct(
            c.frame.invalidations,
            change_invalidates(c.cache, oid, known->0, row, Some(key), CdcOperation::Upsert),
        );
    }
}

/// Once the queries over an incomplete image were asked, those that are flagged
/// without asking and those that hold the row are flagged, and no other.
pub proof fn incomplete_image_flags_what_was_found(r: ReplayView, c: CoreView)
    requires
        r.stage == ReplayStage::Toast,
        r.asked_from >= r.fresh.len(),
    ensures
        ({
            let o = replay_step(r, c);
            &&& o.replay.stage == ReplayStage::Plan
            &&& flags_exactly(
                c.frame.invalidations,
                r.flagged + r.hits,
                o.core.frame.invalidations,
            )
        }),
{
    reveal(replay_step);
    lemma_with_all_distinct(c.frame.invalidations, r.flagged);
    lemma_with_all_distinct(with_all_distinct(c.frame.invalidations, r.flagged), r.hits);
    let o = replay_step(r, c);
    let both = r.flagged + r.hits;
    assert forall|fp: u64| #[trigger] o.core.frame.invalidations.contains(fp)
        <==> c.frame.invalidations.contains(fp) || both.contains(fp) by {
        if r.flagged.contains(fp) {
            let k = choose|k: int| 0 <= k < r.flagged.len() && r.flagged[k] == fp;
            assert(both[k] == fp);
        }
        if r.hits.contains(fp) {
            let k = choose|k: int| 0 <= k < r.hits.len() && r.hits[k] == fp;
            assert(both[r.flagged.len() + k] == fp);
        }
        if both.contains(fp) {
            let k = choose|k: int| 0 <= k < both.len() && both[k] == fp;
            if k < r.flagged.len() {
                assert(r.flagged[k] == fp);
            } else {
                assert(r.hits[k - r.flagged.len()] == fp);
            }
        }
    }
}

/// What is done about a row follows from its event and from whether a query
/// holds it: an inserted row is written if one does, or if a deletion of its key
/// is tracked; an updated row is written if one does, or while populations are
/// in flight, and removed otherwise; the row under a changed key is removed; an
/// incomplete image removes its row.
pub proof fn row_is_written_or_removed(r: ReplayView, c: CoreView)
    requires
        r.stage == ReplayStage::Plan,
        0 <= r.next < r.events.len(),
    ensures
        ({
            let o = replay_step(r, c);
            let ops = o.replay.ops;
            &&& o.replay.stage == ReplayStage::Ops
            &&& o.replay.op_at == 0
            &&& o.core == c
            &&& match r.events[r.next] {
                EventView::Insert { relation_oid, row_data } => {
                    &&& ops.contains(RowOp::Upsert) <==> r.matched || deletion_tracked(
                        c,
                        relation_oid,
                        row_data,
                    )
                    &&& ops.contains(RowOp::Cancel)
                    &&& ops.contains(RowOp::MemoEntered)
                    &&& !ops.contains(RowOp::DeleteKey)
                },
                EventView::Update { relation_oid, key_data, .. } => {
                    let recording = c.keys.contains_key(relation_oid);
                    &&& ops.contains(RowOp::Upsert) <==> r.matched || recording
                    &&& ops.contains(RowOp::Cancel) <==> r.matched || recording
                    &&& ops.contains(RowOp::Delete { record: true }) <==> !(r.matched || recording)
                    &&& ops.contains(RowOp::DeleteKey) <==> key_data.len() > 0
                    &&& ops.contains(RowOp::DirtySource)
                },
                EventView::UpdateToasted { relation_oid, key_data, .. } => {
                    &&& !ops.contains(RowOp::Upsert)
                    &&& ops.contains(
                        RowOp::Delete { record: !c.keys.contains_key(relation_oid) },
                    )
                    &&& ops.contains(RowOp::DeleteKey) <==> key_data.len() > 0
                    &&& ops.contains(RowOp::DirtySource)
                },
                EventView::UpdateToastFallback { relation_oid, key_data, .. } => {
                    &&& !ops.contains(RowOp::Upsert)
                    &&& ops.contains(
                        RowOp::Delete { record: !c.keys.contains_key(relation_oid) },
                    )
                    &&& ops.contains(RowOp::DeleteKey) <==> key_data.len() > 0
                    &&& ops.contains(RowOp::DirtySource)
                },
                _ => true,
            }
        }),
{
    reveal(replay_step);
    match r.events[r.next] {
        EventView::Insert { relation_oid, row_data } => {
            lemma_insert_steps(r.matched, deletion_tracked(c, relation_oid, row_data));
        },
        EventView::Update { relation_oid, key_data, .. } => {
            lemma_update_steps(r.matched, c.keys.contains_key(relation_oid), key_data.len() > 0);
        },
        EventView::UpdateToasted { relation_oid, key_data, .. } => {
            lemma_toast_steps(c.keys.contains_key(relation_oid), key_data.len() > 0);
        },
        EventView::UpdateToastFallback { relation_oid, key_data, .. } => {
            lemma_toast_steps(c.keys.contains_key(relation_oid), key_data.len() > 0);
        },
        _ => {},
    }
}

proof fn lemma_insert_steps(matched: bool, deleted_before: bool)
    ensures
        ({
            let ops = insert_ops(matched, deleted_before);
            &&& ops.contains(RowOp::Upsert) <==> matched || deleted_before
            &&& ops.contains(RowOp::Cancel)
            &&& ops.contains(RowOp::MemoEntered)
            &&& !ops.contains(RowOp::DeleteKey)
        }),
{
    let ops = insert_ops(matched, deleted_before);
    if matched {
        assert(ops[0] == RowOp::Upsert && ops[1] == RowOp::MemoEntered && ops[2] == RowOp::Cancel);
    } else {
        assert(ops[0] == RowOp::MemoEntered && ops[1] == RowOp::Cancel);
        if deleted_before {
            assert(ops[2] == RowOp::Upsert);
        }
    }
}

proof fn lemma_update_steps(matched: bool, recording: bool, key_changed: bool)
    ensures
        ({
            let ops = update_ops(matched, recording, key_changed);
            &&& ops.contains(RowOp::Upsert) <==> matched || recording
            &&& ops.contains(RowOp::Cancel) <==> matched || recording
            &&& ops.contains(RowOp::Delete { record: true }) <==> !(matched || recording)
            &&& ops.contains(RowOp::DeleteKey) <==> key_changed
            &&& ops.contains(RowOp::DirtySource)
        }),
{
    let ops = update_ops(matched, recording, key_changed);
    if matched {
        assert(ops[0] == RowOp::Upsert && ops[1] == RowOp::Cancel && ops[2] == RowOp::DirtySource);
    } else if recording {
        assert(ops[0] == RowOp::Cancel && ops[1] == RowOp::Upsert && ops[2] == RowOp::DirtySource);
    } else {
        assert(ops[0] == (RowOp::Delete { record: true }) && ops[1] == RowOp::DirtySource);
    }
    if key_changed {
        assert(ops[ops.len() - 1] == RowOp::DeleteKey);
    }
}

proof fn lemma_toast_steps(recording: bool, key_changed: bool)
    ensures
        ({
            let ops = toast_ops(recording, key_changed);
            &&& !ops.contains(RowOp::Upsert)
            &&& ops.contains(RowOp::Delete { record: !recording })
            &&& ops.contains(RowOp::DeleteKey) <==> key_changed
            &&& ops.contains(RowOp::DirtySource)
        }),
{
    let ops = toast_ops(recording, key_changed);
    assert(ops[0] == RowOp::DirtySource && ops[1] == (RowOp::Delete { record: !recording }));
    if key_changed {
        assert(ops[2] == RowOp::DeleteKey);
    }
}

/// A deleted row of a known relation is removed, its key kept for populations in
/// flight, and what it may have been in goes stale or is flagged; a truncate
/// empties its tables and evicts; the end of a source transaction stamps what
/// was lost. Events of unknown relations take no step.
pub proof fn other_events_take_their_steps(r: ReplayView, c: CoreView)
    requires
        begins_event(r, c),
    ensures
        ({
            let o = replay_step(r, c);
            let ops = o.replay.ops;
            match r.events[r.next] {
                EventView::Delete { relation_oid, .. } => {
                    &&& o.replay.stage == ReplayStage::Ops && o.replay.op_at == 0 && o.core == c
                    &&& c.cache.tables.contains_key(relation_oid) ==> ops.contains(
                        RowOp::Delete { record: true },
                    ) && ops.contains(RowOp::MemoRemoved) && ops.contains(RowOp::DirtyRemoved)
                        && ops.contains(RowOp::FlagRemoved) && !ops.contains(RowOp::Upsert)
                    &&& !c.cache.tables.contains_key(relation_oid) ==> ops.len() == 0
                },
                EventView::Truncate { .. } => {
                    &&& o.replay.stage == ReplayStage::Ops && o.replay.op_at == 0 && o.core == c
                    &&& ops.contains(RowOp::TruncateWrite) && ops.contains(RowOp::TruncateEvict)
                },
                EventView::Boundary { .. } => {
                    &&& o.replay.stage == ReplayStage::Ops && o.replay.op_at == 0 && o.core == c
                    &&& ops == seq![RowOp::Stamp]
                },
                _ => true,
            }
        }),
{
    reveal(replay_step);
    let ops = replay_step(r, c).replay.ops;
    match r.events[r.next] {
        EventView::Delete { relation_oid, .. } => {
            if c.cache.tables.contains_key(relation_oid) {
                assert(ops[0] == (RowOp::Delete { record: true }));
                assert(ops[1] == RowOp::MemoRemoved);
                assert(ops[2] == RowOp::DirtyRemoved);
                assert(ops[3] == RowOp::FlagRemoved);
            }
        },
        EventView::Truncate { .. } => {
            assert(ops[0] == RowOp::TruncateWrite);
            assert(ops[1] == RowOp::TruncateEvict);
        },
        _ => {},
    }
}

/// An event's steps are taken one after the other, each exactly once, and the
/// event is over only when all of them were.
pub proof fn every_step_is_taken(r: ReplayView, c: CoreView)
    requires
        r.stage == ReplayStage::Ops,
        0 <= r.next < r.events.len(),
        0 <= r.op_at <= r.ops.len(),
    ensures
        ({
            let o = replay_step(r, c);
            if r.op_at < r.ops.len() {
                &&& o.core == op_applied(c, r.events[r.next], r.ops[r.op_at])
                &&& o.error == op_failure(c, r.events[r.next], r.ops[r.op_at])
                &&& o.error is None ==> o.replay.op_at == r.op_at + 1
                &&& o.replay.next == r.next
                &&& o.replay.ops == r.ops
            } else {
                &&& o.core == c
                &&& o.error is None
                &&& o.replay.next == r.next + 1
                &&& o.replay.stage == ReplayStage::Event
            }
        }),
{
    reveal(replay_step);
}

/// A statement that fails ends the replay with its error, unless it is a deadlock:
/// the batch then recovers, with what it held dropped, once what was sent of it
/// is rolled back.
pub proof fn deadlock_is_recovered_from(r: ReplayView, c: CoreView, error: CacheError)
    requires
        r.stage == ReplayStage::Sending || r.stage == ReplayStage::Changes,
    ensures
        ({
            let o = replay_answered(r, c, ReplayReplyView::Failed(error));
            if is_deadlock(error) && c.frame.state != FrameState::Recovering {
                &&& o.error is None
                &&& c.frame.chunk_flushed ==> o.replay.stage == ReplayStage::RollingBack && o.core
                    == c
                &&& !c.frame.chunk_flushed ==> o.replay.stage == ReplayStage::Done
                    && o.core.frame.state == FrameState::Recovering && o.core.frame.buf.len() == 0
                    && o.core.frame.rows.len() == 0 && o.core.frame.relation_oids
                    == c.frame.relation_oids && o.core.cache == c.cache
            } else {
                o.error == Some(error) && o.core == c
            }
        }),
        r.stage == ReplayStage::Sending ==> ({
            let o = replay_answered(r, c, ReplayReplyView::Sent);
            &&& o.error is None
            &&& o.replay.stage == ReplayStage::Ops
            &&& o.replay.op_at == r.op_at
            &&& o.core.frame.buf.len() == 0
        }),
{
    reveal(replay_answered);
}

/// A segment ends behind its first TRUNCATE, or with the events.
pub proof fn truncate_ends_its_segment(events: Seq<EventView>, from: int)
    requires
        0 <= from < events.len(),
    ensures
        ({
            let end = segment_end(events, from);
            &&& from < end <= events.len()
            &&& end == events.len() || events[end - 1] is Truncate
            &&& forall|i: int| from <= i < end - 1 ==> !((#[trigger] events[i]) is Truncate)
        }),
    decreases events.len() - from,
{
    if !(events[from] is Truncate) && from + 1 < events.len() {
        truncate_ends_its_segment(events, from + 1);
    } else if !(events[from] is Truncate) {
        assert(segment_end(events, from + 1) == events.len());
    }
}

/// The queries that hold the row are those that were answered to.
pub proof fn answered_queries_hold_the_row(asked: Seq<u64>, matches: Seq<bool>, fp: u64)
    ensures
        matching(asked, matches).contains(fp) <==> exists|i: int|
            0 <= i < asked.len() && i < matches.len() && matches[i] && (#[trigger] asked[i]) == fp,
    decreases asked.len(),
{
    if asked.len() > 0 {
        let short = asked.drop_last();
        answered_queries_hold_the_row(short, matches, fp);
        let rest = matching(short, matches);
        let all = matching(asked, matches);
        let n = asked.len() - 1;
        if all.contains(fp) {
            let k = choose|k: int| 0 <= k < all.len() && all[k] == fp;
            if k < rest.len() {
                assert(rest[k] == fp);
                let i = choose|i: int|
                    0 <= i < short.len() && i < matches.len() && matches[i] && (#[trigger] short[i])
                        == fp;
                assert(asked[i] == fp);
            } else {
                assert(asked[n] == fp);
            }
        }
        if exists|i: int|
            0 <= i < asked.len() && i < matches.len() && matches[i] && (#[trigger] asked[i])
                == fp {
            let i = choose|i: int|
                0 <= i < asked.len() && i < matches.len() && matches[i] && (#[trigger] asked[i])
                    == fp;
            if i < n {
                assert(short[i] == fp);
                let k = choose|k: int| 0 <= k < rest.len() && rest[k] == fp;
                assert(all[k] == fp);
            } else {
                assert(all[rest.len() as int] == fp);
            }
        }
    }
}

/// Pending repairs are grouped by their relation, in order.
pub proof fn repairs_are_grouped_by_relation(pending: Seq<PendingView>, oid: u32, inside: bool)
    ensures
        slots_by_relation(pending, oid, inside) == pending.filter(
            |p: PendingView| (p.relation_oid == oid) == inside,
        ),
    decreases pending.len(),
{
    reveal(Seq::filter);
    if pending.len() > 0 {
        repairs_are_grouped_by_relation(pending.drop_last(), oid, inside);
    }
}

/// What is known of a change is what the segment's answers say, and else what
/// the cache database was asked; of a key that the batch deleted before, that
/// its row is not cached.
pub proof fn deleted_key_is_not_cached(
    c: CoreView,
    m: Map<u32, crate::segment::BatchView>,
    idx: usize,
    oid: u32,
    row: RowView,
    answer: Option<Option<Seq<ColumnChange>>>,
)
    ensures
        ({
            let known = known_changes(c, m, idx, oid, row, answer);
            let key = crate::dispatch::row_key(c.cache, oid, row);
            &&& key is Some && c.frame.batch_deleted_pks.contains(key->0) ==> known == Some(
                None::<Seq<ColumnChange>>,
            )
            &&& !(key is Some && c.frame.batch_deleted_pks.contains(key->0)) ==> known == (
            if crate::segment::batch_row_change(m, oid, idx) is Some {
                crate::segment::batch_row_change(m, oid, idx)
            } else {
                answer
            })
        }),
{
}

} // verus!
