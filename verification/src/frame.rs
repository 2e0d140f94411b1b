//! The state of a CDC batch: the frames (source transactions) collected since
//! the last flush, and the cache transaction being built for them.
use std::collections::HashSet;

use vstd::prelude::*;
use vstd::string::*;

use crate::deleted_keys::aborted_below;
use crate::deleted_keys::recorded;
use crate::deleted_keys::DeletedKeysView;
use crate::deleted_keys::PopulationDeletedKeys;
use crate::event::event_relation;
use crate::event::events_view;
use crate::event::EventView;
use crate::event::FrameRowEvent;
use crate::keymap::KeyMap;
use crate::keymap::RowKey;
use crate::toast::relation_voided;
use crate::toast::toast_empty;
use crate::toast::ToastState;
use crate::toast::ToastView;

verus! {

broadcast use vstd::std_specs::hash::group_hash_axioms;

/// Size in bytes at which the buffered statements are sent ahead of the
/// commit.
pub const FRAME_BUF_CAPACITY: usize = 262_144;

/// Buffered events at which the batch is replayed ahead of its flush.
pub const FRAME_ROWS_CAPACITY: usize = 4_096;

/// Frames a batch may collect before it is flushed.
pub const BATCH_FRAMES_MAX: usize = 256;

/// Where the batch's cache transaction is.
#[derive(Clone, Copy, Debug, PartialEq, Eq, Structural)]
pub enum FrameState {
    /// Between batches.
    Idle,
    /// Collecting, with no cache-table write yet.
    Active,
    /// A cache-table write is buffered: a `BEGIN` is owed or sent, and a
    /// `COMMIT` pending.
    TxnOpen,
    /// Deadlocked and rolled back: the rest of the batch is dropped, and its
    /// relations are recovered at the flush.
    Recovering,
}

/// A batch in progress.
pub struct Frame {
    pub state: FrameState,
    /// Whether a source transaction is open.
    pub open: bool,
    /// Statements of the cache transaction that were not sent yet.
    pub buf: String,
    /// Whether part of the cache transaction was sent.
    pub chunk_flushed: bool,
    /// Relations written by the cache transaction.
    pub buf_relations: HashSet<u32>,
    /// Relations the batch touched, in order of first touch.
    pub relation_oids: Vec<u32>,
    pub rows: Vec<FrameRowEvent>,
    /// Queries to invalidate with the commit, in order of first flagging.
    pub invalidations: Vec<u64>,
    /// Memoized queries whose result the batch may have changed.
    pub memo_evictions: Vec<u64>,
    /// Keys removed by the frame being replayed, until its commit LSN is known.
    pub deleted_keys: Vec<(u32, String)>,
    /// Relations emptied by the frame being replayed.
    pub truncated_relations: Vec<u32>,
    /// Relations emptied or redefined outside of replay.
    pub batch_truncated_relations: Vec<u32>,
    pub batch_frames: usize,
    pub batch_events: usize,
    /// Commit LSN of the last collected frame.
    pub batch_last_lsn: u64,
    /// Rows the batch deleted and did not write again.
    pub batch_deleted_pks: KeyMap<()>,
    pub toast: ToastState,
}

/// The mathematical value of a [`Frame`].
#[verifier::ext_equal]
pub struct FrameView {
    pub state: FrameState,
    pub open: bool,
    pub buf: Seq<char>,
    pub chunk_flushed: bool,
    pub buf_relations: Set<u32>,
    pub relation_oids: Seq<u32>,
    pub rows: Seq<EventView>,
    pub invalidations: Seq<u64>,
    pub memo_evictions: Seq<u64>,
    pub deleted_keys: Seq<RowKey>,
    pub truncated_relations: Seq<u32>,
    pub batch_truncated_relations: Seq<u32>,
    pub batch_frames: usize,
    pub batch_events: usize,
    pub batch_last_lsn: u64,
    pub batch_deleted_pks: Set<RowKey>,
    pub toast: ToastView,
}

/// The values of a list of row keys.
pub open spec fn row_keys(keys: Seq<(u32, String)>) -> Seq<RowKey> {
    Seq::new(keys.len(), |i: int| (keys[i].0, keys[i].1@))
}

impl View for Frame {
    type V = FrameView;

    open spec fn view(&self) -> FrameView {
        FrameView {
            state: self.state,
            open: self.open,
            buf: self.buf@,
            chunk_flushed: self.chunk_flushed,
            buf_relations: self.buf_relations@,
            relation_oids: self.relation_oids@,
            rows: events_view(self.rows@),
            invalidations: self.invalidations@,
            memo_evictions: self.memo_evictions@,
            deleted_keys: row_keys(self.deleted_keys@),
            truncated_relations: self.truncated_relations@,
            batch_truncated_relations: self.batch_truncated_relations@,
            batch_frames: self.batch_frames,
            batch_events: self.batch_events,
            batch_last_lsn: self.batch_last_lsn,
            batch_deleted_pks: self.batch_deleted_pks@.dom(),
            toast: self.toast@,
        }
    }
}

/// A list that keeps the first occurrence of each element.
pub open spec fn with_distinct<T>(list: Seq<T>, item: T) -> Seq<T> {
    if list.contains(item) {
        list
    } else {
        list.push(item)
    }
}

/// A list that keeps the first occurrence of each element, over several items.
pub open spec fn with_all_distinct<T>(list: Seq<T>, items: Seq<T>) -> Seq<T>
    decreases items.len(),
{
    if items.len() == 0 {
        list
    } else {
        with_distinct(with_all_distinct(list, items.drop_last()), items.last())
    }
}

/// Adding to such a list adds to the set of its elements.
pub proof fn lemma_with_all_distinct<T>(list: Seq<T>, items: Seq<T>)
    ensures
        forall|x: T|
            #[trigger] with_all_distinct(list, items).contains(x) <==> list.contains(x)
                || items.contains(x),
    decreases items.len(),
{
    if items.len() > 0 {
        let short = items.drop_last();
        lemma_with_all_distinct(list, short);
        let before = with_all_distinct(list, short);
        let after = with_all_distinct(list, items);
        assert forall|x: T| #[trigger] after.contains(x) <==> list.contains(x) || items.contains(
            x,
        ) by {
            if items.contains(x) {
                let i = choose|i: int| 0 <= i < items.len() && items[i] == x;
                if i < short.len() {
                    assert(short[i] == x);
                    assert(short.contains(x));
                }
            }
            if short.contains(x) {
                let i = choose|i: int| 0 <= i < short.len() && short[i] == x;
                assert(items[i] == x);
            }
            if before.contains(x) {
                let i = choose|i: int| 0 <= i < before.len() && before[i] == x;
                assert(after[i] == x);
            }
            if !before.contains(items.last()) {
                assert(after[before.len() as int] == items.last());
            }
            assert(items[items.len() - 1] == items.last());
            if after.contains(x) {
                let i = choose|i: int| 0 <= i < after.len() && after[i] == x;
                if i < before.len() {
                    assert(before[i] == x);
                }
            }
        }
    }
}

/// Whether a list of relations holds one.
pub fn oid_contains(list: &Vec<u32>, oid: u32) -> (found: bool)
    ensures
        found == list@.contains(oid),
{
    let mut i: usize = 0;
    while i < list.len()
        invariant
            i <= list.len(),
            forall|j: int| 0 <= j < i ==> list@[j] != oid,
        decreases list.len() - i,
    {
        if list[i] == oid {
            assert(list@[i as int] == oid);
            return true;
        }
        i = i + 1;
    }
    false
}

/// Add a relation unless the list has it.
pub fn oid_insert(list: &mut Vec<u32>, oid: u32)
    ensures
        final(list)@ == with_distinct(old(list)@, oid),
{
    if !oid_contains(list, oid) {
        list.push(oid);
    }
}

/// Add relations the list does not have.
pub fn oids_insert(list: &mut Vec<u32>, oids: &Vec<u32>)
    ensures
        final(list)@ == with_all_distinct(old(list)@, oids@),
{
    let ghost start = list@;
    let mut i: usize = 0;
    while i < oids.len()
        invariant
            i <= oids.len(),
            list@ == with_all_distinct(start, oids@.take(i as int)),
        decreases oids.len() - i,
    {
        proof {
            assert(oids@.take(i + 1).drop_last() =~= oids@.take(i as int));
        }
        oid_insert(list, oids[i]);
        i = i + 1;
    }
    proof {
        assert(oids@.take(i as int) =~= oids@);
    }
}

/// Whether a list of fingerprints holds one.
pub fn fingerprint_contains(list: &Vec<u64>, fingerprint: u64) -> (found: bool)
    ensures
        found == list@.contains(fingerprint),
{
    let mut i: usize = 0;
    while i < list.len()
        invariant
            i <= list.len(),
            forall|j: int| 0 <= j < i ==> list@[j] != fingerprint,
        decreases list.len() - i,
    {
        if list[i] == fingerprint {
            assert(list@[i as int] == fingerprint);
            return true;
        }
        i = i + 1;
    }
    false
}

/// Add a fingerprint unless the list has it.
pub fn fingerprint_insert(list: &mut Vec<u64>, fingerprint: u64)
    ensures
        final(list)@ == with_distinct(old(list)@, fingerprint),
{
    if !fingerprint_contains(list, fingerprint) {
        list.push(fingerprint);
    }
}

/// Add fingerprints the list does not have.
pub fn fingerprints_insert(list: &mut Vec<u64>, fingerprints: &Vec<u64>)
    ensures
        final(list)@ == with_all_distinct(old(list)@, fingerprints@),
{
    let ghost start = list@;
    let mut i: usize = 0;
    while i < fingerprints.len()
        invariant
            i <= fingerprints.len(),
            list@ == with_all_distinct(start, fingerprints@.take(i as int)),
        decreases fingerprints.len() - i,
    {
        proof {
            assert(fingerprints@.take(i + 1).drop_last() =~= fingerprints@.take(i as int));
        }
        fingerprint_insert(list, fingerprints[i]);
        i = i + 1;
    }
    proof {
        assert(fingerprints@.take(i as int) =~= fingerprints@);
    }
}

/// Between batches, nothing collected.
pub open spec fn frame_empty() -> FrameView {
    FrameView {
        state: FrameState::Idle,
        open: false,
        buf: Seq::empty(),
        chunk_flushed: false,
        buf_relations: Set::empty(),
        relation_oids: Seq::empty(),
        rows: Seq::empty(),
        invalidations: Seq::empty(),
        memo_evictions: Seq::empty(),
        deleted_keys: Seq::empty(),
        truncated_relations: Seq::empty(),
        batch_truncated_relations: Seq::empty(),
        batch_frames: 0,
        batch_events: 0,
        batch_last_lsn: 0,
        batch_deleted_pks: Set::empty(),
        toast: toast_empty(),
    }
}

/// A source transaction begins; it starts a batch when none is collecting.
pub open spec fn frame_begun(f: FrameView) -> FrameView {
    if f.state == FrameState::Idle {
        FrameView {
            open: true,
            state: FrameState::Active,
            buf: Seq::empty(),
            chunk_flushed: false,
            buf_relations: Set::empty(),
            rows: Seq::empty(),
            deleted_keys: Seq::empty(),
            truncated_relations: Seq::empty(),
            batch_deleted_pks: Set::empty(),
            toast: toast_empty(),
            ..f
        }
    } else {
        FrameView { open: true, ..f }
    }
}

/// The cache transaction is about to write the given relations: the first
/// write owes a `BEGIN`.
pub open spec fn txn_begun(f: FrameView, relations: Seq<u32>) -> FrameView {
    FrameView {
        buf: if f.state == FrameState::Active {
            f.buf + "BEGIN; "@
        } else {
            f.buf
        },
        state: if f.state == FrameState::Active {
            FrameState::TxnOpen
        } else {
            f.state
        },
        buf_relations: f.buf_relations.union(relations.to_set()),
        ..f
    }
}

/// Whether the buffered statements have to be sent ahead of the commit.
pub open spec fn chunk_full(buf: Seq<char>) -> bool {
    vstd::utf8::encode_utf8(buf).len() >= FRAME_BUF_CAPACITY
}

/// A buffered statement ends. When the buffer is full it goes out, and is
/// marked as sent even before it is, so that a failure knows of the `BEGIN`.
pub open spec fn write_finished(f: FrameView) -> FrameView {
    let buf = f.buf + "; "@;
    FrameView { buf, chunk_flushed: f.chunk_flushed || chunk_full(buf), ..f }
}

/// The buffered statements were sent.
pub open spec fn chunk_sent(f: FrameView) -> FrameView {
    FrameView { buf: Seq::empty(), ..f }
}

/// The cache transaction committed.
pub open spec fn txn_committed(f: FrameView) -> FrameView {
    FrameView {
        buf: Seq::empty(),
        buf_relations: Set::empty(),
        state: FrameState::Idle,
        ..f
    }
}

/// The cache transaction was lost: what it held is dropped.
pub open spec fn recovery_entered(f: FrameView) -> FrameView {
    FrameView {
        state: FrameState::Recovering,
        buf: Seq::empty(),
        buf_relations: Set::empty(),
        rows: Seq::empty(),
        deleted_keys: Seq::empty(),
        truncated_relations: Seq::empty(),
        batch_deleted_pks: Set::empty(),
        toast: toast_empty(),
        ..f
    }
}

/// The batch is over. What happens to the keys and relations it lost is
/// settled separately.
pub open spec fn batch_reset(f: FrameView) -> FrameView {
    FrameView {
        state: FrameState::Idle,
        invalidations: Seq::empty(),
        memo_evictions: Seq::empty(),
        relation_oids: Seq::empty(),
        buf: Seq::empty(),
        buf_relations: Set::empty(),
        rows: Seq::empty(),
        chunk_flushed: false,
        batch_frames: 0,
        batch_events: 0,
        batch_deleted_pks: Set::empty(),
        toast: toast_empty(),
        ..f
    }
}

/// An event joins the batch.
pub open spec fn event_collected(f: FrameView, e: EventView) -> FrameView {
    FrameView { rows: f.rows.push(e), batch_events: (f.batch_events + 1) as usize, ..f }
}

/// A source transaction ends at `lsn`.
pub open spec fn frame_closed(f: FrameView, lsn: u64) -> FrameView {
    FrameView {
        rows: f.rows.push(EventView::Boundary { commit_lsn: lsn }),
        batch_frames: (f.batch_frames + 1) as usize,
        batch_last_lsn: lsn,
        open: false,
        ..f
    }
}

/// Recording a list of removed keys.
pub open spec fn all_recorded(m: DeletedKeysView, keys: Seq<RowKey>, lsn: u64) -> DeletedKeysView
    decreases keys.len(),
{
    if keys.len() == 0 {
        m
    } else {
        recorded(all_recorded(m, keys.drop_last(), lsn), keys.last().0, keys.last().1, lsn)
    }
}

/// Aborting populations over a list of relations.
pub open spec fn all_aborted(m: DeletedKeysView, oids: Seq<u32>, lsn: u64) -> DeletedKeysView
    decreases oids.len(),
{
    if oids.len() == 0 {
        m
    } else {
        aborted_below(all_aborted(m, oids.drop_last(), lsn), oids.last(), lsn)
    }
}

/// What the frame being replayed removed, stamped with its commit LSN.
pub open spec fn losses_stamped(m: DeletedKeysView, f: FrameView, lsn: u64) -> DeletedKeysView {
    all_aborted(all_recorded(m, f.deleted_keys, lsn), f.truncated_relations, lsn)
}

/// The frame's losses were handed over.
pub open spec fn losses_cleared(f: FrameView) -> FrameView {
    FrameView { deleted_keys: Seq::empty(), truncated_relations: Seq::empty(), ..f }
}

/// The batch's events without those of one relation; truncates and commit
/// boundaries stay.
pub open spec fn rows_without(rows: Seq<EventView>, oid: u32) -> Seq<EventView>
    decreases rows.len(),
{
    if rows.len() == 0 {
        rows
    } else {
        let rest = rows_without(rows.drop_last(), oid);
        if event_relation(rows.last()) == Some(oid) {
            rest
        } else {
            rest.push(rows.last())
        }
    }
}

/// A relation was redefined and its events are still unreplayed: they are
/// dropped with its images, and its populations will abort if any was dropped.
pub open spec fn relation_discarded(f: FrameView, oid: u32) -> FrameView {
    let rows = rows_without(f.rows, oid);
    FrameView {
        rows,
        toast: relation_voided(f.toast, oid),
        batch_truncated_relations: if rows.len() != f.rows.len() {
            f.batch_truncated_relations.push(oid)
        } else {
            f.batch_truncated_relations
        },
        ..f
    }
}

/// Whether the batch must be flushed when a frame has just closed: it is
/// recovering, it is full, or nothing more is waiting.
pub open spec fn flush_due(f: FrameView, queued: usize, held: bool) -> bool {
    ||| f.state == FrameState::Recovering
    ||| f.batch_events >= FRAME_ROWS_CAPACITY
    ||| f.batch_frames >= BATCH_FRAMES_MAX
    ||| queued == 0 && !held
}

impl Frame {
    /// Between batches, nothing collected.
    pub fn new() -> (f: Frame)
        ensures
            f@ == frame_empty(),
    {
        let f = Frame {
            state: FrameState::Idle,
            open: false,
            buf: String::new(),
            chunk_flushed: false,
            buf_relations: HashSet::new(),
            relation_oids: Vec::new(),
            rows: Vec::new(),
            invalidations: Vec::new(),
            memo_evictions: Vec::new(),
            deleted_keys: Vec::new(),
            truncated_relations: Vec::new(),
            batch_truncated_relations: Vec::new(),
            batch_frames: 0,
            batch_events: 0,
            batch_last_lsn: 0,
            batch_deleted_pks: KeyMap::new(),
            toast: ToastState::new(),
        };
        proof {
            assert(f@ =~= frame_empty());
        }
        f
    }

    /// A source transaction begins.
    pub fn frame_begin(&mut self)
        ensures
            final(self)@ == frame_begun(old(self)@),
    {
        self.open = true;
        if self.state == FrameState::Idle {
            self.state = FrameState::Active;
            self.buf = String::new();
            self.buf_relations.clear();
            self.rows = Vec::new();
            self.chunk_flushed = false;
            self.deleted_keys = Vec::new();
            self.truncated_relations = Vec::new();
            self.batch_deleted_pks.clear();
            self.toast.reset();
        }
        proof {
            assert(self@ =~= frame_begun(old(self)@));
        }
    }

    /// The cache transaction is about to write the given relations.
    pub fn frame_begin_ensure(&mut self, relations: &Vec<u32>)
        ensures
            final(self)@ == txn_begun(old(self)@, relations@),
    {
        if self.state == FrameState::Active {
            self.buf.append("BEGIN; ");
            self.state = FrameState::TxnOpen;
        }
        let ghost start = self.buf_relations@;
        let mut i: usize = 0;
        proof {
            assert(start =~= start.union(relations@.take(0).to_set()));
        }
        while i < relations.len()
            invariant
                i <= relations.len(),
                self.buf_relations@ == start.union(relations@.take(i as int).to_set()),
                self@ == (FrameView {
                    buf_relations: self.buf_relations@,
                    ..txn_begun(old(self)@, relations@)
                }),
            decreases relations.len() - i,
        {
            let oid = relations[i];
            self.buf_relations.insert(oid);
            proof {
                let before = relations@.take(i as int);
                let after = relations@.take(i + 1);
                assert(after =~= before.push(oid));
                assert forall|x: u32| after.to_set().contains(x) <==> before.to_set().contains(x)
                    || x == oid by {
                    if before.contains(x) {
                        let k = choose|k: int| 0 <= k < before.len() && before[k] == x;
                        assert(after[k] == x);
                    }
                    assert(after[i as int] == oid);
                    if after.contains(x) {
                        let k = choose|k: int| 0 <= k < after.len() && after[k] == x;
                        if k < i {
                            assert(before[k] == x);
                        }
                    }
                }
                assert(self.buf_relations@ =~= start.union(after.to_set()));
                assert(self@ =~= (FrameView {
                    buf_relations: self.buf_relations@,
                    ..txn_begun(old(self)@, relations@)
                }));
            }
            i = i + 1;
        }
        proof {
            assert(relations@.take(i as int) =~= relations@);
            assert(self@ =~= txn_begun(old(self)@, relations@));
        }
    }

    /// Whether the cache transaction may hold row locks: maintenance that
    /// needs the cache tables waits while it may.
    pub fn frame_holds_locks(&self) -> (holds: bool)
        ensures
            holds == (self@.state == FrameState::TxnOpen),
    {
        self.state == FrameState::TxnOpen
    }

    /// End a buffered statement; whether the buffer has to be sent now.
    pub fn write_finish(&mut self) -> (send: bool)
        ensures
            final(self)@ == write_finished(old(self)@),
            send == chunk_full(final(self)@.buf),
    {
        self.buf.append("; ");
        let full = self.buf.as_str().as_bytes().len() >= FRAME_BUF_CAPACITY;
        if full {
            self.chunk_flushed = true;
        }
        proof {
            assert(self@ =~= write_finished(old(self)@));
        }
        full
    }

    /// The buffered statements were sent.
    pub fn chunk_sent(&mut self)
        ensures
            final(self)@ == chunk_sent(old(self)@),
    {
        self.buf = String::new();
        proof {
            assert(self@ =~= chunk_sent(old(self)@));
        }
    }

    /// The cache transaction committed.
    pub fn txn_committed(&mut self)
        ensures
            final(self)@ == txn_committed(old(self)@),
    {
        self.buf = String::new();
        self.buf_relations.clear();
        self.state = FrameState::Idle;
        proof {
            assert(self@ =~= txn_committed(old(self)@));
        }
    }

    /// Drop the cache transaction and recover at the flush; whether the server
    /// has to be told to roll back. A transaction that was never sent in part
    /// leaves nothing open there.
    pub fn frame_recover_enter(&mut self) -> (rollback: bool)
        ensures
            final(self)@ == recovery_entered(old(self)@),
            rollback == old(self)@.chunk_flushed,
    {
        self.buf = String::new();
        self.buf_relations.clear();
        self.rows = Vec::new();
        self.deleted_keys = Vec::new();
        self.truncated_relations = Vec::new();
        self.batch_deleted_pks.clear();
        self.toast.reset();
        self.state = FrameState::Recovering;
        proof {
            assert(self@ =~= recovery_entered(old(self)@));
        }
        self.chunk_flushed
    }

    /// The batch is over.
    pub fn batch_reset(&mut self)
        ensures
            final(self)@ == batch_reset(old(self)@),
    {
        self.state = FrameState::Idle;
        self.invalidations = Vec::new();
        self.memo_evictions = Vec::new();
        self.relation_oids = Vec::new();
        self.buf = String::new();
        self.buf_relations.clear();
        self.rows = Vec::new();
        self.chunk_flushed = false;
        self.batch_frames = 0;
        self.batch_events = 0;
        self.batch_deleted_pks.clear();
        self.toast.reset();
        proof {
            assert(self@ =~= batch_reset(old(self)@));
        }
    }

    /// Collect an event; whether the log has to be replayed now.
    pub fn event_collect(&mut self, event: FrameRowEvent) -> (full: bool)
        requires
            old(self)@.batch_events < usize::MAX,
        ensures
            final(self)@ == event_collected(old(self)@, event@),
            full == (final(self)@.rows.len() >= FRAME_ROWS_CAPACITY),
    {
        let ghost e = event@;
        self.rows.push(event);
        self.batch_events = self.batch_events + 1;
        proof {
            assert(events_view(self.rows@) =~= old(self)@.rows.push(e));
            assert(self@ =~= event_collected(old(self)@, e));
        }
        self.rows.len() >= FRAME_ROWS_CAPACITY
    }

    /// A source transaction ends at `lsn`; whether the batch has to be flushed.
    /// `held` suspends the flush of a batch that nothing more waits for.
    pub fn frame_close(&mut self, lsn: u64, queued: usize, held: bool) -> (flush: bool)
        requires
            old(self)@.batch_frames < usize::MAX,
        ensures
            final(self)@ == frame_closed(old(self)@, lsn),
            flush == flush_due(final(self)@, queued, held),
    {
        self.rows.push(FrameRowEvent::Boundary { commit_lsn: lsn });
        self.batch_frames = self.batch_frames + 1;
        self.batch_last_lsn = lsn;
        self.open = false;
        proof {
            assert(events_view(self.rows@) =~= old(self)@.rows.push(
                EventView::Boundary { commit_lsn: lsn },
            ));
            assert(self@ =~= frame_closed(old(self)@, lsn));
        }
        self.state == FrameState::Recovering || self.batch_events >= FRAME_ROWS_CAPACITY
            || self.batch_frames >= BATCH_FRAMES_MAX || (queued == 0 && !held)
    }

    /// Hand over what the frame being replayed removed, stamped with its
    /// commit LSN.
    pub fn losses_stamp(&mut self, keys: &mut PopulationDeletedKeys, lsn: u64)
        ensures
            final(keys)@ == losses_stamped(old(keys)@, old(self)@, lsn),
            final(self)@ == losses_cleared(old(self)@),
    {
        let ghost start = keys@;
        let ghost lost = row_keys(self.deleted_keys@);
        let mut i: usize = 0;
        proof {
            assert(lost.take(0) =~= Seq::<RowKey>::empty());
        }
        while i < self.deleted_keys.len()
            invariant
                i <= self.deleted_keys.len(),
                *self == *old(self),
                lost == row_keys(self.deleted_keys@),
                keys@ == all_recorded(start, lost.take(i as int), lsn),
            decreases self.deleted_keys.len() - i,
        {
            proof {
                assert(lost.take(i + 1).drop_last() =~= lost.take(i as int));
                assert(lost.take(i + 1).last() == lost[i as int]);
            }
            let entry = &self.deleted_keys[i];
            keys.record(entry.0, entry.1.clone(), lsn);
            i = i + 1;
        }
        proof {
            assert(lost.take(i as int) =~= lost);
        }
        all_abort(keys, &self.truncated_relations, lsn);
        self.deleted_keys = Vec::new();
        self.truncated_relations = Vec::new();
        proof {
            assert(self@ =~= losses_cleared(old(self)@));
        }
    }

    /// Discard the unreplayed events of a relation that was redefined.
    pub fn relation_discard(&mut self, oid: u32)
        ensures
            final(self)@ == relation_discarded(old(self)@, oid),
    {
        self.toast.toast_overlay_relation_invalidate(oid);
        let mut rows: Vec<FrameRowEvent> = Vec::new();
        std::mem::swap(&mut rows, &mut self.rows);
        let before: usize = rows.len();
        let ghost source = rows@;
        let ghost all = events_view(source);
        let mut kept: Vec<FrameRowEvent> = Vec::new();
        proof {
            assert(all.take(0) =~= Seq::<EventView>::empty());
            assert(events_view(kept@) =~= rows_without(all.take(0), oid));
        }
        for event in it: rows
            invariant
                it.seq() == source,
                all == events_view(source),
                events_view(kept@) == rows_without(all.take(it.index()), oid),
        {
            let ghost i = it.index();
            let ghost e = event@;
            let ghost so_far = kept@;
            proof {
                assert(all.take(i + 1).drop_last() =~= all.take(i));
                assert(all.take(i + 1).last() == e);
            }
            let drop_it = match event.relation() {
                Some(r) => r == oid,
                None => false,
            };
            if !drop_it {
                kept.push(event);
                proof {
                    assert(events_view(kept@) =~= events_view(so_far).push(e));
                }
            }
        }
        proof {
            assert(all.take(all.len() as int) =~= all);
        }
        if kept.len() != before {
            self.batch_truncated_relations.push(oid);
        }
        self.rows = kept;
        proof {
            assert(self@ =~= relation_discarded(old(self)@, oid));
        }
    }
}

/// Make populations over the relations with a snapshot below `lsn` abort.
pub fn all_abort(keys: &mut PopulationDeletedKeys, oids: &Vec<u32>, lsn: u64)
    ensures
        final(keys)@ == all_aborted(old(keys)@, oids@, lsn),
{
    let ghost start = keys@;
    let mut i: usize = 0;
    proof {
        assert(oids@.take(0) =~= Seq::<u32>::empty());
    }
    while i < oids.len()
        invariant
            i <= oids.len(),
            keys@ == all_aborted(start, oids@.take(i as int), lsn),
        decreases oids.len() - i,
    {
        proof {
            assert(oids@.take(i + 1).drop_last() =~= oids@.take(i as int));
        }
        keys.abort_below(oids[i], lsn);
        i = i + 1;
    }
    proof {
        assert(oids@.take(i as int) =~= oids@);
    }
}

} // verus!
