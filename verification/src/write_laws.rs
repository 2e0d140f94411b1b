//! What a batch sends to the cache database: one transaction that holds the
//! statements of its events, in order, and what it leaves behind.
use vstd::prelude::*;

use crate::cache::dirty_eval_required;
use crate::cache::CacheView;
use crate::catalog::pk_body;
use crate::catalog::RowView;
use crate::deleted_keys::must_abort;
use crate::deleted_keys::recorded;
use crate::deleted_keys::tracks;
use crate::deleted_keys::DeletedKeysView;
use crate::dispatch::by_dirtyable;
use crate::dispatch::memo_accumulated;
use crate::dispatch::row_key;
use crate::event::event_relation;
use crate::event::EventView;
use crate::flush::advanced;
use crate::flush::commit_buffered;
use crate::flush::recovery_sql;
use crate::frame::all_aborted;
use crate::frame::all_recorded;
use crate::frame::chunk_sent;
use crate::frame::event_collected;
use crate::frame::flush_due;
use crate::frame::frame_closed;
use crate::frame::losses_stamped;
use crate::frame::rows_without;
use crate::frame::txn_begun;
use crate::frame::write_finished;
use crate::frame::FrameState;
use crate::frame::FrameView;
use crate::keymap::RowKey;
use crate::memo::Memo;
use crate::memo::MemoView;
use crate::prepared::entries_pushed;
use crate::prepared::entries_touched;
use crate::prepared::entries_without;
use crate::prepared::entry_displaced;
use crate::prepared::keys_distinct;
use crate::prepared::relation_statements;
use crate::prepared::value_under;
use crate::prepared::PreparedEntries;
use crate::prepared::PreparedKey;
use crate::prepared::PreparedValue;
use crate::row_ops::event_key;
use crate::row_ops::event_row;
use crate::row_ops::event_truncates;
use crate::row_ops::op_applied;
use crate::row_ops::op_failure;
use crate::row_ops::RowOp;
use crate::sql::delete_sql;
use crate::sql::truncate_sql;
use crate::sql::upsert_sql;
use crate::writer_core::CoreView;

verus! {

/// The text of a transaction that holds the given statements, before its end.
pub open spec fn transaction(statements: Seq<Seq<char>>) -> Seq<char>
    decreases statements.len(),
{
    if statements.len() == 0 {
        "BEGIN; "@
    } else {
        transaction(statements.drop_last()) + statements.last() + "; "@
    }
}

/// Whether what was sent so far and what is buffered are together a transaction
/// of the given statements; without one there is no transaction.
pub open spec fn holds_statements(
    f: FrameView,
    sent: Seq<char>,
    statements: Seq<Seq<char>>,
) -> bool {
    if statements.len() == 0 {
        f.state == FrameState::Active && sent + f.buf == Seq::<char>::empty()
    } else {
        f.state == FrameState::TxnOpen && sent + f.buf == transaction(statements)
    }
}

proof fn lemma_statement_joins(
    f: FrameView,
    sent: Seq<char>,
    statements: Seq<Seq<char>>,
    relations: Seq<u32>,
    sql: Seq<char>,
)
    requires
        holds_statements(f, sent, statements),
    ensures
        ({
            let begun = txn_begun(f, relations);
            let after = write_finished(FrameView { buf: begun.buf + sql, ..begun });
            &&& holds_statements(after, sent, statements.push(sql))
            &&& after.state == FrameState::TxnOpen
            &&& sent + after.buf == transaction(statements.push(sql))
        }),
{
    let begun = txn_begun(f, relations);
    let after = write_finished(FrameView { buf: begun.buf + sql, ..begun });
    let all = statements.push(sql);
    assert(all.drop_last() =~= statements);
    if statements.len() == 0 {
        assert(f.buf =~= Seq::<char>::empty()) by {
            assert((sent + f.buf).len() == 0);
        }
        assert(sent =~= Seq::<char>::empty()) by {
            assert((sent + f.buf).len() == 0);
        }
        assert(transaction(statements) == "BEGIN; "@);
        assert(sent + after.buf =~= "BEGIN; "@ + sql + "; "@);
    } else {
        assert(sent + after.buf =~= (sent + f.buf) + sql + "; "@);
    }
}

/// The statement that a step writes, if it writes one.
pub open spec fn step_statement(c: CoreView, e: EventView, op: RowOp) -> Option<Seq<char>> {
    match op {
        RowOp::TruncateWrite => truncate_sql(c.cache.tables, event_truncates(e)),
        RowOp::Upsert => if event_relation(e) is Some {
            Some(upsert_sql(c.cache.tables[event_relation(e)->0], event_row(e)))
        } else {
            None
        },
        RowOp::Delete { .. } => if event_relation(e) is Some {
            Some(delete_sql(c.cache.tables[event_relation(e)->0], event_row(e)))
        } else {
            None
        },
        RowOp::DeleteKey => if event_relation(e) is Some {
            Some(delete_sql(c.cache.tables[event_relation(e)->0], event_key(e)))
        } else {
            None
        },
        _ => None,
    }
}

/// Each step of an event adds its statement to the transaction, and only its
/// own: a row that is written the upsert of its image, one that is removed the
/// delete of it or of its old key, a truncate the emptying of the tables. A step
/// that writes nothing leaves the transaction as it is.
pub proof fn step_adds_its_statement(
    c: CoreView,
    e: EventView,
    op: RowOp,
    sent: Seq<char>,
    statements: Seq<Seq<char>>,
)
    requires
        holds_statements(c.frame, sent, statements),
        op_failure(c, e, op) is None,
        op == RowOp::TruncateWrite ==> e is Truncate,
    ensures
        holds_statements(
            op_applied(c, e, op).frame,
            sent,
            match step_statement(c, e, op) {
                Some(sql) => statements.push(sql),
                None => statements,
            },
        ),
{
    let relations = match e {
        EventView::Truncate { relation_oids } => relation_oids,
        _ => seq![event_relation(e)->0],
    };
    let after = op_applied(c, e, op);
    if step_statement(c, e, op) is Some {
        let sql = step_statement(c, e, op)->0;
        lemma_statement_joins(c.frame, sent, statements, relations, sql);
        let begun = txn_begun(c.frame, relations);
        let plain = write_finished(FrameView { buf: begun.buf + sql, ..begun });
        assert(after.frame.buf == plain.buf);
        assert(after.frame.state == plain.state);
    } else {
        assert(after.frame.buf == c.frame.buf);
        assert(after.frame.state == c.frame.state);
    }
}

/// Sending the buffer ahead of the commit takes nothing out of the transaction.
pub proof fn sending_keeps_the_transaction(
    f: FrameView,
    sent: Seq<char>,
    statements: Seq<Seq<char>>,
)
    requires
        holds_statements(f, sent, statements),
    ensures
        holds_statements(chunk_sent(f), sent + f.buf, statements),
{
    assert(sent + f.buf + Seq::<char>::empty() =~= sent + f.buf);
}

/// What is buffered is sent ahead of the commit once it fills a quarter of a
/// mebibyte.
pub proof fn full_buffer_is_sent_ahead(f: FrameView)
    ensures
        write_finished(f).chunk_flushed <==> f.chunk_flushed || vstd::utf8::encode_utf8(
            write_finished(f).buf,
        ).len() >= 262_144,
{
}

/// The transaction that a batch sends in all: its statements in order, begun
/// once and committed once.
pub proof fn batch_is_one_transaction(
    c: CoreView,
    sent: Seq<char>,
    statements: Seq<Seq<char>>,
)
    requires
        holds_statements(c.frame, sent, statements),
        statements.len() > 0,
    ensures
        sent + commit_buffered(c).frame.buf == transaction(statements) + "COMMIT"@,
{
    assert(sent + commit_buffered(c).frame.buf =~= (sent + c.frame.buf) + "COMMIT"@);
}

/// The tables of lost writes are emptied in a transaction of their own.
pub proof fn recovery_is_one_transaction(truncate: Seq<char>)
    ensures
        recovery_sql(truncate) == transaction(seq![truncate]) + "COMMIT"@,
{
    assert(seq![truncate].drop_last() =~= Seq::<Seq<char>>::empty());
    reveal_with_fuel(transaction, 2);
    reveal_strlit("; COMMIT");
    reveal_strlit("; ");
    reveal_strlit("COMMIT");
    assert("; COMMIT"@ =~= "; "@ + "COMMIT"@);
    assert(recovery_sql(truncate) =~= transaction(seq![truncate]) + "COMMIT"@);
}

/// A written row's key counts as present in the batch, a removed one's as
/// deleted, and no other key is concerned.
pub proof fn batch_knows_its_deleted_keys(c: CoreView, e: EventView, op: RowOp, k: RowKey)
    requires
        op_failure(c, e, op) is None,
        event_relation(e) is Some,
    ensures
        ({
            let after = op_applied(c, e, op).frame.batch_deleted_pks;
            let oid = event_relation(e)->0;
            &&& op == RowOp::Upsert ==> (after.contains(k) <==> c.frame.batch_deleted_pks.contains(
                k,
            ) && row_key(c.cache, oid, event_row(e)) != Some(k))
            &&& op is Delete ==> (after.contains(k) <==> c.frame.batch_deleted_pks.contains(k)
                || row_key(c.cache, oid, event_row(e)) == Some(k))
            &&& op == RowOp::DeleteKey ==> (after.contains(k)
                <==> c.frame.batch_deleted_pks.contains(k) || row_key(
                c.cache,
                oid,
                event_key(e),
            ) == Some(k))
        }),
{
}

/// A removed row's key waits for its commit exactly if it is to be recorded and
/// populations are in flight over its relation; a row that lives again is taken
/// off, and no other key is.
pub proof fn removed_keys_wait_for_their_commit(c: CoreView, e: EventView, op: RowOp, k: RowKey)
    requires
        op_failure(c, e, op) is None,
        event_relation(e) is Some,
    ensures
        ({
            let before = c.frame.deleted_keys;
            let after = op_applied(c, e, op).frame.deleted_keys;
            let oid = event_relation(e)->0;
            &&& op is Delete ==> (after.contains(k) <==> before.contains(k) || op->record
                && c.keys.contains_key(oid) && row_key(c.cache, oid, event_row(e)) == Some(k))
            &&& op == RowOp::DeleteKey ==> (after.contains(k) <==> before.contains(k)
                || c.keys.contains_key(oid) && row_key(c.cache, oid, event_key(e)) == Some(k))
            &&& op == RowOp::Cancel ==> (after.contains(k) <==> before.contains(k) && row_key(
                c.cache,
                oid,
                event_row(e),
            ) != Some(k))
            &&& op == RowOp::Upsert ==> after == before
        }),
{
    let before = c.frame.deleted_keys;
    let oid = event_relation(e)->0;
    if op is Delete || op == RowOp::DeleteKey {
        let row = if op is Delete {
            event_row(e)
        } else {
            event_key(e)
        };
        if row_key(c.cache, oid, row) is Some {
            lemma_key_pushed(before, row_key(c.cache, oid, row)->0, k);
        }
    }
    if op == RowOp::Cancel && row_key(c.cache, oid, event_row(e)) is Some {
        lemma_keys_without(before, row_key(c.cache, oid, event_row(e))->0, k);
    }
}

proof fn lemma_key_pushed(list: Seq<RowKey>, x: RowKey, k: RowKey)
    ensures
        list.push(x).contains(k) <==> list.contains(k) || x == k,
{
    let all = list.push(x);
    assert(all[list.len() as int] == x);
    if list.contains(k) {
        let i = choose|i: int| 0 <= i < list.len() && list[i] == k;
        assert(all[i] == k);
    }
    if all.contains(k) && x != k {
        let i = choose|i: int| 0 <= i < all.len() && all[i] == k;
        assert(list[i] == k);
    }
}

proof fn lemma_keys_without(keys: Seq<RowKey>, gone: RowKey, k: RowKey)
    ensures
        crate::dispatch::keys_without(keys, gone).contains(k) <==> keys.contains(k) && k != gone,
    decreases keys.len(),
{
    if keys.len() > 0 {
        let short = keys.drop_last();
        lemma_keys_without(short, gone, k);
        lemma_key_pushed(short, keys.last(), k);
        assert(short.push(keys.last()) =~= keys);
        lemma_key_pushed(crate::dispatch::keys_without(short, gone), keys.last(), k);
    }
}

proof fn lemma_recorded_keeps(
    m: DeletedKeysView,
    oid: u32,
    key: Seq<char>,
    lsn: u64,
    other: u32,
    x: Seq<char>,
    snapshot_lsn: u64,
)
    requires
        m.contains_key(other),
        snapshot_lsn < lsn,
    ensures
        recorded(m, oid, key, lsn).contains_key(other),
        tracks(m, other, x) || must_abort(m, other, snapshot_lsn) ==> tracks(
            recorded(m, oid, key, lsn),
            other,
            x,
        ) || must_abort(recorded(m, oid, key, lsn), other, snapshot_lsn),
        must_abort(m, other, snapshot_lsn) ==> must_abort(
            recorded(m, oid, key, lsn),
            other,
            snapshot_lsn,
        ),
        oid == other && key == x ==> tracks(recorded(m, oid, key, lsn), other, x) || must_abort(
            recorded(m, oid, key, lsn),
            other,
            snapshot_lsn,
        ),
{
    if m.contains_key(oid) {
        let keys = m[oid].keys;
        let all = keys.push(key);
        assert(all[keys.len() as int] == key);
        if keys.contains(x) {
            let i = choose|i: int| 0 <= i < keys.len() && keys[i] == x;
            assert(all[i] == x);
        }
    }
}

/// What a frame removed is known to every population whose snapshot came before
/// its commit: each removed key is tracked, or the population must abort; and it
/// must abort over each relation that was emptied.
pub proof fn older_populations_learn_of_losses(
    m: DeletedKeysView,
    f: FrameView,
    lsn: u64,
    k: RowKey,
    snapshot_lsn: u64,
)
    requires
        m.contains_key(k.0),
        snapshot_lsn < lsn,
    ensures
        ({
            let after = losses_stamped(m, f, lsn);
            &&& after.contains_key(k.0)
            &&& f.deleted_keys.contains(k) ==> tracks(after, k.0, k.1) || must_abort(
                after,
                k.0,
                snapshot_lsn,
            )
            &&& f.truncated_relations.contains(k.0) ==> must_abort(after, k.0, snapshot_lsn)
        }),
{
    lemma_all_recorded(m, f.deleted_keys, lsn, k, snapshot_lsn);
    older_populations_abort(
        all_recorded(m, f.deleted_keys, lsn),
        f.truncated_relations,
        lsn,
        k,
        snapshot_lsn,
    );
}

proof fn lemma_all_recorded(
    m: DeletedKeysView,
    keys: Seq<RowKey>,
    lsn: u64,
    k: RowKey,
    snapshot_lsn: u64,
)
    requires
        m.contains_key(k.0),
        snapshot_lsn < lsn,
    ensures
        all_recorded(m, keys, lsn).contains_key(k.0),
        keys.contains(k) ==> tracks(all_recorded(m, keys, lsn), k.0, k.1) || must_abort(
            all_recorded(m, keys, lsn),
            k.0,
            snapshot_lsn,
        ),
    decreases keys.len(),
{
    if keys.len() > 0 {
        let short = keys.drop_last();
        lemma_all_recorded(m, short, lsn, k, snapshot_lsn);
        lemma_key_pushed(short, keys.last(), k);
        assert(short.push(keys.last()) =~= keys);
        lemma_recorded_keeps(
            all_recorded(m, short, lsn),
            keys.last().0,
            keys.last().1,
            lsn,
            k.0,
            k.1,
            snapshot_lsn,
        );
    }
}

/// Populations with an older snapshot must abort over each of the given relations,
/// and what they had to know before they still do.
pub proof fn older_populations_abort(
    m: DeletedKeysView,
    oids: Seq<u32>,
    lsn: u64,
    k: RowKey,
    snapshot_lsn: u64,
)
    requires
        m.contains_key(k.0),
        snapshot_lsn < lsn,
    ensures
        ({
            let after = all_aborted(m, oids, lsn);
            &&& after.contains_key(k.0)
            &&& oids.contains(k.0) ==> must_abort(after, k.0, snapshot_lsn)
            &&& tracks(m, k.0, k.1) ==> tracks(after, k.0, k.1) || must_abort(
                after,
                k.0,
                snapshot_lsn,
            )
            &&& must_abort(m, k.0, snapshot_lsn) ==> must_abort(after, k.0, snapshot_lsn)
        }),
    decreases oids.len(),
{
    if oids.len() > 0 {
        let short = oids.drop_last();
        older_populations_abort(m, short, lsn, k, snapshot_lsn);
        if oids.contains(k.0) && oids.last() != k.0 {
            let i = choose|i: int| 0 <= i < oids.len() && oids[i] == k.0;
            assert(short[i] == k.0);
        }
    }
}

/// A batch takes in its events in the order in which they come, and marks where
/// each source transaction ends.
pub proof fn events_are_taken_in_order(f: FrameView, e: EventView, lsn: u64)
    ensures
        event_collected(f, e).rows.drop_last() == f.rows,
        event_collected(f, e).rows.last() == e,
        f.batch_events < usize::MAX ==> event_collected(f, e).batch_events == f.batch_events + 1,
        frame_closed(f, lsn).rows.drop_last() == f.rows,
        frame_closed(f, lsn).rows.last() == (EventView::Boundary { commit_lsn: lsn }),
        frame_closed(f, lsn).batch_last_lsn == lsn,
        !frame_closed(f, lsn).open,
        f.batch_frames < usize::MAX ==> frame_closed(f, lsn).batch_frames == f.batch_frames + 1,
{
    assert(event_collected(f, e).rows.drop_last() =~= f.rows);
    assert(frame_closed(f, lsn).rows.drop_last() =~= f.rows);
}

/// A redefined relation loses its own events, and no other does.
pub proof fn only_the_relations_events_are_dropped(rows: Seq<EventView>, oid: u32)
    ensures
        rows_without(rows, oid) == rows.filter(|e: EventView| event_relation(e) != Some(oid)),
    decreases rows.len(),
{
    reveal(Seq::filter);
    if rows.len() > 0 {
        only_the_relations_events_are_dropped(rows.drop_last(), oid);
    }
}

/// A batch goes on collecting only while more is waiting or it is held back, it
/// has room, and it is not recovering.
pub proof fn batch_goes_on_while_it_may(f: FrameView, queued: usize, held: bool)
    ensures
        !flush_due(f, queued, held) <==> f.state != FrameState::Recovering && f.batch_events < 4_096
            && f.batch_frames < 256 && (queued > 0 || held),
{
}

/// The watermark is the greatest of what was reached.
pub proof fn watermark_is_the_greatest(applied: u64, a: u64, b: u64)
    ensures
        advanced(applied, a) >= applied && advanced(applied, a) >= a,
        advanced(applied, a) == applied || advanced(applied, a) == a,
        advanced(advanced(applied, a), b) == advanced(advanced(applied, b), a),
{
}

/// The memos that go stale are those of the named queries that have one over the
/// relation, each once.
pub proof fn memos_of_the_named_queries_go_stale(
    evictions: Seq<u64>,
    memo: MemoView,
    oid: u32,
    candidates: Seq<u64>,
    fp: u64,
)
    ensures
        memo_accumulated(evictions, memo, oid, candidates).contains(fp) <==> evictions.contains(fp)
            || candidates.contains(fp) && memo.memos.contains(
            Memo { relation_oid: oid, fingerprint: fp },
        ),
        evictions.no_duplicates() ==> memo_accumulated(
            evictions,
            memo,
            oid,
            candidates,
        ).no_duplicates(),
    decreases candidates.len(),
{
    if candidates.len() > 0 {
        let short = candidates.drop_last();
        memos_of_the_named_queries_go_stale(evictions, memo, oid, short, fp);
        let rest = memo_accumulated(evictions, memo, oid, short);
        let x = candidates.last();
        lemma_number_pushed(short, x, fp);
        assert(short.push(x) =~= candidates);
        lemma_number_pushed(rest, x, fp);
        let all = rest.push(x);
        if !rest.contains(x) && rest.no_duplicates() {
            assert forall|i: int, j: int|
                0 <= i < all.len() && 0 <= j < all.len() && i != j implies all[i] != all[j] by {
                if i < rest.len() {
                    assert(rest[i] == all[i] && rest.contains(rest[i]));
                }
                if j < rest.len() {
                    assert(rest[j] == all[j] && rest.contains(rest[j]));
                }
            }
        }
    }
}

proof fn lemma_number_pushed(list: Seq<u64>, x: u64, k: u64)
    ensures
        list.push(x).contains(k) <==> list.contains(k) || x == k,
{
    let all = list.push(x);
    assert(all[list.len() as int] == x);
    if list.contains(k) {
        let i = choose|i: int| 0 <= i < list.len() && list[i] == k;
        assert(all[i] == k);
    }
    if all.contains(k) && x != k {
        let i = choose|i: int| 0 <= i < all.len() && all[i] == k;
        assert(list[i] == k);
    }
}

/// Queries are told apart by whether a match would dirty their materialized
/// result.
pub proof fn dirtyable_queries_are_asked_apart(fps: Seq<u64>, c: CacheView, dirtyable: bool)
    ensures
        by_dirtyable(fps, c, dirtyable) == fps.filter(
            |fp: u64| dirty_eval_required(c.entries, fp) == dirtyable,
        ),
    decreases fps.len(),
{
    reveal(Seq::filter);
    if fps.len() > 0 {
        dirtyable_queries_are_asked_apart(fps.drop_last(), c, dirtyable);
    }
}

proof fn lemma_value_under(s: PreparedEntries, key: PreparedKey)
    ensures
        match value_under(s, key) {
            Some(v) => s.contains((key, v)),
            None => forall|i: int| 0 <= i < s.len() ==> (#[trigger] s[i]).0 != key,
        },
    decreases s.len(),
{
    if s.len() > 0 {
        let short = s.drop_last();
        lemma_value_under(short, key);
        match value_under(s, key) {
            Some(v) => {
                if s.last().0 == key {
                    assert(s[s.len() - 1] == (key, v));
                } else {
                    let k = choose|k: int| 0 <= k < short.len() && short[k] == (key, v);
                    assert(s[k] == (key, v));
                }
            },
            None => {
                assert forall|i: int| 0 <= i < s.len() implies (#[trigger] s[i]).0 != key by {
                    if i < short.len() {
                        assert(short[i] == s[i]);
                    }
                }
            },
        }
    }
}

proof fn lemma_value_is(s: PreparedEntries, key: PreparedKey, i: int)
    requires
        keys_distinct(s),
        0 <= i < s.len(),
        s[i].0 == key,
    ensures
        value_under(s, key) == Some(s[i].1),
    decreases s.len(),
{
    let short = s.drop_last();
    if i < short.len() {
        assert forall|a: int, b: int| 0 <= a < b < short.len() implies (#[trigger] short[a]).0 != (
        #[trigger] short[b]).0 by {
            assert(s[a].0 != s[b].0);
        }
        lemma_value_is(short, key, i);
        assert(s[i].0 != s[s.len() - 1].0);
    }
}

proof fn lemma_value_behind(
    e: (PreparedKey, PreparedValue),
    s: PreparedEntries,
    other: PreparedKey,
)
    requires
        e.0 != other,
    ensures
        value_under(seq![e] + s, other) == value_under(s, other),
    decreases s.len(),
{
    let all = seq![e] + s;
    if s.len() == 0 {
        assert(all.drop_last() =~= Seq::empty());
        reveal_with_fuel(value_under, 2);
    } else {
        lemma_value_behind(e, s.drop_last(), other);
        assert(all.drop_last() =~= seq![e] + s.drop_last());
        assert(all.last() == s.last());
    }
}

/// What is left without a key's entry: nothing under the key, and all else.
pub proof fn removed_statement_is_not_found(s: PreparedEntries, key: PreparedKey, other: PreparedKey)
    ensures
        value_under(entries_without(s, key), key) is None,
        other != key ==> value_under(entries_without(s, key), other) == value_under(s, other),
    decreases s.len(),
{
    if s.len() > 0 {
        removed_statement_is_not_found(s.drop_last(), key, other);
        let rest = entries_without(s.drop_last(), key);
        if s.last().0 != key {
            assert(rest.push(s.last()).drop_last() =~= rest);
        }
    }
}

/// Keeping or using a statement loses no other, except that a full store gives up
/// the one that was not used for longest, and says so.
pub proof fn other_statements_are_kept(
    s: PreparedEntries,
    key: PreparedKey,
    value: PreparedValue,
    capacity: nat,
    other: PreparedKey,
)
    requires
        keys_distinct(s),
        s.len() <= capacity,
        capacity > 0,
        other != key,
    ensures
        value_under(entries_touched(s, key), other) == value_under(s, other),
        value_under(entries_pushed(s, key, value, capacity), other) == (if value_under(
            s,
            key,
        ) is None && s.len() == capacity && s.last().0 == other {
            None
        } else {
            value_under(s, other)
        }),
        entry_displaced(s, key, capacity) == (if value_under(s, key) is Some {
            Some((key, value_under(s, key)->0))
        } else if s.len() == capacity {
            Some(s.last())
        } else {
            None
        }),
{
    removed_statement_is_not_found(s, key, other);
    if value_under(s, key) is Some {
        lemma_value_behind((key, value_under(s, key)->0), entries_without(s, key), other);
        lemma_value_behind((key, value), entries_without(s, key), other);
    } else {
        lemma_value_behind((key, value), s, other);
        if s.len() == capacity {
            let short = s.drop_last();
            lemma_value_behind((key, value), short, other);
            if s.last().0 == other {
                lemma_value_under(short, other);
                if value_under(short, other) is Some {
                    let v = value_under(short, other)->0;
                    let k = choose|k: int| 0 <= k < short.len() && short[k] == (other, v);
                    assert(s[k].0 != s[s.len() - 1].0);
                }
            }
        }
    }
}

/// A statement is found under the key it was kept under.
pub proof fn statement_is_found_by_its_key(s: PreparedEntries, key: PreparedKey, i: int)
    requires
        keys_distinct(s),
        0 <= i < s.len(),
    ensures
        value_under(s, s[i].0) == Some(s[i].1),
        value_under(s, key) is None <==> forall|j: int|
            0 <= j < s.len() ==> (#[trigger] s[j]).0 != key,
{
    lemma_value_is(s, s[i].0, i);
    lemma_value_under(s, key);
    if value_under(s, key) is Some {
        let v = value_under(s, key)->0;
        let k = choose|k: int| 0 <= k < s.len() && s[k] == (key, v);
        assert(s[k].0 == key);
    }
}

/// A relation's statements are those kept under it.
pub proof fn relation_statements_are_its_own(s: PreparedEntries, oid: u32)
    ensures
        relation_statements(s, oid) == s.filter(
            |e: (PreparedKey, PreparedValue)| (e.0).0 == oid,
        ).map_values(|e: (PreparedKey, PreparedValue)| (e.1).1),
    decreases s.len(),
{
    reveal(Seq::filter);
    if s.len() > 0 {
        relation_statements_are_its_own(s.drop_last(), oid);
    }
    assert(relation_statements(s, oid) =~= s.filter(
        |e: (PreparedKey, PreparedValue)| (e.0).0 == oid,
    ).map_values(|e: (PreparedKey, PreparedValue)| (e.1).1));
}

/// A row of a known relation is known by its relation and its key; one without a
/// key, or of an unknown relation, by nothing.
pub proof fn row_is_known_by_its_key(c: CacheView, oid: u32, row: RowView)
    ensures
        c.tables.contains_key(oid) && pk_body(c.tables[oid], row) is Some ==> row_key(c, oid, row)
            == Some((oid, pk_body(c.tables[oid], row)->0)),
        !c.tables.contains_key(oid) || pk_body(c.tables[oid], row) is None ==> row_key(c, oid, row)
            is None,
{
}

} // verus!
