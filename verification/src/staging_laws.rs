//! What staging and merging a population do: which rows are staged, which are
//! merged, and what a merge does to a row that is already there.
use vstd::prelude::*;

use crate::batch::key_less;
use crate::batch::key_ordered;
use crate::batch::tuples_of;
use crate::batch::StagedView;
use crate::catalog::ColumnMetadata;
use crate::catalog::RowView;
use crate::catalog::TableMetadata;
use crate::deleted_keys::aborted_below;
use crate::deleted_keys::activated;
use crate::deleted_keys::cancelled;
use crate::deleted_keys::deactivated;
use crate::deleted_keys::filter_sql;
use crate::deleted_keys::must_abort;
use crate::deleted_keys::recorded;
use crate::deleted_keys::relation_deactivated;
use crate::deleted_keys::tracks;
use crate::deleted_keys::without_key;
use crate::deleted_keys::without_population;
use crate::deleted_keys::DeletedKeysView;
use crate::deleted_keys::POPULATION_DELETED_KEY_CAP;
use crate::merge_queue::chunk_count;
use crate::merge_queue::discard_count;
use crate::merge_queue::key_before;
use crate::merge_queue::pending_key;
use crate::merge_queue::window_adapted;
use crate::merge_queue::MERGE_CHUNK_TARGET_NANOS;
use crate::merge_queue::PendingMerge;
use crate::merge_queue::ReplyMessage;
use crate::merge_sql::chunk_text;
use crate::merge_sql::discard_text;
use crate::merge_sql::merge_plan;
use crate::merge_sql::staging_blocks_text;
use crate::population::inserts;
use crate::population::is_phantom;
use crate::population::key_cells;
use crate::population::key_positions;
use crate::population::name_position;
use crate::population::row_bytes;
use crate::population::row_tuple;
use crate::population::snapshot_lsn_of;
use crate::population::InsertStatement;
use crate::statement_laws::carried;
use crate::statement_laws::upserted;
use crate::statement_laws::UpsertStatement;
use crate::text::cell_sql;
use crate::text::decimal;
use crate::text::identifier;
use crate::text::identifiers;
use crate::text::joined;
use crate::values::text_less;
use crate::values::unsigned_value;

verus! {

/// A relation's key columns, quoted.
pub open spec fn quoted_key(table: TableMetadata) -> Seq<Seq<char>> {
    table.primary_key_columns@.map_values(|k: String| identifier(k@))
}

/// A relation's columns, quoted and in order.
pub open spec fn quoted_columns(table: TableMetadata) -> Seq<char> {
    joined(table.columns@.map_values(|c: ColumnMetadata| identifier(c.name@)), ","@)
}

/// A window drains its blocks, and no others, of all their rows.
pub open spec fn drained_blocks(staging: Seq<char>, lo: nat, hi: nat) -> Seq<char> {
    "DELETE FROM pgcache_stage."@ + staging + " WHERE ctid >= '("@ + decimal(lo)
        + ",0)'::tid AND ctid < '("@ + decimal(hi) + ",0)'::tid"@
}

/// A merged window drains its blocks whole, and of the rows it drained writes
/// one for each key, of those that the filter keeps, into the relation's cache
/// table, all columns of it; the rows are stamped with the population's
/// generation, and all that were drained are counted.
pub proof fn merged_window_writes_what_it_drains(
    table: TableMetadata,
    staging: Seq<char>,
    generation: nat,
    lo: nat,
    hi: nat,
    filter: Option<Seq<char>>,
)
    ensures
        discard_text(staging, lo, hi) == drained_blocks(staging, lo, hi),
        chunk_text(merge_plan(table), staging, generation, lo, hi, filter)
            == "SET LOCAL mem.query_generation = "@ + decimal(generation) + "; WITH d AS ("@
            + drained_blocks(staging, lo, hi) + " RETURNING "@ + quoted_columns(table)
            + "), i AS (INSERT INTO "@ + identifier(table.schema@) + "."@ + identifier(table.name@)
            + " ("@ + quoted_columns(table) + ") SELECT DISTINCT ON ("@ + joined(
            quoted_key(table),
            ","@,
        ) + ") "@ + quoted_columns(table) + " FROM d"@ + (match filter {
            Some(predicate) => " WHERE "@ + predicate,
            None => Seq::empty(),
        }) + " ON CONFLICT ("@ + joined(quoted_key(table), ","@) + ") DO UPDATE SET "@ + joined(
            quoted_key(table).map_values(|k: Seq<char>| k + " = EXCLUDED."@ + k),
            ", "@,
        ) + ") SELECT count(*) FROM d"@,
{
    assert(discard_text(staging, lo, hi) =~= drained_blocks(staging, lo, hi));
    assert(crate::merge_sql::column_identifiers(table.columns@) =~= table.columns@.map_values(
        |c: ColumnMetadata| identifier(c.name@),
    ));
    assert(identifiers(table.primary_key_columns@) =~= quoted_key(table));
    assert(crate::merge_sql::excluded_assignments(quoted_key(table)) =~= quoted_key(
        table,
    ).map_values(|k: Seq<char>| k + " = EXCLUDED."@ + k));
    let plan = merge_plan(table);
    let key = joined(quoted_key(table), ","@);
    let sets = joined(
        quoted_key(table).map_values(|k: Seq<char>| k + " = EXCLUDED."@ + k),
        ", "@,
    );
    reveal_strlit(") SELECT DISTINCT ON ");
    reveal_strlit(") SELECT DISTINCT ON (");
    reveal_strlit("(");
    reveal_strlit(")");
    reveal_strlit(" ");
    reveal_strlit(") ");
    reveal_strlit("ON CONFLICT ");
    reveal_strlit(" ON CONFLICT (");
    reveal_strlit(" DO UPDATE SET ");
    reveal_strlit(") DO UPDATE SET ");
    assert(") SELECT DISTINCT ON ("@ =~= ") SELECT DISTINCT ON "@ + "("@);
    assert(") "@ =~= ")"@ + " "@);
    assert(" ON CONFLICT ("@ =~= " "@ + "ON CONFLICT "@ + "("@);
    assert(") DO UPDATE SET "@ =~= ")"@ + " DO UPDATE SET "@);
    assert(plan.pk_columns_paren =~= "("@ + key + ")"@);
    assert(plan.conflict =~= "ON CONFLICT "@ + ("("@ + key + ")"@) + " DO UPDATE SET "@ + sets);
    let head = "SET LOCAL mem.query_generation = "@ + decimal(generation) + "; WITH d AS ("@
        + drained_blocks(staging, lo, hi) + " RETURNING "@ + quoted_columns(table)
        + "), i AS (INSERT INTO "@ + identifier(table.schema@) + "."@ + identifier(table.name@)
        + " ("@ + quoted_columns(table);
    let kept = " FROM d"@ + (match filter {
        Some(predicate) => " WHERE "@ + predicate,
        None => Seq::empty(),
    });
    let text = chunk_text(plan, staging, generation, lo, hi, filter);
    assert(text =~= head + ") SELECT DISTINCT ON "@ + plan.pk_columns_paren + " "@
        + quoted_columns(table) + kept + " "@ + plan.conflict + ") SELECT count(*) FROM d"@);
    let a = head + ") SELECT DISTINCT ON "@ + plan.pk_columns_paren + " "@;
    let b = head + ") SELECT DISTINCT ON ("@ + key + ") "@;
    assert(a =~= b);
    let x = " "@ + plan.conflict;
    let y = " ON CONFLICT ("@ + key + ") DO UPDATE SET "@ + sets;
    assert(x =~= y);
    assert(text =~= a + quoted_columns(table) + kept + x + ") SELECT count(*) FROM d"@);
    assert(b + quoted_columns(table) + kept + y + ") SELECT count(*) FROM d"@ =~= head
        + ") SELECT DISTINCT ON ("@ + key + ") "@ + quoted_columns(table) + " FROM d"@ + (
    match filter {
        Some(predicate) => " WHERE "@ + predicate,
        None => Seq::empty(),
    }) + " ON CONFLICT ("@ + key + ") DO UPDATE SET "@ + sets + ") SELECT count(*) FROM d"@);
}

/// A merge never overwrites: an upsert that assigns nothing but key columns
/// leaves every value of a row that is there, with the same key, as it is.
pub proof fn merge_keeps_a_stored_row(
    u: UpsertStatement,
    stored: spec_fn(Seq<char>) -> Option<Seq<char>>,
    column: Seq<char>,
)
    requires
        u.assigned == u.key,
        forall|i: int|
            0 <= i < u.key.len() ==> stored(#[trigger] u.key[i]) == carried(u.cells, u.key[i]),
    ensures
        upserted(u, Some(stored), column) == stored(column),
{
    if u.assigned.contains(column) {
        let i = choose|i: int| 0 <= i < u.assigned.len() && u.assigned[i] == column;
        assert(stored(u.key[i]) == carried(u.cells, u.key[i]));
    }
}

/// The filter leaves out exactly the tracked keys: each of them is listed, and
/// nothing else. Without one there is no filter.
pub proof fn filter_lists_every_tracked_key(
    m: DeletedKeysView,
    oid: u32,
    table: TableMetadata,
)
    ensures
        ({
            let columns = merge_plan(table).pk_columns_paren;
            match filter_sql(m, oid, columns) {
                Some(text) => m.contains_key(oid) && m[oid].keys.len() > 0 && text == "("@ + joined(
                    quoted_key(table),
                    ","@,
                ) + ")"@ + " NOT IN ("@ + joined(
                    m[oid].keys.map_values(|k: Seq<char>| "("@ + k + ")"@),
                    ", "@,
                ) + ")"@,
                None => forall|key: Seq<char>| !#[trigger] tracks(m, oid, key),
            }
        }),
{
    assert(identifiers(table.primary_key_columns@) =~= quoted_key(table));
    if m.contains_key(oid) {
        assert(crate::deleted_keys::key_tuples(m[oid].keys) =~= m[oid].keys.map_values(
            |k: Seq<char>| "("@ + k + ")"@,
        ));
        if m[oid].keys.len() == 0 {
            assert forall|key: Seq<char>| !#[trigger] tracks(m, oid, key) by {}
        }
    }
}

/// The size of a staging table is asked in blocks of the server.
pub proof fn size_is_asked_in_blocks(staging: Seq<char>)
    ensures
        staging_blocks_text(staging) == "SELECT (pg_relation_size('pgcache_stage."@ + staging
            + "') / current_setting('block_size')::bigint)::bigint"@,
{
}

proof fn lemma_without_key(keys: Seq<Seq<char>>, key: Seq<char>, x: Seq<char>)
    ensures
        without_key(keys, key).contains(x) <==> keys.contains(x) && x != key,
    decreases keys.len(),
{
    if keys.len() > 0 {
        let short = keys.drop_last();
        lemma_without_key(short, key, x);
        let rest = without_key(short, key);
        assert(keys.contains(x) <==> short.contains(x) || keys.last() == x) by {
            if keys.contains(x) {
                let k = choose|k: int| 0 <= k < keys.len() && keys[k] == x;
                if k < short.len() {
                    assert(short[k] == x);
                }
            }
            if short.contains(x) {
                let k = choose|k: int| 0 <= k < short.len() && short[k] == x;
                assert(keys[k] == x);
            }
            assert(keys[keys.len() - 1] == keys.last());
        }
        let all = rest.push(keys.last());
        assert(all.contains(x) <==> rest.contains(x) || keys.last() == x) by {
            if rest.contains(x) {
                let k = choose|k: int| 0 <= k < rest.len() && rest[k] == x;
                assert(all[k] == x);
            }
            assert(all[rest.len() as int] == keys.last());
            if all.contains(x) && keys.last() != x {
                let k = choose|k: int| 0 <= k < all.len() && all[k] == x;
                assert(rest[k] == x);
            }
        }
    }
}

/// Recording a key tracks that key and keeps every other as it was, unless the
/// cap is reached; cancelling one takes away that key alone. Neither touches
/// another relation, nor who is in flight over this one.
pub proof fn tracking_concerns_one_key(
    m: DeletedKeysView,
    oid: u32,
    key: Seq<char>,
    lsn: u64,
    other: u32,
    x: Seq<char>,
)
    ensures
        m.contains_key(oid) && m[oid].keys.len() < POPULATION_DELETED_KEY_CAP ==> tracks(
            recorded(m, oid, key, lsn),
            oid,
            x,
        ) == (tracks(m, oid, x) || x == key),
        tracks(cancelled(m, oid, key), oid, x) == (tracks(m, oid, x) && x != key),
        !m.contains_key(oid) ==> recorded(m, oid, key, lsn) == m && cancelled(m, oid, key) == m,
        other != oid ==> tracks(recorded(m, oid, key, lsn), other, x) == tracks(m, other, x)
            && tracks(cancelled(m, oid, key), other, x) == tracks(m, other, x),
        m.contains_key(oid) ==> recorded(m, oid, key, lsn)[oid].populations == m[oid].populations
            && cancelled(m, oid, key)[oid].populations == m[oid].populations,
        m.contains_key(oid) ==> cancelled(m, oid, key)[oid].abort_lsn == m[oid].abort_lsn,
{
    if m.contains_key(oid) {
        let keys = m[oid].keys;
        lemma_without_key(keys, key, x);
        let all = keys.push(key);
        assert(all.contains(x) <==> keys.contains(x) || key == x) by {
            if keys.contains(x) {
                let k = choose|k: int| 0 <= k < keys.len() && keys[k] == x;
                assert(all[k] == x);
            }
            assert(all[keys.len() as int] == key);
            if all.contains(x) && key != x {
                let k = choose|k: int| 0 <= k < all.len() && all[k] == x;
                assert(keys[k] == x);
            }
        }
    }
}

/// A population must abort exactly if its snapshot lies below where the relation
/// was last emptied or lost track: aborting raises that mark and never lowers
/// it.
pub proof fn abort_mark_only_rises(m: DeletedKeysView, oid: u32, lsn: u64, snapshot_lsn: u64)
    ensures
        m.contains_key(oid) ==> (must_abort(aborted_below(m, oid, lsn), oid, snapshot_lsn)
            <==> must_abort(m, oid, snapshot_lsn) || snapshot_lsn < lsn),
        !m.contains_key(oid) ==> !must_abort(aborted_below(m, oid, lsn), oid, snapshot_lsn),
        m.contains_key(oid) ==> (must_abort(m, oid, snapshot_lsn) <==> snapshot_lsn
            < m[oid].abort_lsn),
        forall|other: u32|
            other != oid ==> #[trigger] must_abort(aborted_below(m, oid, lsn), other, snapshot_lsn)
                == must_abort(m, other, snapshot_lsn),
{
}

/// Whether a population is in flight over a relation.
pub open spec fn in_flight(m: DeletedKeysView, oid: u32, population: (u64, u64)) -> bool {
    m.contains_key(oid) && m[oid].populations.contains(population)
}

proof fn lemma_without_population(list: Seq<(u64, u64)>, gone: (u64, u64), x: (u64, u64))
    ensures
        without_population(list, gone).contains(x) <==> list.contains(x) && x != gone,
    decreases list.len(),
{
    if list.len() > 0 {
        let short = list.drop_last();
        lemma_without_population(short, gone, x);
        let rest = without_population(short, gone);
        assert(list.contains(x) <==> short.contains(x) || list.last() == x) by {
            if list.contains(x) {
                let k = choose|k: int| 0 <= k < list.len() && list[k] == x;
                if k < short.len() {
                    assert(short[k] == x);
                }
            }
            if short.contains(x) {
                let k = choose|k: int| 0 <= k < short.len() && short[k] == x;
                assert(list[k] == x);
            }
            assert(list[list.len() - 1] == list.last());
        }
        let all = rest.push(list.last());
        assert(all.contains(x) <==> rest.contains(x) || list.last() == x) by {
            if rest.contains(x) {
                let k = choose|k: int| 0 <= k < rest.len() && rest[k] == x;
                assert(all[k] == x);
            }
            assert(all[rest.len() as int] == list.last());
            if all.contains(x) && list.last() != x {
                let k = choose|k: int| 0 <= k < all.len() && all[k] == x;
                assert(rest[k] == x);
            }
        }
    }
}

/// A population enters flight over each of its relations, and no other
/// population or relation is concerned. The keys that are tracked stay; a
/// relation that gets its first population starts with none.
pub proof fn population_enters_flight(
    m: DeletedKeysView,
    oids: Seq<u32>,
    fingerprint: u64,
    generation: u64,
    oid: u32,
    x: (u64, u64),
)
    ensures
        ({
            let after = activated(m, oids, fingerprint, generation);
            &&& in_flight(after, oid, x) <==> in_flight(m, oid, x) || x == (
                fingerprint,
                generation,
            ) && oids.contains(oid)
            &&& m.contains_key(oid) ==> after.contains_key(oid) && after[oid].keys == m[oid].keys
                && after[oid].abort_lsn == m[oid].abort_lsn && after[oid].version == m[oid].version
            &&& !m.contains_key(oid) && after.contains_key(oid) ==> after[oid].keys.len() == 0
                && after[oid].abort_lsn == 0 && after[oid].version == 0
            &&& after.contains_key(oid) <==> m.contains_key(oid) || oids.contains(oid)
        }),
    decreases oids.len(),
{
    if oids.len() > 0 {
        let short = oids.drop_last();
        population_enters_flight(m, short, fingerprint, generation, oid, x);
        let before = activated(m, short, fingerprint, generation);
        let p = (fingerprint, generation);
        assert(oids.contains(oid) <==> short.contains(oid) || oids.last() == oid) by {
            if oids.contains(oid) {
                let k = choose|k: int| 0 <= k < oids.len() && oids[k] == oid;
                if k < short.len() {
                    assert(short[k] == oid);
                }
            }
            if short.contains(oid) {
                let k = choose|k: int| 0 <= k < short.len() && short[k] == oid;
                assert(oids[k] == oid);
            }
            assert(oids[oids.len() - 1] == oids.last());
        }
        if oids.last() == oid {
            if before.contains_key(oid) {
                let list = before[oid].populations;
                let all = list.push(p);
                assert(all.contains(x) <==> list.contains(x) || x == p) by {
                    if list.contains(x) {
                        let k = choose|k: int| 0 <= k < list.len() && list[k] == x;
                        assert(all[k] == x);
                    }
                    assert(all[list.len() as int] == p);
                    if all.contains(x) && x != p {
                        let k = choose|k: int| 0 <= k < all.len() && all[k] == x;
                        assert(list[k] == x);
                    }
                }
            } else {
                let all = seq![p];
                assert(all[0] == p);
                assert(all.contains(x) <==> x == p) by {
                    if all.contains(x) {
                        let k = choose|k: int| 0 <= k < all.len() && all[k] == x;
                        assert(all[k] == p);
                    }
                }
            }
        }
    }
}

/// A population leaves flight over each of its relations, and no other does. A
/// relation's keys are tracked on exactly while a population is in flight over
/// it.
pub proof fn population_leaves_flight(
    m: DeletedKeysView,
    oid: u32,
    gone: (u64, u64),
    x: (u64, u64),
)
    ensures
        ({
            let after = relation_deactivated(m, oid, gone);
            &&& in_flight(after, oid, x) <==> in_flight(m, oid, x) && x != gone
            &&& after.contains_key(oid) ==> m.contains_key(oid) && after[oid].keys == m[oid].keys
                && after[oid].abort_lsn == m[oid].abort_lsn && after[oid].version == m[oid].version
                && after[oid].populations.len() > 0
            &&& m.contains_key(oid) && !after.contains_key(oid) ==> !(in_flight(m, oid, x) && x
                != gone)
            &&& forall|other: u32|
                other != oid ==> (#[trigger] after.contains_key(other)) == m.contains_key(other)
                    && (m.contains_key(other) ==> after[other] == m[other])
        }),
{
    if m.contains_key(oid) {
        let list = m[oid].populations;
        lemma_without_population(list, gone, x);
        let left = without_population(list, gone);
        if left.len() == 0 {
            assert(!left.contains(x));
        }
    }
}

/// A population leaves flight over all of its relations.
pub proof fn population_leaves_flight_everywhere(
    m: DeletedKeysView,
    oids: Seq<u32>,
    gone: (u64, u64),
    oid: u32,
    x: (u64, u64),
)
    ensures
        in_flight(deactivated(m, oids, gone), oid, x) <==> in_flight(m, oid, x) && !(x == gone
            && oids.contains(oid)),
    decreases oids.len(),
{
    if oids.len() > 0 {
        let short = oids.drop_last();
        population_leaves_flight_everywhere(m, short, gone, oid, x);
        population_leaves_flight(deactivated(m, short, gone), oids.last(), gone, x);
        assert(oids.contains(oid) <==> short.contains(oid) || oids.last() == oid) by {
            if oids.contains(oid) {
                let k = choose|k: int| 0 <= k < oids.len() && oids[k] == oid;
                if k < short.len() {
                    assert(short[k] == oid);
                }
            }
            if short.contains(oid) {
                let k = choose|k: int| 0 <= k < short.len() && short[k] == oid;
                assert(oids[k] == oid);
            }
            assert(oids[oids.len() - 1] == oids.last());
        }
        let before = deactivated(m, short, gone);
        let after = deactivated(m, oids, gone);
        if oid != oids.last() {
            assert(after.contains_key(oid) == before.contains_key(oid));
        }
    }
}

/// A window that took longer is followed by no larger one. One that took half
/// the target time doubles, and one that took twice as long halves, within the
/// bounds.
pub proof fn slower_windows_shrink(blocks: u32, fast: u64, slow: u64)
    requires
        fast <= slow,
        8 <= blocks <= 4096,
    ensures
        window_adapted(blocks, slow) <= window_adapted(blocks, fast),
        window_adapted(blocks, (MERGE_CHUNK_TARGET_NANOS / 2) as u64) == blocks * 2,
        window_adapted(blocks, (MERGE_CHUNK_TARGET_NANOS * 2) as u64) == blocks as int / 2,
{
    let t = MERGE_CHUNK_TARGET_NANOS as int;
    let b = blocks as int;
    let (f, s) = (fast as int, slow as int);
    if f * 4 > t && s < t * 4 {
        assert(b * t / s <= b * t / f) by (nonlinear_arith)
            requires
                0 < f <= s,
                b >= 0,
                t >= 0,
        ;
    }
    if f * 4 <= t && s * 4 > t {
        assert(b * t / s <= b * 4) by (nonlinear_arith)
            requires
                s * 4 > t,
                b >= 0,
                s > 0,
        ;
        assert(b / 4 <= b * 4);
    }
    if s >= t * 4 && f < t * 4 && f * 4 > t {
        assert(b / 4 <= b * t / f) by (nonlinear_arith)
            requires
                0 < f < t * 4,
                b >= 0,
                t > 0,
        {
            assert((b / 4) * f <= b * t) by (nonlinear_arith)
                requires
                    0 < f < t * 4,
                    b >= 0,
                    t > 0,
            ;
        }
    }
    assert(b * t / (t / 2) == b * 2) by (nonlinear_arith)
        requires
            t == 100_000_000,
    ;
    assert(b * t / (t * 2) == b / 2) by (nonlinear_arith)
        requires
            t == 100_000_000,
    ;
}

/// Populations wait in the order of their snapshots, and of their generations
/// where these are the same: the order is strict, and of two populations with
/// different generations one goes first.
pub proof fn snapshots_go_in_order(a: PendingMerge, b: PendingMerge)
    ensures
        a.0.snapshot_lsn < b.0.snapshot_lsn ==> key_before(pending_key(a), pending_key(b)),
        a.0.snapshot_lsn == b.0.snapshot_lsn && a.0.generation < b.0.generation ==> key_before(
            pending_key(a),
            pending_key(b),
        ),
        key_before(pending_key(a), pending_key(b)) ==> !key_before(pending_key(b), pending_key(a)),
        a.0.snapshot_lsn > b.0.snapshot_lsn ==> !key_before(pending_key(a), pending_key(b)),
{
}

/// The count of a merged window is the number in the first cell of its first
/// row; the count of an emptied one is that of the first statement that is over.
pub proof fn counts_are_read_from_the_reply(messages: Seq<ReplyMessage>, at: int)
    requires
        0 <= at < messages.len(),
    ensures
        (messages[at] is Row && forall|j: int| 0 <= j < at ==> !((#[trigger] messages[j]) is Row))
            ==> chunk_count(messages) == (if messages[at]->Row_0@.len() > 0
            && messages[at]->Row_0@[0] is Some {
            unsigned_value(messages[at]->Row_0.deep_view()[0]->0)
        } else {
            None
        }),
        (messages[at] is CommandComplete && forall|j: int|
            0 <= j < at ==> !((#[trigger] messages[j]) is CommandComplete)) ==> discard_count(
            messages,
        ) == messages[at]->CommandComplete_0,
    decreases at,
{
    if at > 0 {
        let rest = messages.drop_first();
        counts_are_read_from_the_reply(rest, at - 1);
        assert(rest[at - 1] == messages[at]);
        if messages[at] is Row && forall|j: int|
            0 <= j < at ==> !((#[trigger] messages[j]) is Row) {
            assert(!(messages[0] is Row));
            assert forall|j: int| 0 <= j < at - 1 implies !((#[trigger] rest[j]) is Row) by {
                assert(!(messages[j + 1] is Row));
            }
        }
        if messages[at] is CommandComplete && forall|j: int|
            0 <= j < at ==> !((#[trigger] messages[j]) is CommandComplete) {
            assert(!(messages[0] is CommandComplete));
            assert forall|j: int| 0 <= j < at - 1 implies !((
            #[trigger] rest[j]) is CommandComplete) by {
                assert(!(messages[j + 1] is CommandComplete));
            }
        }
    }
    if messages[at] is Row && messages[at]->Row_0@.len() > 0 {
        assert(messages[at]->Row_0.deep_view()[0] == messages[at]->Row_0@[0].deep_view());
    }
}

/// The snapshot is the first number that the origin's reply has in a first cell.
pub proof fn snapshot_is_read_from_the_reply(messages: Seq<ReplyMessage>)
    ensures
        messages.len() == 0 ==> snapshot_lsn_of(messages) is None,
        messages.len() > 0 ==> snapshot_lsn_of(messages) == (if messages[0] is Row
            && messages[0]->Row_0@.len() > 0 && messages[0]->Row_0@[0] is Some && unsigned_value(
            messages[0]->Row_0.deep_view()[0]->0,
        ) is Some {
            unsigned_value(messages[0]->Row_0.deep_view()[0]->0)
        } else {
            snapshot_lsn_of(messages.drop_first())
        }),
{
    if messages.len() > 0 && messages[0] is Row && messages[0]->Row_0@.len() > 0 {
        assert(messages[0]->Row_0.deep_view()[0] == messages[0]->Row_0@[0].deep_view());
    }
}

/// A staged row is the tuple of all its cells, in order; its key is the cells of
/// its key columns.
pub proof fn staged_row_holds_every_cell(row: RowView, positions: Seq<usize>)
    ensures
        row_tuple(row) == "("@ + joined(
            row.map_values(|c: Option<Seq<char>>| cell_sql(c)),
            ","@,
        ) + ")"@,
        key_cells(row, positions) == positions.map_values(|p: usize| cell_sql(row[p as int])),
        is_phantom(row, positions) <==> exists|i: int|
            0 <= i < positions.len() && row[(#[trigger] positions[i]) as int] is None,
{
    assert(crate::population::row_cells(row) =~= row.map_values(
        |c: Option<Seq<char>>| cell_sql(c),
    ));
    assert(key_cells(row, positions) =~= positions.map_values(
        |p: usize| cell_sql(row[p as int]),
    ));
}

/// A row's size is that of all its texts together.
pub proof fn row_size_adds_up(a: RowView, b: RowView)
    ensures
        row_bytes(a + b) == row_bytes(a) + row_bytes(b),
        a.len() == 1 ==> row_bytes(a) == match a[0] {
            Some(text) => vstd::utf8::encode_utf8(text).len(),
            None => 0,
        },
        a.len() == 0 ==> row_bytes(a) == 0,
    decreases b.len(),
{
    if b.len() == 0 {
        assert(a + b =~= a);
    } else {
        row_size_adds_up(a, b.drop_last());
        assert((a + b).drop_last() =~= a + b.drop_last());
        assert((a + b).last() == b.last());
    }
    if a.len() == 1 {
        assert(a.drop_last() =~= Seq::<Option<Seq<char>>>::empty());
        reveal_with_fuel(row_bytes, 2);
    }
}

/// The key columns are found among the streamed ones by their names, in key
/// order.
pub proof fn key_columns_are_found_by_name(names: Seq<String>, pk: Seq<String>)
    requires
        names.len() <= usize::MAX,
    ensures
        key_positions(names, pk) == pk.filter(
            |k: String| name_position(names, k@) is Some,
        ).map_values(|k: String| name_position(names, k@)->0),
        forall|k: int|
            0 <= k < pk.len() ==> match name_position(names, (#[trigger] pk[k])@) {
                Some(i) => i < names.len() && names[i as int]@ == pk[k]@ && forall|j: int|
                    0 <= j < i ==> (#[trigger] names[j])@ != pk[k]@,
                None => forall|j: int|
                    0 <= j < names.len() ==> (#[trigger] names[j])@ != pk[k]@,
            },
{
    lemma_key_positions(names, pk);
    assert forall|k: int| 0 <= k < pk.len() implies match name_position(
        names,
        (#[trigger] pk[k])@,
    ) {
        Some(i) => i < names.len() && names[i as int]@ == pk[k]@ && forall|j: int|
            0 <= j < i ==> (#[trigger] names[j])@ != pk[k]@,
        None => forall|j: int| 0 <= j < names.len() ==> (#[trigger] names[j])@ != pk[k]@,
    } by {
        lemma_name_position(names, pk[k]@);
    }
}

proof fn lemma_key_positions(names: Seq<String>, pk: Seq<String>)
    ensures
        key_positions(names, pk) == pk.filter(
            |k: String| name_position(names, k@) is Some,
        ).map_values(|k: String| name_position(names, k@)->0),
    decreases pk.len(),
{
    reveal(Seq::filter);
    if pk.len() > 0 {
        lemma_key_positions(names, pk.drop_last());
    }
    assert(key_positions(names, pk) =~= pk.filter(
        |k: String| name_position(names, k@) is Some,
    ).map_values(|k: String| name_position(names, k@)->0));
}

proof fn lemma_name_position(names: Seq<String>, name: Seq<char>)
    requires
        names.len() <= usize::MAX,
    ensures
        match name_position(names, name) {
            Some(i) => i < names.len() && names[i as int]@ == name && forall|j: int|
                0 <= j < i ==> (#[trigger] names[j])@ != name,
            None => forall|j: int| 0 <= j < names.len() ==> (#[trigger] names[j])@ != name,
        },
    decreases names.len(),
{
    if names.len() > 0 {
        let short = names.drop_last();
        lemma_name_position(short, name);
        assert forall|j: int| 0 <= j < short.len() implies short[j] == #[trigger] names[j] by {}
    }
}

/// Keys compare by the first cell in which they differ.
pub proof fn keys_compare_by_first_difference(a: Seq<Seq<char>>, b: Seq<Seq<char>>, k: int)
    requires
        0 <= k <= a.len(),
        k <= b.len(),
        a.take(k) == b.take(k),
        k == a.len() || k == b.len() || a[k] != b[k],
    ensures
        key_less(a, b) == (k < b.len() && (k == a.len() || text_less(a[k], b[k]))),
    decreases k,
{
    if k > 0 {
        assert(a.take(k)[0] == b.take(k)[0]);
        let (x, y) = (a.drop_first(), b.drop_first());
        assert(x.take(k - 1) =~= a.take(k).drop_first());
        assert(y.take(k - 1) =~= b.take(k).drop_first());
        keys_compare_by_first_difference(x, y, k - 1);
    }
}

/// An insert into a staging table holds exactly the rows that waited, each as
/// often as it did, and no key before a lesser one.
pub proof fn insert_holds_the_waiting_rows(
    sql: Seq<char>,
    insert: InsertStatement,
    rows: Seq<StagedView>,
)
    requires
        inserts(sql, insert, rows),
    ensures
        exists|ordered: Seq<StagedView>| #[trigger] is_insert_of(sql, insert, ordered, rows),
{
    let ordered = choose|ordered: Seq<StagedView>|
        #![trigger key_ordered(ordered)]
        key_ordered(ordered) && ordered.to_multiset() == rows.to_multiset() && sql
            == insert.prefix@ + joined(tuples_of(ordered), ","@) + insert.suffix@;
    assert(tuples_of(ordered) =~= ordered.map_values(|r: StagedView| r.1));
    assert(is_insert_of(sql, insert, ordered, rows));
}

/// Whether a statement inserts the ordered rows, which are the given ones.
pub open spec fn is_insert_of(
    sql: Seq<char>,
    insert: InsertStatement,
    ordered: Seq<StagedView>,
    rows: Seq<StagedView>,
) -> bool {
    &&& ordered.to_multiset() == rows.to_multiset()
    &&& sql == insert.prefix@ + joined(ordered.map_values(|r: StagedView| r.1), ","@)
        + insert.suffix@
    &&& forall|i: int, j: int|
        0 <= i < j < ordered.len() ==> !key_less(
            (#[trigger] ordered[j]).0,
            (#[trigger] ordered[i]).0,
        )
}

} // verus!
