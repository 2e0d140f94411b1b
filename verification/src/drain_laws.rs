//! From a population's attempt to its query being served: how its rows are asked
//! for and staged, which population is merged next, and what its end leads to.
use vstd::prelude::*;

use crate::cache::cached_find;
use crate::cache::CacheView;
use crate::cache::CachedQueryState;
use crate::cache::EffectView;
use crate::catalog::TableMetadata;
use crate::deadlock::is_deadlock;
use crate::drain::drain_abandoned;
use crate::drain::drain_landed;
use crate::drain::drain_started;
use crate::drain::is_current;
use crate::drain::is_releasable;
use crate::drain::population_landed;
use crate::drain::released_from;
use crate::drain::staged_oids;
use crate::drain::DrainStart;
use crate::error::CacheError;
use crate::frame::FrameState;
use crate::merge_queue::is_earliest;
use crate::merge_queue::key_before;
use crate::merge_queue::pending_key;
use crate::merge_queue::staged_view;
use crate::merge_queue::DrainView;
use crate::merge_queue::PendingMerge;
use crate::merge_queue::PopulationMerge;
use crate::population::insert_head;
use crate::population::limited_select;
use crate::population::retry_wait;
use crate::population::staging_create_text;
use crate::population::staging_drop_text;
use crate::staging_laws::in_flight;
use crate::staging_laws::population_leaves_flight_everywhere;
use crate::text::decimal;
use crate::text::joined;
use crate::writer::Writer;
use crate::writer_core::CoreView;

verus! {

/// A population is tried again after a deadlock only, five times at most, first
/// after a fiftieth of a second and then after twice as long each time.
pub proof fn only_deadlocks_are_retried(error: CacheError, attempt: nat)
    ensures
        retry_wait(error, attempt) is Some <==> is_deadlock(error) && attempt < 5,
        is_deadlock(error) ==> retry_wait(error, 0) == Some(20nat),
        retry_wait(error, attempt + 1) is Some ==> retry_wait(error, attempt) is Some
            && retry_wait(error, attempt + 1)->0 == 2 * retry_wait(error, attempt)->0,
{
}

/// A staging table is dropped, if it is there, and made anew like the relation's
/// cache table: one statement after the other.
pub proof fn staging_table_is_made_anew(table: TableMetadata, staging: Seq<char>)
    ensures
        staging_drop_text(staging) == "DROP TABLE IF EXISTS pgcache_stage."@ + staging,
        staging_create_text(table, staging) == staging_drop_text(staging) + "; "@ + (
        "CREATE TABLE pgcache_stage."@ + staging + " (LIKE "@ + table.schema@ + "."@ + table.name@
            + ")"@),
{
    reveal_strlit("; CREATE TABLE pgcache_stage.");
    reveal_strlit("; ");
    reveal_strlit("CREATE TABLE pgcache_stage.");
    assert("; CREATE TABLE pgcache_stage."@ =~= "; "@ + "CREATE TABLE pgcache_stage."@);
    assert(staging_create_text(table, staging) =~= staging_drop_text(staging) + "; "@ + (
    "CREATE TABLE pgcache_stage."@ + staging + " (LIKE "@ + table.schema@ + "."@ + table.name@
        + ")"@));
}

/// A population reads what its query selects, and no more rows than its limit:
/// different limits make different statements, and none of them is the one
/// without.
pub proof fn population_reads_up_to_its_limit(
    select: Seq<char>,
    a: Option<u64>,
    b: Option<u64>,
)
    ensures
        limited_select(select, None) == select,
        a is Some ==> limited_select(select, a) == select + " LIMIT "@ + decimal(a->0 as nat),
        a != b ==> limited_select(select, a) != limited_select(select, b),
{
    reveal_strlit(" LIMIT ");
    if a != b && limited_select(select, a) == limited_select(select, b) {
        let n = select.len() as int;
        if a is Some && b is Some {
            let (x, y) = (limited_select(select, a), limited_select(select, b));
            assert(decimal(a->0 as nat) =~= x.subrange(n + 7, x.len() as int));
            assert(decimal(b->0 as nat) =~= y.subrange(n + 7, y.len() as int));
            crate::text_laws::numerals_differ(a->0 as nat, b->0 as nat);
        } else if a is Some {
            assert(limited_select(select, a).len() > n);
        } else {
            assert(limited_select(select, b).len() > n);
        }
    }
}

/// An insert into a staging table names it and its columns, each in quotes.
pub proof fn insert_names_its_columns(columns: Seq<String>, staging: Seq<char>)
    ensures
        insert_head(columns, staging) == "INSERT INTO pgcache_stage."@ + staging + "("@ + joined(
            columns.map_values(|c: String| "\""@ + c@ + "\""@),
            ","@,
        ) + ") VALUES "@,
{
    assert(crate::population::quoted_names(columns) =~= columns.map_values(
        |c: String| "\""@ + c@ + "\""@,
    ));
}

/// A population still belongs to its query exactly while the query is registered
/// under the same generation and was not invalidated.
pub proof fn population_belongs_to_its_generation(
    c: CacheView,
    fingerprint: u64,
    generation: u64,
)
    ensures
        is_current(c, fingerprint, generation) <==> (cached_find(c.cached, fingerprint) is Some && (
        cached_find(c.cached, fingerprint)->0).generation == generation && !(cached_find(
            c.cached,
            fingerprint,
        )->0).invalidated),
{
}

proof fn lemma_landed(
    c: CoreView,
    fingerprint: u64,
    generation: u64,
    staged: Seq<(u32, Seq<char>)>,
    i: int,
)
    requires
        0 <= i < staged.len(),
    ensures
        ({
            let after = population_landed(c, fingerprint, generation, staged);
            &&& !in_flight(after.keys, staged[i].0, (fingerprint, generation))
            &&& after.cache == c.cache && after.frame == c.frame
        }),
{
    let oids = staged_oids(staged);
    assert(oids[i] == staged[i].0);
    assert(oids.contains(staged[i].0));
    population_leaves_flight_everywhere(
        c.keys,
        oids,
        (fingerprint, generation),
        staged[i].0,
        (fingerprint, generation),
    );
}

/// Once a population is merged its query is served, under the population's
/// generation, and whoever waits is told; unless the query is gone, registered
/// anew or invalidated meanwhile: then nothing is served. Either way the
/// population is no longer in flight over any of its relations.
pub proof fn merged_query_is_served(d: DrainView, c: CoreView, i: int)
    requires
        0 <= i < d.staged.len(),
    ensures
        ({
            let after = drain_landed(d, c);
            let serves = d.applying is Some && is_current(c.cache, d.fingerprint, d.generation);
            &&& !in_flight(after.keys, d.staged[i].0, (d.fingerprint, d.generation))
            &&& serves ==> {
                &&& after.cache.entries.contains_key(d.fingerprint)
                &&& after.cache.entries[d.fingerprint].state == CachedQueryState::Ready
                &&& after.cache.entries[d.fingerprint].generation == d.generation
                &&& after.cache.entries[d.fingerprint].max_limit == (
                if c.cache.entries.contains_key(d.fingerprint) {
                    c.cache.entries[d.fingerprint].max_limit
                } else {
                    None
                })
                &&& after.cache.effects.last()->Ready_max_limit
                    == after.cache.entries[d.fingerprint].max_limit
                &&& after.cache.effects.len() == c.cache.effects.len() + 1
                &&& after.cache.effects.last() is Ready
                &&& after.cache.effects.last()->Ready_fingerprint == d.fingerprint
                &&& after.cache.effects.last()->Ready_generation == d.generation
                &&& after.cache.effects.last()->Ready_sql == (cached_find(
                    c.cache.cached,
                    d.fingerprint,
                )->0).sql
            }
            &&& !serves ==> after.cache == c.cache
            &&& forall|fp: u64|
                fp != d.fingerprint ==> (#[trigger] after.cache.entries.contains_key(fp))
                    == c.cache.entries.contains_key(fp) && (c.cache.entries.contains_key(fp)
                    ==> after.cache.entries[fp] == c.cache.entries[fp])
            &&& after.cache.cached == c.cache.cached
        }),
{
    lemma_landed(c, d.fingerprint, d.generation, d.staged, i);
}

/// A population that is given up serves nothing: whoever waits for its query is
/// sent away, and it is no longer in flight.
pub proof fn abandoned_population_serves_nothing(d: DrainView, c: CoreView, i: int)
    requires
        0 <= i < d.staged.len(),
    ensures
        ({
            let after = drain_abandoned(d, c);
            &&& !in_flight(after.keys, d.staged[i].0, (d.fingerprint, d.generation))
            &&& after.cache.entries == c.cache.entries
            &&& after.cache.effects == c.cache.effects.push(
                EffectView::WaitersFail { fingerprint: d.fingerprint },
            )
        }),
{
    lemma_landed(c, d.fingerprint, d.generation, d.staged, i);
}

/// Whether a population is the one that waits by the earliest snapshot.
pub open spec fn goes_first(pending: Seq<PendingMerge>, m: PopulationMerge) -> bool {
    &&& pending.contains(PendingMerge(m))
    &&& forall|i: int|
        0 <= i < pending.len() ==> m.snapshot_lsn <= (#[trigger] pending[i]).0.snapshot_lsn
}

/// The population that is merged next is the one with the earliest snapshot; it is
/// merged only while no other is, between batches, when everything up to its
/// snapshot is applied, and while it belongs to its query. One that no longer does
/// only has its staging tables emptied.
pub proof fn earliest_population_is_merged(before: Writer, after: Writer, start: DrainStart)
    requires
        drain_started(before, after, start),
    ensures
        start == DrainStart::Merging ==> before.merges.active is None && before.core@.frame.state
            == FrameState::Idle && after.merges.active is Some && ({
            let d = after.merges.active->0@;
            &&& d.applying is Some
            &&& goes_first(before.merges.pending@, d.applying->0)
            &&& (d.applying->0).snapshot_lsn <= before.cdc.last_applied_lsn
            &&& d.fingerprint == (d.applying->0).fingerprint
            &&& d.generation == (d.applying->0).generation
            &&& d.staged == staged_view((d.applying->0).staged@)
            &&& is_current(before.core@.cache, d.fingerprint, d.generation)
            &&& after.merges.pending@.len() + 1 == before.merges.pending@.len()
            &&& d.drained_rows == 0
        }),
        start == DrainStart::Discarding ==> after.merges.active is Some && (
        after.merges.active->0@).applying is None && after.merges.pending == before.merges.pending,
        start == DrainStart::Superseded ==> before.merges.active is None && after.merges.active
            == before.merges.active && after.core@.cache == before.core@.cache && exists|
            m: PopulationMerge,
        |
            #![trigger released_from(before.merges, after.merges, m)]
            {
                &&& released_from(before.merges, after.merges, m)
                &&& goes_first(before.merges.pending@, m)
                &&& !is_current(before.core@.cache, m.fingerprint, m.generation)
                &&& m.staged@.len() > 0 ==> after.merges.discards@.len()
                    == before.merges.discards@.len() + 1 && after.merges.discards@.last().staged
                    == m.staged
            },
        start == DrainStart::Idle || start == DrainStart::Busy ==> after == before,
        before.merges.active is Some ==> start == DrainStart::Busy,
{
    if start == DrainStart::Merging {
        let m = choose|m: PopulationMerge|
            #![trigger released_from(before.merges, after.merges, m)]
            released_from(before.merges, after.merges, m) && is_releasable(
                before.core@.frame.state,
                before.cdc.last_applied_lsn,
                PendingMerge(m),
            ) && is_current(before.core@.cache, m.fingerprint, m.generation)
                && after.merges.active->0@ == crate::merge_queue::drain_begun(
                m.fingerprint,
                m.generation,
                staged_view(m.staged@),
                Some(m),
                crate::merge_queue::boundary_now(before.merges, 0),
                before.faults,
            );
        lemma_goes_first(before, after, m);
    }
    if start == DrainStart::Superseded {
        assert forall|m: PopulationMerge| #[trigger]
            released_from(before.merges, after.merges, m) implies goes_first(
            before.merges.pending@,
            m,
        ) by {
            lemma_goes_first(before, after, m);
        }
    }
}

proof fn lemma_goes_first(before: Writer, after: Writer, m: PopulationMerge)
    requires
        released_from(before.merges, after.merges, m),
    ensures
        goes_first(before.merges.pending@, m),
        after.merges.pending@.len() + 1 == before.merges.pending@.len(),
{
    let pending = before.merges.pending@;
    let at = choose|at: int|
        #![trigger is_earliest(pending, at)]
        is_earliest(pending, at) && m == pending[at].0 && after.merges.pending@ == pending.remove(
            at,
        );
    assert(pending[at] == PendingMerge(m));
    assert forall|i: int| 0 <= i < pending.len() implies m.snapshot_lsn <= (
    #[trigger] pending[i]).0.snapshot_lsn by {
        assert(!key_before(pending_key(pending[i]), pending_key(pending[at])));
    }
}

} // verus!
