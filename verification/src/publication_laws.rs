//! What the publication lists: every relation that a cached query reads.
use vstd::prelude::*;

use crate::cache::tables_dropped;
use crate::catalog::TableMetadata;
use crate::cdc::TaskView;
use crate::frame::FrameState;
use crate::prepared::PreparedView;
use crate::publication::acquired;
use crate::publication::active_oids;
use crate::publication::count_of;
use crate::publication::counts_wf;
use crate::publication::lemma_acquired;
use crate::publication::lemma_count_front;
use crate::publication::lemma_released;
use crate::publication::listed_iff_read;
use crate::publication::occurrences;
use crate::publication::oids_outside;
use crate::publication::plain_tables;
use crate::publication::publication_sql;
use crate::publication::relations_released;
use crate::publication::release_counts_one_reader_fewer;
use crate::publication::released;
use crate::publication::released_one;
use crate::publication::same_oids;
use crate::publication::ActiveView;
use crate::publication::CountsView;
use crate::replay::ReplayReplyView;
use crate::task::task_answered;
use crate::task::task_step;
use crate::text::joined;
use crate::writer_core::CoreView;

verus! {

/// How a relation is named in a publication.
pub open spec fn published_name(tables: Map<u32, TableMetadata>, oid: u32) -> Seq<char> {
    tables[oid].schema@ + "."@ + tables[oid].name@
}

/// Whether a name is that of a known relation of a list.
pub open spec fn names_one(
    tables: Map<u32, TableMetadata>,
    oids: Seq<u32>,
    name: Seq<char>,
) -> bool {
    exists|i: int|
        0 <= i < oids.len() && tables.contains_key(#[trigger] oids[i]) && published_name(
            tables,
            oids[i],
        ) == name
}

/// A list of relations names every known one of them, in order, and nothing
/// else: as many names as known relations.
pub proof fn list_names_every_known_relation(tables: Map<u32, TableMetadata>, oids: Seq<u32>)
    ensures
        plain_tables(tables, oids) == oids.filter(
            |oid: u32| tables.contains_key(oid),
        ).map_values(|oid: u32| published_name(tables, oid)),
        forall|i: int|
            0 <= i < oids.len() && tables.contains_key(#[trigger] oids[i]) ==> plain_tables(
                tables,
                oids,
            ).contains(published_name(tables, oids[i])),
        forall|j: int|
            0 <= j < plain_tables(tables, oids).len() ==> names_one(
                tables,
                oids,
                #[trigger] plain_tables(tables, oids)[j],
            ),
        (forall|i: int| 0 <= i < oids.len() ==> tables.contains_key(#[trigger] oids[i]))
            ==> plain_tables(tables, oids).len() == oids.len(),
    decreases oids.len(),
{
    reveal(Seq::filter);
    let names = plain_tables(tables, oids);
    if oids.len() > 0 {
        let short = oids.drop_last();
        let n = oids.len() - 1;
        list_names_every_known_relation(tables, short);
        let before = plain_tables(tables, short);
        assert forall|i: int|
            0 <= i < oids.len() && tables.contains_key(#[trigger] oids[i]) implies names.contains(
            published_name(tables, oids[i]),
        ) by {
            if i < n {
                assert(short[i] == oids[i]);
                assert(before.contains(published_name(tables, short[i])));
                let k = choose|k: int|
                    0 <= k < before.len() && before[k] == published_name(tables, oids[i]);
                assert(names[k] == before[k]);
            } else {
                assert(names[names.len() - 1] == published_name(tables, oids[i]));
            }
        }
        assert forall|j: int| 0 <= j < names.len() implies names_one(
            tables,
            oids,
            #[trigger] names[j],
        ) by {
            if j < before.len() {
                assert(names[j] == before[j]);
                assert(names_one(tables, short, before[j]));
                let i = choose|i: int|
                    0 <= i < short.len() && tables.contains_key(#[trigger] short[i])
                        && published_name(tables, short[i]) == before[j];
                assert(tables.contains_key(oids[i]));
            } else {
                assert(tables.contains_key(oids[n]));
            }
        }
        if forall|i: int| 0 <= i < oids.len() ==> tables.contains_key(#[trigger] oids[i]) {
            assert forall|i: int| 0 <= i < short.len() implies tables.contains_key(
                #[trigger] short[i],
            ) by {
                assert(tables.contains_key(oids[i]));
            }
            assert(tables.contains_key(oids[n]));
        }
    }
    assert(names =~= oids.filter(|oid: u32| tables.contains_key(oid)).map_values(
        |oid: u32| published_name(tables, oid),
    ));
}

/// While some relation is active, the publication is set to exactly the active
/// ones; when none is left, those that it listed are dropped from it.
pub proof fn publication_is_set_to_the_active_relations(
    name: Seq<char>,
    tables: Map<u32, TableMetadata>,
    published: Seq<u32>,
    active: Seq<u32>,
)
    ensures
        publication_sql(name, tables, published, active) == (if active.len() > 0 {
            "ALTER PUBLICATION "@ + name + " SET TABLE "@ + joined(
                active.filter(|oid: u32| tables.contains_key(oid)).map_values(
                    |oid: u32| published_name(tables, oid),
                ),
                ", "@,
            )
        } else {
            "ALTER PUBLICATION "@ + name + " DROP TABLE "@ + joined(
                published.filter(|oid: u32| tables.contains_key(oid)).map_values(
                    |oid: u32| published_name(tables, oid),
                ),
                ", "@,
            )
        }),
{
    list_names_every_known_relation(tables, active);
    list_names_every_known_relation(tables, published);
}

/// Outside another list are exactly the relations that it does not hold.
pub proof fn outside_is_what_the_other_lacks(a: Seq<u32>, b: Seq<u32>, oid: u32)
    ensures
        oids_outside(a, b).contains(oid) <==> a.contains(oid) && !b.contains(oid),
    decreases a.len(),
{
    if a.len() > 0 {
        let short = a.drop_last();
        outside_is_what_the_other_lacks(short, b, oid);
        let rest = oids_outside(short, b);
        assert(a.contains(oid) <==> short.contains(oid) || a.last() == oid) by {
            if a.contains(oid) {
                let k = choose|k: int| 0 <= k < a.len() && a[k] == oid;
                if k < short.len() {
                    assert(short[k] == oid);
                }
            }
            if short.contains(oid) {
                let k = choose|k: int| 0 <= k < short.len() && short[k] == oid;
                assert(a[k] == oid);
            }
            assert(a[a.len() - 1] == a.last());
        }
        assert(rest.push(a.last()).contains(oid) <==> rest.contains(oid) || a.last() == oid) by {
            let all = rest.push(a.last());
            if rest.contains(oid) {
                let k = choose|k: int| 0 <= k < rest.len() && rest[k] == oid;
                assert(all[k] == oid);
            }
            assert(all[rest.len() as int] == a.last());
            if all.contains(oid) && a.last() != oid {
                let k = choose|k: int| 0 <= k < all.len() && all[k] == oid;
                assert(rest[k] == oid);
            }
        }
    }
}

/// The publication is in sync exactly if it lists the same relations as are
/// active, in whatever order.
pub proof fn in_sync_iff_the_same_relations(a: Seq<u32>, b: Seq<u32>)
    ensures
        same_oids(a, b) <==> forall|oid: u32| #[trigger] a.contains(oid) <==> b.contains(oid),
{
    let (x, y) = (oids_outside(a, b), oids_outside(b, a));
    assert forall|oid: u32| #[trigger]
        x.contains(oid) <==> a.contains(oid) && !b.contains(oid) by {
        outside_is_what_the_other_lacks(a, b, oid);
    }
    assert forall|oid: u32| #[trigger]
        y.contains(oid) <==> b.contains(oid) && !a.contains(oid) by {
        outside_is_what_the_other_lacks(b, a, oid);
    }
    if same_oids(a, b) {
        assert forall|oid: u32| #[trigger] a.contains(oid) <==> b.contains(oid) by {
            assert(!x.contains(oid));
            assert(!y.contains(oid));
        }
    } else {
        if x.len() > 0 {
            assert(x.contains(x[0]));
            assert(a.contains(x[0]) && !b.contains(x[0]));
        }
        if y.len() > 0 {
            assert(y.contains(y[0]));
            assert(b.contains(y[0]) && !a.contains(y[0]));
        }
    }
}

/// Draining the mark of a publication that is out of date asks for it to be
/// altered, and of one that is not for nothing; once it is altered it lists
/// exactly the relations that some cached query reads, and is marked no more.
pub proof fn drained_publication_lists_what_is_read(
    c: CoreView,
    applied: u64,
    statements: PreparedView,
)
    requires
        counts_wf(c.cache.active.counts),
        c.cache.active.dirty,
        c.frame.state != FrameState::TxnOpen,
    ensures
        ({
            let o = task_step(TaskView::Publish, c, applied, statements);
            let published = c.cache.active.publication_oids;
            let in_sync = forall|oid: u32| #[trigger]
                published.contains(oid) <==> count_of(c.cache.active.counts, oid) > 0;
            &&& o.error is None
            &&& !o.core.cache.active.dirty
            &&& o.core.cache.active.counts == c.cache.active.counts
            &&& in_sync ==> o.task is Done
            &&& !in_sync ==> o.task is Altering && {
                let done = task_answered(
                    o.task,
                    o.core,
                    applied,
                    statements,
                    ReplayReplyView::Sent,
                );
                &&& done.task is Done
                &&& done.error is None
                &&& forall|oid: u32| #[trigger]
                    done.core.cache.active.publication_oids.contains(oid) <==> count_of(
                        c.cache.active.counts,
                        oid,
                    ) > 0
                &&& forall|oid: u32| #[trigger]
                    o.task->removed.contains(oid) <==> published.contains(oid) && count_of(
                        c.cache.active.counts,
                        oid,
                    ) == 0
            }
        }),
{
    let published = c.cache.active.publication_oids;
    let active = active_oids(c.cache.active.counts);
    assert forall|oid: u32| #[trigger]
        active.contains(oid) <==> count_of(c.cache.active.counts, oid) > 0 by {
        listed_iff_read(c.cache.active.counts, oid);
    }
    in_sync_iff_the_same_relations(active, published);
    let o = task_step(TaskView::Publish, c, applied, statements);
    let in_sync = forall|oid: u32| #[trigger]
        published.contains(oid) <==> count_of(c.cache.active.counts, oid) > 0;
    if same_oids(active, published) {
        assert forall|oid: u32| #[trigger]
            published.contains(oid) <==> count_of(c.cache.active.counts, oid) > 0 by {
            assert(active.contains(oid) <==> published.contains(oid));
        }
    } else {
        let oid = choose|oid: u32| (#[trigger] active.contains(oid)) != published.contains(oid);
        assert(!in_sync) by {
            assert(published.contains(oid) != (count_of(c.cache.active.counts, oid) > 0));
        }
        let removed = oids_outside(published, active);
        assert forall|oid: u32| #[trigger]
            removed.contains(oid) <==> published.contains(oid) && count_of(
                c.cache.active.counts,
                oid,
            ) == 0 by {
            outside_is_what_the_other_lacks(published, active, oid);
            assert(active.contains(oid) <==> count_of(c.cache.active.counts, oid) > 0);
        }
        lemma_drop_keeps_active(
            crate::cache::CacheView {
                active: crate::publication::ActiveView {
                    dirty: false,
                    publication_oids: active,
                    ..o.core.cache.active
                },
                ..o.core.cache
            },
            removed,
        );
    }
}

proof fn lemma_drop_keeps_active(c: crate::cache::CacheView, oids: Seq<u32>)
    ensures
        tables_dropped(c, oids).active == c.active,
    decreases oids.len(),
{
    if oids.len() > 0 {
        lemma_drop_keeps_active(c, oids.drop_last());
    }
}

/// Each relation counts its readers: reading it adds as many as it is named, no
/// longer reading it takes as many away, and no other relation is concerned.
pub proof fn readers_are_counted(counts: CountsView, oids: Seq<u32>, oid: u32)
    requires
        counts_wf(counts),
    ensures
        count_of(acquired(counts, oids), oid) == count_of(counts, oid) + occurrences(oids, oid),
        count_of(counts, oid) >= occurrences(oids, oid) ==> count_of(released(counts, oids), oid)
            == count_of(counts, oid) - occurrences(oids, oid),
        count_of(counts, oid) < occurrences(oids, oid) ==> count_of(released(counts, oids), oid)
            == 0,
        counts_wf(acquired(counts, oids)),
        counts_wf(released(counts, oids)),
{
    lemma_acquired(counts, oids);
    lemma_released(counts, oids);
}

proof fn lemma_released_len(counts: CountsView, oid: u32)
    requires
        counts_wf(counts),
    ensures
        released_one(counts, oid).len() == counts.len() - if count_of(counts, oid) == 1 {
            1int
        } else {
            0
        },
    decreases counts.len(),
{
    if counts.len() > 0 {
        lemma_count_front(counts, oid);
        lemma_released_len(counts.drop_first(), oid);
    }
}

/// Whether a relation had readers and has none left.
pub open spec fn lost_its_readers(before: CountsView, after: CountsView, oid: u32) -> bool {
    count_of(before, oid) > 0 && count_of(after, oid) == 0
}

/// The publication has to be looked at again exactly if it had to before, or a
/// relation has lost its last reader.
pub proof fn lost_relation_is_noticed(a: ActiveView, oids: Seq<u32>)
    requires
        counts_wf(a.counts),
    ensures
        relations_released(a, oids).dirty <==> a.dirty || exists|oid: u32|
            lost_its_readers(a.counts, released(a.counts, oids), oid),
{
    lemma_lost(a.counts, oids);
}

proof fn lemma_lost(counts: CountsView, oids: Seq<u32>)
    requires
        counts_wf(counts),
    ensures
        released(counts, oids).len() <= counts.len(),
        released(counts, oids).len() < counts.len() <==> exists|oid: u32|
            lost_its_readers(counts, released(counts, oids), oid),
    decreases oids.len(),
{
    if oids.len() == 0 {
    } else {
        let short = oids.drop_last();
        let last = oids.last();
        let before = released(counts, short);
        let after = released(counts, oids);
        lemma_lost(counts, short);
        lemma_released(counts, short);
        lemma_released(counts, oids);
        lemma_released_len(before, last);
        release_counts_one_reader_fewer(before, last);
        if exists|oid: u32| lost_its_readers(counts, before, oid) {
            let oid = choose|oid: u32| lost_its_readers(counts, before, oid);
            assert(lost_its_readers(counts, after, oid));
        }
        if count_of(before, last) == 1 {
            assert(count_of(counts, last) > 0);
            assert(lost_its_readers(counts, after, last));
        }
        if exists|oid: u32| lost_its_readers(counts, after, oid) {
            let oid = choose|oid: u32| lost_its_readers(counts, after, oid);
            if count_of(before, oid) == 0 {
                assert(lost_its_readers(counts, before, oid));
            } else {
                assert(oid == last && count_of(before, oid) == 1);
            }
        }
    }
}

} // verus!
