//! Which relations the cache follows: how many cached queries read each one,
//! and the origin's publication that must list them.
use std::collections::HashMap;

use vstd::prelude::*;
use vstd::string::*;

use crate::catalog::TableMetadata;
use crate::frame::oid_contains;
use crate::text::joined;
use crate::text::list_append;

verus! {

broadcast use vstd::std_specs::hash::group_hash_axioms;

/// A relation and the number of cached queries that read it.
pub struct RelationCount {
    pub oid: u32,
    pub count: usize,
}

/// The relations that cached queries read.
pub struct ActiveRelations {
    /// In order of activation; counts are positive and relations distinct.
    pub counts: Vec<RelationCount>,
    /// Whether the publication may no longer list exactly these relations.
    pub dirty: bool,
    /// What the publication lists.
    pub publication_oids: Vec<u32>,
}

/// The value of a list of counts.
pub type CountsView = Seq<(u32, nat)>;

/// The mathematical value of [`ActiveRelations`].
#[verifier::ext_equal]
pub struct ActiveView {
    pub counts: CountsView,
    pub dirty: bool,
    pub publication_oids: Seq<u32>,
}

pub open spec fn counts_view(counts: Seq<RelationCount>) -> CountsView {
    Seq::new(counts.len(), |i: int| (counts[i].oid, counts[i].count as nat))
}

impl View for ActiveRelations {
    type V = ActiveView;

    open spec fn view(&self) -> ActiveView {
        ActiveView {
            counts: counts_view(self.counts@),
            dirty: self.dirty,
            publication_oids: self.publication_oids@,
        }
    }
}

/// How many cached queries read the relation.
pub open spec fn count_of(counts: CountsView, oid: u32) -> nat
    decreases counts.len(),
{
    if counts.len() == 0 {
        0
    } else if counts.last().0 == oid {
        counts.last().1
    } else {
        count_of(counts.drop_last(), oid)
    }
}

/// The relations that cached queries read, in order of activation.
pub open spec fn active_oids(counts: CountsView) -> Seq<u32> {
    Seq::new(counts.len(), |i: int| counts[i].0)
}

/// Relations are listed once, each with a reader.
pub open spec fn counts_wf(counts: CountsView) -> bool {
    &&& forall|i: int, j: int|
        0 <= i < j < counts.len() ==> (#[trigger] counts[i]).0 != (#[trigger] counts[j]).0
    &&& forall|i: int| 0 <= i < counts.len() ==> (#[trigger] counts[i]).1 > 0
}

/// One more query reads the relation.
pub open spec fn acquired_one(counts: CountsView, oid: u32) -> CountsView
    decreases counts.len(),
{
    if counts.len() == 0 {
        seq![(oid, 1)]
    } else if counts[0].0 == oid {
        counts.update(0, (oid, counts[0].1 + 1))
    } else {
        seq![counts[0]] + acquired_one(counts.drop_first(), oid)
    }
}

/// One query fewer reads the relation; with the last one it is not listed.
pub open spec fn released_one(counts: CountsView, oid: u32) -> CountsView
    decreases counts.len(),
{
    if counts.len() == 0 {
        counts
    } else if counts[0].0 == oid {
        if counts[0].1 <= 1 {
            counts.drop_first()
        } else {
            counts.update(0, (oid, (counts[0].1 - 1) as nat))
        }
    } else {
        seq![counts[0]] + released_one(counts.drop_first(), oid)
    }
}

pub open spec fn acquired(counts: CountsView, oids: Seq<u32>) -> CountsView
    decreases oids.len(),
{
    if oids.len() == 0 {
        counts
    } else {
        acquired_one(acquired(counts, oids.drop_last()), oids.last())
    }
}

pub open spec fn released(counts: CountsView, oids: Seq<u32>) -> CountsView
    decreases oids.len(),
{
    if oids.len() == 0 {
        counts
    } else {
        released_one(released(counts, oids.drop_last()), oids.last())
    }
}

/// Whether reading `oids` gives some relation its first reader.
pub open spec fn acquire_activates(counts: CountsView, oids: Seq<u32>) -> bool {
    acquired(counts, oids).len() > counts.len()
}

/// Whether no longer reading `oids` takes some relation its last reader.
pub open spec fn release_deactivates(counts: CountsView, oids: Seq<u32>) -> bool {
    released(counts, oids).len() < counts.len()
}

/// The relations after a query starts to read `oids`: with a first reader they
/// no longer match the publication.
pub open spec fn relations_acquired(a: ActiveView, oids: Seq<u32>) -> ActiveView {
    ActiveView {
        counts: acquired(a.counts, oids),
        dirty: a.dirty || acquire_activates(a.counts, oids),
        ..a
    }
}

/// The relations after a query stops reading `oids`: with a last reader gone
/// they no longer match the publication.
pub open spec fn relations_released(a: ActiveView, oids: Seq<u32>) -> ActiveView {
    ActiveView {
        counts: released(a.counts, oids),
        dirty: a.dirty || release_deactivates(a.counts, oids),
        ..a
    }
}

/// How often `oid` occurs in `oids`.
pub open spec fn occurrences(oids: Seq<u32>, oid: u32) -> nat
    decreases oids.len(),
{
    if oids.len() == 0 {
        0
    } else {
        occurrences(oids.drop_last(), oid) + if oids.last() == oid {
            1nat
        } else {
            0
        }
    }
}

/// How many cached queries read the relation, reading the list from its front.
pub proof fn lemma_count_front(counts: CountsView, oid: u32)
    requires
        counts_wf(counts),
        counts.len() > 0,
    ensures
        counts_wf(counts.drop_first()),
        count_of(counts, oid) == if counts[0].0 == oid {
            counts[0].1
        } else {
            count_of(counts.drop_first(), oid)
        },
        counts[0].0 == oid ==> count_of(counts.drop_first(), oid) == 0,
    decreases counts.len(),
{
    let rest = counts.drop_first();
    assert(counts_wf(rest)) by {
        assert forall|i: int, j: int| 0 <= i < j < rest.len() implies (#[trigger] rest[i]).0 != (
        #[trigger] rest[j]).0 by {
            assert(rest[i] == counts[i + 1]);
            assert(rest[j] == counts[j + 1]);
        }
        assert forall|i: int| 0 <= i < rest.len() implies (#[trigger] rest[i]).1 > 0 by {
            assert(rest[i] == counts[i + 1]);
        }
    }
    if counts.len() == 1 {
        assert(counts.last() == counts[0]);
        assert(counts.drop_last() =~= Seq::empty());
        assert(rest =~= Seq::empty());
    } else {
        assert(counts.last() == rest.last());
        assert(rest.drop_last() =~= counts.drop_last().drop_first());
        let short = counts.drop_last();
        assert(counts_wf(short)) by {
            assert forall|i: int, j: int| 0 <= i < j < short.len() implies (
            #[trigger] short[i]).0 != (#[trigger] short[j]).0 by {
                assert(short[i] == counts[i]);
                assert(short[j] == counts[j]);
            }
            assert forall|i: int| 0 <= i < short.len() implies (#[trigger] short[i]).1 > 0 by {
                assert(short[i] == counts[i]);
            }
        }
        lemma_count_front(short, oid);
        assert(counts[counts.len() - 1] == counts.last());
        if counts[0].0 == oid {
            assert(counts.last().0 != oid);
        }
    }
}

/// Acquiring keeps the list well-formed, and counts one more reader of the
/// relation and no other change.
pub proof fn acquire_counts_one_reader(counts: CountsView, oid: u32)
    requires
        counts_wf(counts),
    ensures
        counts_wf(acquired_one(counts, oid)),
        forall|x: u32|
            #[trigger] count_of(acquired_one(counts, oid), x) == count_of(counts, x) + if x == oid {
                1nat
            } else {
                0
            },
        forall|i: int|
            0 <= i < acquired_one(counts, oid).len() ==> (
            #[trigger] acquired_one(counts, oid)[i]).0 == oid || active_oids(counts).contains(
                acquired_one(counts, oid)[i].0,
            ),
    decreases counts.len(),
{
    let after = acquired_one(counts, oid);
    if counts.len() == 0 {
        assert(after.drop_last() =~= counts);
        assert(after.last() == (oid, 1nat));
        assert forall|x: u32|
            #[trigger] count_of(after, x) == count_of(counts, x) + if x == oid {
                1nat
            } else {
                0
            } by {
            assert(count_of(after.drop_last(), x) == 0);
        }
    } else {
        let rest = counts.drop_first();
        lemma_count_front(counts, oid);
        if counts[0].0 == oid {
            assert forall|i: int, j: int| 0 <= i < j < after.len() implies (
            #[trigger] after[i]).0 != (#[trigger] after[j]).0 by {
                assert(after[i].0 == counts[i].0);
                assert(after[j].0 == counts[j].0);
            }
            assert forall|i: int| 0 <= i < after.len() implies (#[trigger] after[i]).1 > 0 by {
                assert(counts[i].1 > 0);
            }
            assert(after.drop_first() =~= rest);
        } else {
            acquire_counts_one_reader(rest, oid);
            let tail = acquired_one(rest, oid);
            assert(after.drop_first() =~= tail);
            assert forall|i: int, j: int| 0 <= i < j < after.len() implies (
            #[trigger] after[i]).0 != (#[trigger] after[j]).0 by {
                assert(after[j] == tail[j - 1]);
                if i > 0 {
                    assert(after[i] == tail[i - 1]);
                } else if tail[j - 1].0 != oid {
                    assert(active_oids(rest).contains(tail[j - 1].0));
                    let k = choose|k: int|
                        0 <= k < active_oids(rest).len() && active_oids(rest)[k] == tail[j - 1].0;
                    assert(rest[k] == counts[k + 1]);
                    assert(counts[0].0 != counts[k + 1].0);
                }
            }
            assert forall|i: int| 0 <= i < after.len() implies (#[trigger] after[i]).1 > 0 by {
                if i > 0 {
                    assert(after[i] == tail[i - 1]);
                }
            }
        }
        assert forall|x: u32|
            #[trigger] count_of(after, x) == count_of(counts, x) + if x == oid {
                1nat
            } else {
                0
            } by {
            lemma_count_front(counts, x);
            lemma_count_front(after, x);
        }
        assert forall|i: int| 0 <= i < after.len() implies (#[trigger] after[i]).0 == oid
            || active_oids(counts).contains(after[i].0) by {
            assert(active_oids(counts)[0] == counts[0].0);
            if i > 0 {
                if counts[0].0 == oid {
                    assert(active_oids(counts)[i] == counts[i].0);
                } else {
                    let tail = acquired_one(rest, oid);
                    assert(after[i] == tail[i - 1]);
                    if tail[i - 1].0 != oid {
                        let k = choose|k: int|
                            0 <= k < active_oids(rest).len() && active_oids(rest)[k] == tail[i
                                - 1].0;
                        assert(active_oids(counts)[k + 1] == rest[k].0);
                    }
                }
            }
        }
    }
}

/// Releasing keeps the list well-formed, and counts one reader fewer of the
/// relation, down to none, and no other change.
pub proof fn release_counts_one_reader_fewer(counts: CountsView, oid: u32)
    requires
        counts_wf(counts),
    ensures
        counts_wf(released_one(counts, oid)),
        forall|x: u32|
            #[trigger] count_of(released_one(counts, oid), x) == if x == oid && count_of(counts, x)
                > 0 {
                (count_of(counts, x) - 1) as nat
            } else {
                count_of(counts, x)
            },
        forall|i: int|
            0 <= i < released_one(counts, oid).len() ==> active_oids(counts).contains(
                (#[trigger] released_one(counts, oid)[i]).0,
            ),
    decreases counts.len(),
{
    let after = released_one(counts, oid);
    if counts.len() > 0 {
        let rest = counts.drop_first();
        lemma_count_front(counts, oid);
        if counts[0].0 == oid {
            if counts[0].1 > 1 {
                assert forall|i: int, j: int| 0 <= i < j < after.len() implies (
                #[trigger] after[i]).0 != (#[trigger] after[j]).0 by {
                    assert(after[i].0 == counts[i].0);
                    assert(after[j].0 == counts[j].0);
                }
                assert forall|i: int| 0 <= i < after.len() implies (#[trigger] after[i]).1
                    > 0 by {
                    assert(counts[i].1 > 0);
                }
                assert(after.drop_first() =~= rest);
            }
        } else {
            release_counts_one_reader_fewer(rest, oid);
            let tail = released_one(rest, oid);
            assert(after.drop_first() =~= tail);
            assert forall|i: int, j: int| 0 <= i < j < after.len() implies (
            #[trigger] after[i]).0 != (#[trigger] after[j]).0 by {
                assert(after[j] == tail[j - 1]);
                if i > 0 {
                    assert(after[i] == tail[i - 1]);
                } else {
                    assert(active_oids(rest).contains(tail[j - 1].0));
                    let k = choose|k: int|
                        0 <= k < active_oids(rest).len() && active_oids(rest)[k] == tail[j - 1].0;
                    assert(rest[k] == counts[k + 1]);
                    assert(counts[0].0 != counts[k + 1].0);
                }
            }
            assert forall|i: int| 0 <= i < after.len() implies (#[trigger] after[i]).1 > 0 by {
                if i > 0 {
                    assert(after[i] == tail[i - 1]);
                }
            }
        }
        assert forall|x: u32|
            #[trigger] count_of(after, x) == if x == oid && count_of(counts, x) > 0 {
                (count_of(counts, x) - 1) as nat
            } else {
                count_of(counts, x)
            } by {
            lemma_count_front(counts, x);
            if after.len() > 0 {
                lemma_count_front(after, x);
            }
            if counts[0].0 == oid && counts[0].1 <= 1 {
                assert(after == rest);
            }
        }
        assert forall|i: int| 0 <= i < after.len() implies active_oids(counts).contains(
            (#[trigger] after[i]).0,
        ) by {
            if counts[0].0 == oid && counts[0].1 <= 1 {
                assert(active_oids(counts)[i + 1] == after[i].0);
            } else if counts[0].0 == oid || i == 0 {
                assert(active_oids(counts)[i] == after[i].0);
            } else {
                let tail = released_one(rest, oid);
                assert(after[i] == tail[i - 1]);
                let k = choose|k: int|
                    0 <= k < active_oids(rest).len() && active_oids(rest)[k] == tail[i - 1].0;
                assert(active_oids(counts)[k + 1] == rest[k].0);
            }
        }
    }
}

pub proof fn lemma_acquired(counts: CountsView, oids: Seq<u32>)
    requires
        counts_wf(counts),
    ensures
        counts_wf(acquired(counts, oids)),
        forall|x: u32|
            #[trigger] count_of(acquired(counts, oids), x) == count_of(counts, x) + occurrences(
                oids,
                x,
            ),
    decreases oids.len(),
{
    if oids.len() > 0 {
        lemma_acquired(counts, oids.drop_last());
        acquire_counts_one_reader(acquired(counts, oids.drop_last()), oids.last());
    }
}

pub proof fn lemma_released(counts: CountsView, oids: Seq<u32>)
    requires
        counts_wf(counts),
    ensures
        counts_wf(released(counts, oids)),
        forall|x: u32|
            #[trigger] count_of(released(counts, oids), x) == if count_of(counts, x) > occurrences(
                oids,
                x,
            ) {
                (count_of(counts, x) - occurrences(oids, x)) as nat
            } else {
                0
            },
    decreases oids.len(),
{
    if oids.len() > 0 {
        lemma_released(counts, oids.drop_last());
        release_counts_one_reader_fewer(released(counts, oids.drop_last()), oids.last());
    }
}

/// A relation is listed exactly while some cached query reads it.
pub proof fn listed_iff_read(counts: CountsView, oid: u32)
    requires
        counts_wf(counts),
    ensures
        active_oids(counts).contains(oid) <==> count_of(counts, oid) > 0,
    decreases counts.len(),
{
    if counts.len() > 0 {
        lemma_count_front(counts, oid);
        let rest = counts.drop_first();
        listed_iff_read(rest, oid);
        let all = active_oids(counts);
        assert(all[0] == counts[0].0);
        if active_oids(rest).contains(oid) {
            let k = choose|k: int| 0 <= k < active_oids(rest).len() && active_oids(rest)[k] == oid;
            assert(all[k + 1] == oid);
        }
        if all.contains(oid) {
            let k = choose|k: int| 0 <= k < all.len() && all[k] == oid;
            if k > 0 {
                assert(active_oids(rest)[k - 1] == oid);
            }
        }
    }
}

proof fn lemma_count_at(counts: CountsView, i: int)
    requires
        counts_wf(counts),
        0 <= i < counts.len(),
    ensures
        count_of(counts, counts[i].0) == counts[i].1,
    decreases counts.len(),
{
    lemma_count_front(counts, counts[i].0);
    if i > 0 {
        assert(counts[0].0 != counts[i].0);
        assert(counts.drop_first()[i - 1] == counts[i]);
        lemma_count_at(counts.drop_first(), i - 1);
    }
}

/// Acquiring keeps the listed relations where they are.
proof fn lemma_acquired_keeps(counts: CountsView, oids: Seq<u32>)
    ensures
        acquired(counts, oids).len() >= counts.len(),
        forall|i: int|
            0 <= i < counts.len() ==> (#[trigger] acquired(counts, oids)[i]).0 == counts[i].0,
    decreases oids.len(),
{
    if oids.len() > 0 {
        let before = acquired(counts, oids.drop_last());
        lemma_acquired_keeps(counts, oids.drop_last());
        lemma_acquired_bound(before, oids.last());
        assert forall|i: int| 0 <= i < counts.len() implies (
        #[trigger] acquired(counts, oids)[i]).0 == counts[i].0 by {
            assert(before[i].0 == counts[i].0);
        }
    }
}

/// Releasing keeps the first `n` relations where they are, if each of them
/// keeps a reader.
proof fn lemma_released_one_keeps(counts: CountsView, oid: u32, n: int)
    requires
        0 <= n <= counts.len(),
        forall|i: int|
            0 <= i < n && (#[trigger] counts[i]).0 == oid ==> counts[i].1 > 1,
    ensures
        released_one(counts, oid).len() >= n,
        forall|i: int|
            0 <= i < n ==> (#[trigger] released_one(counts, oid)[i]).0 == counts[i].0,
    decreases counts.len(),
{
    if n > 0 && counts[0].0 != oid {
        let rest = counts.drop_first();
        assert forall|i: int| 0 <= i < n - 1 && (#[trigger] rest[i]).0 == oid implies rest[i].1
            > 1 by {
            assert(rest[i] == counts[i + 1]);
        }
        lemma_released_one_keeps(rest, oid, n - 1);
        assert forall|i: int| 0 <= i < n implies (#[trigger] released_one(counts, oid)[i]).0
            == counts[i].0 by {
            if i > 0 {
                assert(released_one(counts, oid)[i] == released_one(rest, oid)[i - 1]);
            }
        }
    }
}

proof fn lemma_released_keeps(counts: CountsView, oids: Seq<u32>, n: int)
    requires
        counts_wf(counts),
        0 <= n <= counts.len(),
        forall|i: int|
            0 <= i < n ==> (#[trigger] counts[i]).1 > occurrences(oids, counts[i].0),
    ensures
        released(counts, oids).len() >= n,
        forall|i: int|
            0 <= i < n ==> (#[trigger] released(counts, oids)[i]).0 == counts[i].0,
    decreases oids.len(),
{
    if oids.len() > 0 {
        let short = oids.drop_last();
        let before = released(counts, short);
        lemma_released_keeps(counts, short, n);
        lemma_released(counts, short);
        assert forall|i: int|
            0 <= i < n && (#[trigger] before[i]).0 == oids.last() implies before[i].1 > 1 by {
            assert(before[i].0 == counts[i].0);
            lemma_count_at(before, i);
            lemma_count_at(counts, i);
        }
        lemma_released_one_keeps(before, oids.last(), n);
        assert forall|i: int| 0 <= i < n implies (#[trigger] released(counts, oids)[i]).0
            == counts[i].0 by {
            assert(before[i].0 == counts[i].0);
        }
    }
}

/// Releasing what was just acquired leaves no trace but the dirty flag: the
/// same relations are listed, in the same order and with the same readers, and
/// the release takes some relation its last reader exactly if the acquisition
/// gave one its first. In between, too, a relation is listed exactly while it
/// is read, and the dirty flag is up whenever the listed relations changed.
pub proof fn release_undoes_acquire(a: ActiveView, oids: Seq<u32>)
    requires
        counts_wf(a.counts),
    ensures
        ({
            let held = relations_acquired(a, oids);
            let after = relations_released(held, oids);
            let changed = acquire_activates(a.counts, oids);
            &&& after == (ActiveView { dirty: a.dirty || changed, ..a })
            &&& release_deactivates(held.counts, oids) == changed
            &&& changed ==> held.dirty && after.dirty
            &&& counts_wf(held.counts)
            &&& counts_wf(after.counts)
            &&& forall|x: u32| #[trigger]
                active_oids(held.counts).contains(x) <==> count_of(held.counts, x) > 0
            &&& forall|x: u32| #[trigger]
                active_oids(after.counts).contains(x) <==> count_of(after.counts, x) > 0
        }),
{
    let counts = a.counts;
    let held = acquired(counts, oids);
    let after = released(held, oids);
    lemma_acquired(counts, oids);
    lemma_released(held, oids);
    lemma_acquired_keeps(counts, oids);
    assert forall|i: int| 0 <= i < counts.len() implies (#[trigger] held[i]).1 > occurrences(
        oids,
        held[i].0,
    ) by {
        assert(held[i].0 == counts[i].0);
        lemma_count_at(counts, i);
        lemma_count_at(held, i);
    }
    lemma_released_keeps(held, oids, counts.len() as int);
    assert forall|i: int| 0 <= i < counts.len() implies after[i] == counts[i] by {
        assert(held[i].0 == counts[i].0);
        assert(after[i].0 == held[i].0);
        lemma_count_at(counts, i);
        lemma_count_at(after, i);
    }
    if after.len() > counts.len() {
        let x = after[counts.len() as int].0;
        lemma_count_at(after, counts.len() as int);
        listed_iff_read(counts, x);
        assert(active_oids(counts).contains(x));
        let k = choose|k: int| 0 <= k < active_oids(counts).len() && active_oids(counts)[k] == x;
        assert(after[k] == counts[k]);
        assert(after[k].0 != after[counts.len() as int].0);
    }
    assert(after =~= counts);
    assert(relations_released(relations_acquired(a, oids), oids) =~= (ActiveView {
        dirty: a.dirty || acquire_activates(counts, oids),
        ..a
    }));
    assert forall|x: u32| #[trigger] active_oids(held).contains(x) <==> count_of(held, x)
        > 0 by {
        listed_iff_read(held, x);
    }
    assert forall|x: u32| #[trigger] active_oids(counts).contains(x) <==> count_of(counts, x)
        > 0 by {
        listed_iff_read(counts, x);
    }
}

/// `schema.name` of each known relation.
pub open spec fn plain_tables(tables: Map<u32, TableMetadata>, oids: Seq<u32>) -> Seq<Seq<char>>
    decreases oids.len(),
{
    if oids.len() == 0 {
        Seq::empty()
    } else {
        let rest = plain_tables(tables, oids.drop_last());
        if tables.contains_key(oids.last()) {
            rest.push(tables[oids.last()].schema@ + "."@ + tables[oids.last()].name@)
        } else {
            rest
        }
    }
}

/// The known relations as a comma-separated list.
pub fn oids_to_table_list(tables: &HashMap<u32, TableMetadata>, oids: &Vec<u32>) -> (list: String)
    ensures
        list@ == joined(plain_tables(tables@, oids@), ", "@),
{
    let mut items: Vec<String> = Vec::new();
    let mut i: usize = 0;
    while i < oids.len()
        invariant
            i <= oids.len(),
            items.deep_view() =~= plain_tables(tables@, oids@.take(i as int)),
        decreases oids.len() - i,
    {
        proof {
            assert(oids@.take(i + 1).drop_last() =~= oids@.take(i as int));
        }
        if let Some(table) = tables.get(&oids[i]) {
            let mut item = table.schema.clone();
            item.append(".");
            item.append(table.name.as_str());
            let ghost before = items.deep_view();
            let ghost text = item@;
            items.push(item);
            proof {
                assert(items.deep_view() =~= before.push(text));
            }
        }
        i = i + 1;
    }
    proof {
        assert(oids@.take(i as int) =~= oids@);
    }
    let mut list = String::new();
    list_append(&mut list, &items, ", ");
    proof {
        assert(list@ =~= joined(plain_tables(tables@, oids@), ", "@));
    }
    list
}

/// What the publication must do to list the active relations.
pub enum PublicationPlan {
    /// It already does.
    InSync,
    /// Run `sql` at the origin; then the relations in `removed` have no reader
    /// left, and their cache tables go.
    Alter { sql: String, removed: Vec<u32> },
}

/// The relations of `oids` outside `others`.
pub open spec fn oids_outside(oids: Seq<u32>, others: Seq<u32>) -> Seq<u32>
    decreases oids.len(),
{
    if oids.len() == 0 {
        oids
    } else {
        let rest = oids_outside(oids.drop_last(), others);
        if others.contains(oids.last()) {
            rest
        } else {
            rest.push(oids.last())
        }
    }
}

/// Whether two lists name the same relations.
pub open spec fn same_oids(a: Seq<u32>, b: Seq<u32>) -> bool {
    oids_outside(a, b).len() == 0 && oids_outside(b, a).len() == 0
}

/// The statement that makes the publication list `active` in place of
/// `published`. An empty list cannot be set, so the last relations are dropped.
pub open spec fn publication_sql(
    name: Seq<char>,
    tables: Map<u32, TableMetadata>,
    published: Seq<u32>,
    active: Seq<u32>,
) -> Seq<char> {
    if active.len() == 0 {
        "ALTER PUBLICATION "@ + name + " DROP TABLE "@ + joined(
            plain_tables(tables, published),
            ", "@,
        )
    } else {
        "ALTER PUBLICATION "@ + name + " SET TABLE "@ + joined(plain_tables(tables, active), ", "@)
    }
}

fn oids_outside_collect(oids: &Vec<u32>, others: &Vec<u32>) -> (outside: Vec<u32>)
    ensures
        outside@ == oids_outside(oids@, others@),
{
    let mut outside: Vec<u32> = Vec::new();
    let mut i: usize = 0;
    while i < oids.len()
        invariant
            i <= oids.len(),
            outside@ =~= oids_outside(oids@.take(i as int), others@),
        decreases oids.len() - i,
    {
        proof {
            assert(oids@.take(i + 1).drop_last() =~= oids@.take(i as int));
        }
        if !oid_contains(others, oids[i]) {
            outside.push(oids[i]);
        }
        i = i + 1;
    }
    proof {
        assert(oids@.take(i as int) =~= oids@);
    }
    outside
}

impl ActiveRelations {
    /// No relation is read.
    pub fn new() -> (a: ActiveRelations)
        ensures
            a@ == (ActiveView {
                counts: Seq::empty(),
                dirty: false,
                publication_oids: Seq::empty(),
            }),
    {
        let a = ActiveRelations {
            counts: Vec::new(),
            dirty: false,
            publication_oids: Vec::new(),
        };
        proof {
            assert(a@.counts =~= Seq::<(u32, nat)>::empty());
        }
        a
    }

    /// The relations that cached queries read, in order of activation.
    pub fn active(&self) -> (oids: Vec<u32>)
        ensures
            oids@ == active_oids(self@.counts),
    {
        let mut oids: Vec<u32> = Vec::new();
        let mut i: usize = 0;
        while i < self.counts.len()
            invariant
                i <= self.counts.len(),
                oids@ =~= active_oids(self@.counts).take(i as int),
            decreases self.counts.len() - i,
        {
            oids.push(self.counts[i].oid);
            i = i + 1;
        }
        oids
    }

    fn acquire_one(&mut self, oid: u32) -> (activated: bool)
        requires
            forall|i: int|
                0 <= i < old(self).counts@.len() && (#[trigger] old(self).counts@[i]).oid == oid
                    ==> old(self).counts@[i].count < usize::MAX,
        ensures
            final(self)@ == (ActiveView {
                counts: acquired_one(old(self)@.counts, oid),
                ..old(self)@
            }),
            activated == !active_oids(old(self)@.counts).contains(oid),
            final(self)@.counts.len() == old(self)@.counts.len() + if activated {
                1int
            } else {
                0
            },
    {
        let ghost view = self@.counts;
        let mut i: usize = 0;
        proof {
            assert(view.skip(0) =~= view);
            assert(view.take(0) + acquired_one(view.skip(0), oid) =~= acquired_one(view, oid));
        }
        while i < self.counts.len()
            invariant
                i <= self.counts.len(),
                *self == *old(self),
                view == self@.counts,
                forall|k: int| 0 <= k < i ==> (#[trigger] view[k]).0 != oid,
                acquired_one(view, oid) == view.take(i as int) + acquired_one(
                    view.skip(i as int),
                    oid,
                ),
                forall|i: int|
                    0 <= i < self.counts@.len() && (#[trigger] self.counts@[i]).oid == oid
                        ==> self.counts@[i].count < usize::MAX,
            decreases self.counts.len() - i,
        {
            proof {
                assert(view.skip(i as int)[0] == view[i as int]);
                assert(view.skip(i as int).drop_first() =~= view.skip(i + 1));
            }
            if self.counts[i].oid == oid {
                let count = self.counts[i].count;
                self.counts[i] = RelationCount { oid, count: count + 1 };
                proof {
                    assert(self@.counts =~= acquired_one(view, oid));
                    assert(active_oids(view)[i as int] == oid);
                }
                return false;
            }
            proof {
                assert(view.take(i as int) + (seq![view[i as int]] + acquired_one(
                    view.skip(i + 1),
                    oid,
                )) =~= view.take(i + 1) + acquired_one(view.skip(i + 1), oid));
            }
            i = i + 1;
        }
        self.counts.push(RelationCount { oid, count: 1 });
        proof {
            assert(view.skip(i as int) =~= Seq::<(u32, nat)>::empty());
            assert(self@.counts =~= acquired_one(view, oid));
            assert forall|k: int| 0 <= k < active_oids(view).len() implies active_oids(view)[k]
                != oid by {
                assert(view[k].0 != oid);
            }
        }
        true
    }

    /// A cached query starts to read `oids`; whether a relation got its first
    /// reader, which the publication must then list.
    pub fn active_relations_acquire(&mut self, oids: &Vec<u32>) -> (changed: bool)
        requires
            forall|i: int|
                0 <= i < old(self).counts@.len() ==> (#[trigger] old(self).counts@[i]).count
                    + occurrences(oids@, old(self).counts@[i].oid) <= usize::MAX,
        ensures
            final(self)@ == relations_acquired(old(self)@, oids@),
            changed == acquire_activates(old(self)@.counts, oids@),
            counts_wf(old(self)@.counts) ==> (changed <==> exists|i: int|
                0 <= i < oids@.len() && count_of(old(self)@.counts, #[trigger] oids@[i]) == 0),
    {
        let ghost start = self@;
        let mut changed = false;
        let mut i: usize = 0;
        let count: usize = oids.len();
        proof {
            assert(oids@.skip(0) =~= oids@);
        }
        while i < count
            invariant
                i <= count,
                count == oids@.len(),
                start == old(self)@,
                self@ == (ActiveView {
                    counts: acquired(start.counts, oids@.take(i as int)),
                    ..start
                }),
                self@.counts.len() >= start.counts.len(),
                changed == (self@.counts.len() > start.counts.len()),
                forall|k: int|
                    0 <= k < self.counts@.len() ==> (#[trigger] self.counts@[k]).count
                        + occurrences(oids@.skip(i as int), self.counts@[k].oid) <= usize::MAX,
                counts_wf(start.counts) ==> (changed <==> exists|k: int|
                    0 <= k < i && count_of(start.counts, #[trigger] oids@[k]) == 0),
            decreases count - i,
        {
            let oid = oids[i];
            let ghost before = self@.counts;
            let ghost before_exec = self.counts@;
            proof {
                assert(oids@.take(i + 1).drop_last() =~= oids@.take(i as int));
                assert forall|x: u32| #[trigger]
                    occurrences(oids@.skip(i as int), x) == occurrences(oids@.skip(i + 1), x) + if x
                        == oid {
                        1nat
                    } else {
                        0
                    } by {
                    assert(oids@.skip(i as int).drop_first() =~= oids@.skip(i + 1));
                    lemma_occurrences_front(oids@.skip(i as int), x);
                }
                if counts_wf(start.counts) {
                    lemma_acquired(start.counts, oids@.take(i as int));
                    listed_iff_read(before, oid);
                    lemma_occurrences(oids@.take(i as int), oid);
                }
            }
            let activated = self.acquire_one(oid);
            if activated {
                changed = true;
            }
            proof {
                lemma_acquired_bound(before, oid);
                assert forall|k: int| 0 <= k < self.counts@.len() implies (
                #[trigger] self.counts@[k]).count + occurrences(
                    oids@.skip(i + 1),
                    self.counts@[k].oid,
                ) <= usize::MAX by {
                    assert(self@.counts[k] == (
                        self.counts@[k].oid,
                        self.counts@[k].count as nat,
                    ));
                    lemma_occurrences_bound(oids@.skip(i + 1), self.counts@[k].oid);
                    if k < before.len() {
                        assert(before[k] == (before_exec[k].oid, before_exec[k].count as nat));
                        assert(before_exec[k].count + occurrences(
                            oids@.skip(i as int),
                            before_exec[k].oid,
                        ) <= usize::MAX);
                    }
                }
                if counts_wf(start.counts) {
                    if activated {
                        if exists|k: int| 0 <= k < i && #[trigger] oids@[k] == oid {
                            let k = choose|k: int| 0 <= k < i && #[trigger] oids@[k] == oid;
                            assert(oids@.take(i as int)[k] == oid);
                        }
                        assert(count_of(start.counts, oids@[i as int]) == 0);
                    } else if count_of(start.counts, oid) == 0 {
                        assert(occurrences(oids@.take(i as int), oid) > 0);
                        let k = choose|k: int|
                            0 <= k < oids@.take(i as int).len() && oids@.take(i as int)[k] == oid;
                        assert(oids@[k] == oid);
                        assert(changed);
                    }
                }
            }
            i = i + 1;
        }
        proof {
            assert(oids@.take(i as int) =~= oids@);
        }
        if changed {
            self.dirty = true;
        }
        changed
    }

    fn release_one(&mut self, oid: u32) -> (deactivated: bool)
        ensures
            final(self)@ == (ActiveView {
                counts: released_one(old(self)@.counts, oid),
                ..old(self)@
            }),
            deactivated == (final(self)@.counts.len() < old(self)@.counts.len()),
    {
        let ghost view = self@.counts;
        let mut i: usize = 0;
        proof {
            assert(view.skip(0) =~= view);
            assert(view.take(0) + released_one(view.skip(0), oid) =~= released_one(view, oid));
        }
        while i < self.counts.len()
            invariant
                i <= self.counts.len(),
                *self == *old(self),
                view == self@.counts,
                released_one(view, oid) == view.take(i as int) + released_one(
                    view.skip(i as int),
                    oid,
                ),
            decreases self.counts.len() - i,
        {
            proof {
                assert(view.skip(i as int)[0] == view[i as int]);
                assert(view.skip(i as int).drop_first() =~= view.skip(i + 1));
            }
            if self.counts[i].oid == oid {
                let count = self.counts[i].count;
                if count <= 1 {
                    self.counts.remove(i);
                    proof {
                        assert(self@.counts =~= released_one(view, oid));
                    }
                    return true;
                }
                self.counts[i] = RelationCount { oid, count: count - 1 };
                proof {
                    assert(self@.counts =~= released_one(view, oid));
                }
                return false;
            }
            proof {
                assert(view.take(i as int) + (seq![view[i as int]] + released_one(
                    view.skip(i + 1),
                    oid,
                )) =~= view.take(i + 1) + released_one(view.skip(i + 1), oid));
            }
            i = i + 1;
        }
        proof {
            assert(view.skip(i as int) =~= Seq::<(u32, nat)>::empty());
            assert(self@.counts =~= released_one(view, oid));
        }
        false
    }

    /// A cached query stops reading `oids`; whether a relation lost its last
    /// reader, which the publication need then no longer list.
    pub fn active_relations_release(&mut self, oids: &Vec<u32>) -> (changed: bool)
        ensures
            final(self)@ == relations_released(old(self)@, oids@),
            changed == release_deactivates(old(self)@.counts, oids@),
    {
        let ghost start = self@;
        let mut changed = false;
        let mut i: usize = 0;
        while i < oids.len()
            invariant
                i <= oids.len(),
                self@ == (ActiveView {
                    counts: released(start.counts, oids@.take(i as int)),
                    ..start
                }),
                self@.counts.len() <= start.counts.len(),
                changed == (self@.counts.len() < start.counts.len()),
            decreases oids.len() - i,
        {
            proof {
                assert(oids@.take(i + 1).drop_last() =~= oids@.take(i as int));
                lemma_released_len(self@.counts, oids@[i as int]);
            }
            if self.release_one(oids[i]) {
                changed = true;
            }
            i = i + 1;
        }
        proof {
            assert(oids@.take(i as int) =~= oids@);
        }
        if changed {
            self.dirty = true;
        }
        changed
    }

    /// What the publication must do to list the active relations; it is in
    /// sync once it lists exactly them.
    pub fn publication_update(
        &self,
        name: &String,
        tables: &HashMap<u32, TableMetadata>,
    ) -> (plan: PublicationPlan)
        ensures
            ({
                let active = active_oids(self@.counts);
                let published = self@.publication_oids;
                match plan {
                    PublicationPlan::InSync => same_oids(active, published),
                    PublicationPlan::Alter { sql, removed } => {
                        &&& !same_oids(active, published)
                        &&& sql@ == publication_sql(name@, tables@, published, active)
                        &&& removed@ == oids_outside(published, active)
                    },
                }
            }),
    {
        let active = self.active();
        let removed = oids_outside_collect(&self.publication_oids, &active);
        let added = oids_outside_collect(&active, &self.publication_oids);
        if removed.len() == 0 && added.len() == 0 {
            return PublicationPlan::InSync;
        }
        let mut sql = "ALTER PUBLICATION ".to_owned();
        sql.append(name.as_str());
        if active.len() == 0 {
            sql.append(" DROP TABLE ");
            let list = oids_to_table_list(tables, &self.publication_oids);
            sql.append(list.as_str());
        } else {
            sql.append(" SET TABLE ");
            let list = oids_to_table_list(tables, &active);
            sql.append(list.as_str());
        }
        PublicationPlan::Alter { sql, removed }
    }

    /// Start to drain the dirty flag: the plan to run, or `None` when nothing
    /// is to be done. The cache transaction's locks make it wait, with the
    /// flag left up.
    pub fn publication_dirty_drain(
        &mut self,
        locks_held: bool,
        name: &String,
        tables: &HashMap<u32, TableMetadata>,
    ) -> (plan: Option<PublicationPlan>)
        ensures
            plan is Some <==> old(self)@.dirty && !locks_held,
            final(self)@ == (ActiveView {
                dirty: old(self)@.dirty && locks_held,
                ..old(self)@
            }),
            ({
                let active = active_oids(old(self)@.counts);
                let published = old(self)@.publication_oids;
                match plan {
                    None => true,
                    Some(PublicationPlan::InSync) => same_oids(active, published),
                    Some(PublicationPlan::Alter { sql, removed }) => {
                        &&& !same_oids(active, published)
                        &&& sql@ == publication_sql(name@, tables@, published, active)
                        &&& removed@ == oids_outside(published, active)
                    },
                }
            }),
    {
        if !self.dirty || locks_held {
            return None;
        }
        self.dirty = false;
        Some(self.publication_update(name, tables))
    }

    /// The publication now lists the active relations.
    pub fn publication_updated(&mut self)
        ensures
            final(self)@ == (ActiveView {
                dirty: false,
                publication_oids: active_oids(old(self)@.counts),
                ..old(self)@
            }),
    {
        self.publication_oids = self.active();
        self.dirty = false;
    }
}

proof fn lemma_occurrences(oids: Seq<u32>, oid: u32)
    ensures
        occurrences(oids, oid) > 0 <==> oids.contains(oid),
    decreases oids.len(),
{
    if oids.len() > 0 {
        let short = oids.drop_last();
        lemma_occurrences(short, oid);
        if short.contains(oid) {
            let k = choose|k: int| 0 <= k < short.len() && short[k] == oid;
            assert(oids[k] == oid);
        }
        if oids.last() == oid {
            assert(oids[oids.len() - 1] == oid);
        }
        if oids.contains(oid) {
            let k = choose|k: int| 0 <= k < oids.len() && oids[k] == oid;
            if k < short.len() {
                assert(short[k] == oid);
            }
        }
    }
}

proof fn lemma_occurrences_front(oids: Seq<u32>, oid: u32)
    requires
        oids.len() > 0,
    ensures
        occurrences(oids, oid) == occurrences(oids.drop_first(), oid) + if oids[0] == oid {
            1nat
        } else {
            0
        },
    decreases oids.len(),
{
    if oids.len() == 1 {
        assert(oids.drop_last() =~= Seq::<u32>::empty());
        assert(oids.drop_first() =~= Seq::<u32>::empty());
    } else {
        lemma_occurrences_front(oids.drop_last(), oid);
        assert(oids.drop_last().drop_first() =~= oids.drop_first().drop_last());
    }
}

proof fn lemma_occurrences_bound(oids: Seq<u32>, oid: u32)
    ensures
        occurrences(oids, oid) <= oids.len(),
    decreases oids.len(),
{
    if oids.len() > 0 {
        lemma_occurrences_bound(oids.drop_last(), oid);
    }
}

/// Acquiring raises at most the relation's count, by one.
proof fn lemma_acquired_bound(counts: CountsView, oid: u32)
    ensures
        acquired_one(counts, oid).len() >= counts.len(),
        forall|k: int|
            0 <= k < counts.len() ==> (#[trigger] acquired_one(counts, oid)[k]).0 == counts[k].0
                && acquired_one(counts, oid)[k].1 <= counts[k].1 + if counts[k].0 == oid {
                1int
            } else {
                0
            },
        forall|k: int|
            counts.len() <= k < acquired_one(counts, oid).len() ==> (
            #[trigger] acquired_one(counts, oid)[k]).1 == 1,
    decreases counts.len(),
{
    if counts.len() > 0 && counts[0].0 != oid {
        let rest = counts.drop_first();
        lemma_acquired_bound(rest, oid);
        let tail = acquired_one(rest, oid);
        let after = acquired_one(counts, oid);
        assert forall|k: int| 0 <= k < counts.len() implies (#[trigger] after[k]).0
            == counts[k].0 && after[k].1 <= counts[k].1 + if counts[k].0 == oid {
            1int
        } else {
            0
        } by {
            if k > 0 {
                assert(after[k] == tail[k - 1]);
                assert(rest[k - 1] == counts[k]);
            }
        }
        assert forall|k: int| counts.len() <= k < after.len() implies (#[trigger] after[k]).1
            == 1 by {
            assert(after[k] == tail[k - 1]);
        }
    }
}

proof fn lemma_released_len(counts: CountsView, oid: u32)
    ensures
        released_one(counts, oid).len() <= counts.len(),
    decreases counts.len(),
{
    if counts.len() > 0 && counts[0].0 != oid {
        lemma_released_len(counts.drop_first(), oid);
    }
}

} // verus!
