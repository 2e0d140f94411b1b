//! Batches of staged rows, in the order of their keys.
//!
//! Populations that stage the same rows insert them in the same order, however
//! the origin streams them, so that they never wait for each other in a circle.
use vstd::prelude::*;
use vstd::string::*;

use crate::text::joined;
use crate::text::list_append;
use crate::values::text_less;
use crate::values::text_less_exec;

verus! {

/// A staged row: the rendered cells of its key, and the whole tuple.
pub type StagedRow = (Vec<String>, String);

/// The value of a staged row.
pub type StagedView = (Seq<Seq<char>>, Seq<char>);

/// The values of staged rows.
pub open spec fn batch_view(rows: Seq<StagedRow>) -> Seq<StagedView> {
    Seq::new(rows.len(), |i: int| (rows[i].0.deep_view(), rows[i].1@))
}

/// Whether a key comes before another, cell by cell.
pub open spec fn key_less(a: Seq<Seq<char>>, b: Seq<Seq<char>>) -> bool
    decreases a.len(),
{
    if b.len() == 0 {
        false
    } else if a.len() == 0 {
        true
    } else if a[0] == b[0] {
        key_less(a.drop_first(), b.drop_first())
    } else {
        text_less(a[0], b[0])
    }
}

/// Rows in the order of their keys.
pub open spec fn key_ordered(rows: Seq<StagedView>) -> bool {
    forall|i: int, j: int|
        0 <= i < j < rows.len() ==> !key_less((#[trigger] rows[j]).0, (#[trigger] rows[i]).0)
}

/// The tuples of staged rows.
pub open spec fn tuples_of(rows: Seq<StagedView>) -> Seq<Seq<char>> {
    Seq::new(rows.len(), |i: int| rows[i].1)
}

proof fn lemma_text_order(a: Seq<char>, b: Seq<char>, c: Seq<char>)
    ensures
        text_less(a, b) ==> !text_less(b, a),
        !text_less(a, b) && !text_less(b, a) ==> a == b,
        text_less(a, b) && text_less(b, c) ==> text_less(a, c),
    decreases a.len() + b.len() + c.len(),
{
    if a.len() > 0 && b.len() > 0 && c.len() > 0 {
        lemma_text_order(a.drop_first(), b.drop_first(), c.drop_first());
        if a.drop_first() == b.drop_first() && a[0] == b[0] {
            assert(a =~= seq![a[0]] + a.drop_first());
            assert(b =~= seq![b[0]] + b.drop_first());
        }
    } else if a.len() > 0 && b.len() > 0 {
        lemma_text_order(a.drop_first(), b.drop_first(), c);
        if a.drop_first() == b.drop_first() && a[0] == b[0] {
            assert(a =~= seq![a[0]] + a.drop_first());
            assert(b =~= seq![b[0]] + b.drop_first());
        }
    } else if a.len() == 0 && b.len() == 0 {
        assert(a =~= b);
    }
}

proof fn lemma_key_order(a: Seq<Seq<char>>, b: Seq<Seq<char>>, c: Seq<Seq<char>>)
    ensures
        key_less(a, b) ==> !key_less(b, a),
        !key_less(a, b) && !key_less(b, a) ==> a == b,
        key_less(a, b) && key_less(b, c) ==> key_less(a, c),
    decreases a.len() + b.len() + c.len(),
{
    if a.len() > 0 && b.len() > 0 {
        lemma_text_order(a[0], b[0], b[0]);
        lemma_text_order(b[0], a[0], a[0]);
        if c.len() > 0 {
            lemma_text_order(a[0], b[0], c[0]);
            lemma_text_order(b[0], c[0], c[0]);
            lemma_key_order(a.drop_first(), b.drop_first(), c.drop_first());
        } else {
            lemma_key_order(a.drop_first(), b.drop_first(), c);
        }
        if a.drop_first() == b.drop_first() && a[0] == b[0] {
            assert(a =~= seq![a[0]] + a.drop_first());
            assert(b =~= seq![b[0]] + b.drop_first());
        }
    } else if a.len() == 0 && b.len() == 0 {
        assert(a =~= b);
    }
}

fn key_less_exec(a: &Vec<String>, b: &Vec<String>) -> (less: bool)
    ensures
        less == key_less(a.deep_view(), b.deep_view()),
{
    let ghost x = a.deep_view();
    let ghost y = b.deep_view();
    let mut i: usize = 0;
    proof {
        assert(x.skip(0) =~= x);
        assert(y.skip(0) =~= y);
    }
    while i < a.len() && i < b.len()
        invariant
            i <= a.len(),
            i <= b.len(),
            x == a.deep_view(),
            y == b.deep_view(),
            key_less(x, y) == key_less(x.skip(i as int), y.skip(i as int)),
        decreases a.len() - i,
    {
        proof {
            assert(x.skip(i as int).drop_first() =~= x.skip(i as int + 1));
            assert(y.skip(i as int).drop_first() =~= y.skip(i as int + 1));
            assert(x.skip(i as int)[0] == a@[i as int]@);
            assert(y.skip(i as int)[0] == b@[i as int]@);
        }
        if !(a[i] == b[i]) {
            return text_less_exec(a[i].as_str(), b[i].as_str());
        }
        i = i + 1;
    }
    i < b.len()
}

proof fn lemma_inserted_ordered(rows: Seq<StagedView>, at: int, row: StagedView)
    requires
        key_ordered(rows),
        0 <= at <= rows.len(),
        at > 0 ==> !key_less(row.0, rows[at - 1].0),
        forall|k: int| at <= k < rows.len() ==> key_less(row.0, (#[trigger] rows[k]).0),
    ensures
        key_ordered(rows.insert(at, row)),
{
    let after = rows.insert(at, row);
    assert forall|i: int, j: int| 0 <= i < j < after.len() implies !key_less(
        (#[trigger] after[j]).0,
        (#[trigger] after[i]).0,
    ) by {
        if j < at {
            assert(!key_less(rows[j].0, rows[i].0));
        } else if j == at {
            lemma_key_order(row.0, rows[i].0, rows[at - 1].0);
            lemma_key_order(rows[at - 1].0, rows[i].0, row.0);
            if i < at - 1 {
                assert(!key_less(rows[at - 1].0, rows[i].0));
            }
        } else if i == at {
            lemma_key_order(row.0, rows[j - 1].0, row.0);
        } else if i < at {
            assert(!key_less(rows[j - 1].0, rows[i].0));
        } else {
            assert(!key_less(rows[j - 1].0, rows[i - 1].0));
        }
    }
}

/// Order staged rows by their keys.
fn rows_order(rows: &mut Vec<StagedRow>)
    ensures
        key_ordered(batch_view(final(rows)@)),
        batch_view(final(rows)@).to_multiset() == batch_view(old(rows)@).to_multiset(),
{
    broadcast use vstd::seq_lib::group_to_multiset_ensures;
    broadcast use vstd::multiset::group_multiset_axioms;

    let count: usize = rows.len();
    let ghost all = batch_view(rows@).to_multiset();
    let mut i: usize = 0;
    while i < count
        invariant
            i <= count,
            rows@.len() == count,
            key_ordered(batch_view(rows@).take(i as int)),
            batch_view(rows@).to_multiset() == all,
        decreases count - i,
    {
        let ghost before = batch_view(rows@);
        let row = rows.remove(i);
        let ghost rest = batch_view(rows@);
        let ghost value: StagedView = (row.0.deep_view(), row.1@);
        proof {
            assert(before[i as int] == value);
            assert(rest =~= before.remove(i as int));
        }
        let mut at: usize = i;
        while at > 0 && key_less_exec(&row.0, &rows[at - 1].0)
            invariant
                at <= i,
                i < count,
                rows@.len() == count - 1,
                rest == batch_view(rows@),
                value == (row.0.deep_view(), row.1@),
                forall|k: int| at <= k < i ==> key_less(value.0, (#[trigger] rest[k]).0),
            decreases at,
        {
            at = at - 1;
        }
        proof {
            let head = rest.take(i as int);
            assert(head =~= before.take(i as int));
            if at > 0 {
                assert(rest[at - 1] == (rows@[at - 1].0.deep_view(), rows@[at - 1].1@));
            }
            lemma_inserted_ordered(head, at as int, value);
        }
        rows.insert(at, row);
        proof {
            let after = batch_view(rows@);
            assert(after =~= rest.insert(at as int, value));
            assert(after.take(i as int + 1) =~= rest.take(i as int).insert(at as int, value));
            vstd::seq_lib::to_multiset_insert(rest, at as int, value);
            vstd::seq_lib::to_multiset_remove(before, i as int);
            vstd::seq_lib::to_multiset_contains(before, value);
            assert(before.contains(value));
            assert(before.to_multiset().count(value) > 0);
            assert(after.to_multiset() =~= before.to_multiset());
        }
        i = i + 1;
    }
    proof {
        assert(batch_view(rows@).take(i as int) =~= batch_view(rows@));
    }
}

/// Order staged rows by their keys, and write the statement that inserts them.
pub fn batch_sql_build(insert_prefix: &str, insert_suffix: &str, rows: &mut Vec<StagedRow>) -> (sql:
    String)
    ensures
        key_ordered(batch_view(final(rows)@)),
        batch_view(final(rows)@).to_multiset() == batch_view(old(rows)@).to_multiset(),
        sql@ == insert_prefix@ + joined(tuples_of(batch_view(final(rows)@)), ","@)
            + insert_suffix@,
{
    rows_order(rows);
    let ghost tuples = tuples_of(batch_view(rows@));
    let mut items: Vec<String> = Vec::new();
    let mut i: usize = 0;
    proof {
        assert(items.deep_view() =~= tuples.take(0));
    }
    while i < rows.len()
        invariant
            i <= rows.len(),
            tuples == tuples_of(batch_view(rows@)),
            items.deep_view() == tuples.take(i as int),
        decreases rows.len() - i,
    {
        let ghost before = items.deep_view();
        items.push(rows[i].1.clone());
        proof {
            assert(items.deep_view() =~= before.push(tuples[i as int]));
            assert(items.deep_view() =~= tuples.take(i as int + 1));
        }
        i = i + 1;
    }
    proof {
        assert(tuples.take(i as int) =~= tuples);
    }
    let mut sql = insert_prefix.to_owned();
    list_append(&mut sql, &items, ",");
    sql.append(insert_suffix);
    sql
}

/// Rows whose keys differ.
pub open spec fn keys_differ(rows: Seq<StagedView>) -> bool {
    forall|i: int, j: int|
        0 <= i < j < rows.len() ==> (#[trigger] rows[i]).0 != (#[trigger] rows[j]).0
}

/// The order of a batch does not depend on how its rows came: two batches of
/// the same rows with different keys, both in order, are the same.
pub proof fn batch_order_is_canonical(a: Seq<StagedView>, b: Seq<StagedView>)
    requires
        key_ordered(a),
        key_ordered(b),
        keys_differ(a),
        a.to_multiset() == b.to_multiset(),
    ensures
        a == b,
    decreases a.len(),
{
    broadcast use vstd::seq_lib::group_to_multiset_ensures;

    assert(a.len() == a.to_multiset().len());
    assert(b.len() == b.to_multiset().len());
    if a.len() == 0 {
        assert(a =~= b);
    } else {
        let x = a.last();
        let y = b.last();
        assert(a.to_multiset().contains(x));
        assert(b.contains(x));
        assert(b.to_multiset().contains(y));
        assert(a.contains(y));
        let i = choose|i: int| 0 <= i < b.len() && b[i] == x;
        let j = choose|j: int| 0 <= j < a.len() && a[j] == y;
        if x != y {
            assert(i < b.len() - 1);
            assert(j < a.len() - 1);
            assert(!key_less(b[b.len() - 1].0, b[i].0));
            assert(!key_less(a[a.len() - 1].0, a[j].0));
            lemma_key_order(x.0, y.0, x.0);
            assert(a[j].0 != a[a.len() - 1].0);
            assert(false);
        }
        let short_a = a.drop_last();
        let short_b = b.drop_last();
        assert(short_a =~= a.remove(a.len() - 1));
        assert(short_b =~= b.remove(b.len() - 1));
        vstd::seq_lib::to_multiset_remove(a, a.len() - 1);
        vstd::seq_lib::to_multiset_remove(b, b.len() - 1);
        assert(key_ordered(short_a)) by {
            assert forall|p: int, q: int| 0 <= p < q < short_a.len() implies !key_less(
                (#[trigger] short_a[q]).0,
                (#[trigger] short_a[p]).0,
            ) by {
                assert(!key_less(a[q].0, a[p].0));
            }
        }
        assert(key_ordered(short_b)) by {
            assert forall|p: int, q: int| 0 <= p < q < short_b.len() implies !key_less(
                (#[trigger] short_b[q]).0,
                (#[trigger] short_b[p]).0,
            ) by {
                assert(!key_less(b[q].0, b[p].0));
            }
        }
        assert(keys_differ(short_a)) by {
            assert forall|p: int, q: int| 0 <= p < q < short_a.len() implies (
            #[trigger] short_a[p]).0 != (#[trigger] short_a[q]).0 by {
                assert(a[p].0 != a[q].0);
            }
        }
        batch_order_is_canonical(short_a, short_b);
        assert(a =~= short_a.push(x));
        assert(b =~= short_b.push(y));
    }
}

} // verus!
