//! Bounded caches of prepared statements, least recently used first to go.
//!
//! A statement stands here by the number its owner gave it. The owner keeps
//! the statements themselves, and releases those whose number comes back.
use std::collections::HashMap;
use std::num::NonZeroUsize;

use vstd::prelude::*;

verus! {

broadcast use vstd::std_specs::hash::group_hash_axioms;

/// Prepared statements of one kind kept at a time.
pub const PREPARED_EVAL_CACHE_CAPACITY: usize = 512;

/// What a statement is prepared for: a relation, and a query over it (or zero
/// for the relation's row-change statement).
pub type PreparedKey = (u32, u64);

/// A prepared statement: the epoch it was prepared in, and its number.
pub type PreparedValue = (u64, u64);

/// The entries of a cache, most recently used first.
pub type PreparedEntries = Seq<(PreparedKey, PreparedValue)>;

/// `lru::LruCache`, an opaque collection.
#[verifier::external_type_specification]
#[verifier::external_body]
#[verifier::reject_recursive_types(K)]
#[verifier::reject_recursive_types(V)]
#[verifier::reject_recursive_types(S)]
pub struct ExLruCache<K, V, S>(lru::LruCache<K, V, S>);

/// `lru::DefaultHasher`, how an `LruCache` hashes its keys.
#[verifier::external_type_specification]
#[verifier::external_body]
pub struct ExDefaultHasher(lru::DefaultHasher);

/// What an `LruCache` holds, most recently used first.
pub uninterp spec fn lru_entries(
    cache: lru::LruCache<(u32, u64), (u64, u64)>,
) -> Seq<((u32, u64), (u64, u64))>;

/// How many entries an `LruCache` holds at most.
pub uninterp spec fn lru_capacity(cache: lru::LruCache<(u32, u64), (u64, u64)>) -> nat;

/// The value under a key.
pub open spec fn value_under(s: PreparedEntries, key: PreparedKey) -> Option<PreparedValue>
    decreases s.len(),
{
    if s.len() == 0 {
        None
    } else if s.last().0 == key {
        Some(s.last().1)
    } else {
        value_under(s.drop_last(), key)
    }
}

/// The entries but for a key's.
pub open spec fn entries_without(s: PreparedEntries, key: PreparedKey) -> PreparedEntries
    decreases s.len(),
{
    if s.len() == 0 {
        s
    } else {
        let rest = entries_without(s.drop_last(), key);
        if s.last().0 == key {
            rest
        } else {
            rest.push(s.last())
        }
    }
}

/// The entries after a use of a key.
pub open spec fn entries_touched(s: PreparedEntries, key: PreparedKey) -> PreparedEntries {
    match value_under(s, key) {
        Some(v) => seq![(key, v)] + entries_without(s, key),
        None => s,
    }
}

/// The entries after a key is given a value: it is the most recently used, and
/// a full cache gives up the least recently used one for a new key.
pub open spec fn entries_pushed(
    s: PreparedEntries,
    key: PreparedKey,
    value: PreparedValue,
    capacity: nat,
) -> PreparedEntries {
    seq![(key, value)] + if value_under(s, key) is Some {
        entries_without(s, key)
    } else if s.len() == capacity {
        s.drop_last()
    } else {
        s
    }
}

/// The entry that goes when a key is given a value: the key's old one, or the
/// least recently used one of a full cache.
pub open spec fn entry_displaced(s: PreparedEntries, key: PreparedKey, capacity: nat) -> Option<
    (PreparedKey, PreparedValue),
> {
    match value_under(s, key) {
        Some(v) => Some((key, v)),
        None => if s.len() == capacity && s.len() > 0 {
            Some(s.last())
        } else {
            None
        },
    }
}

/// `LruCache::new`: an empty cache of the given capacity.
#[verifier::external_body]
fn lru_new(capacity: usize) -> (cache: lru::LruCache<(u32, u64), (u64, u64)>)
    requires
        0 < capacity <= 4096,
    ensures
        lru_entries(cache) == Seq::<((u32, u64), (u64, u64))>::empty(),
        lru_capacity(cache) == capacity as nat,
{
    lru::LruCache::new(NonZeroUsize::new(capacity).unwrap_or(NonZeroUsize::MIN))
}

/// `LruCache::get`: the value under the key, whose entry becomes the most
/// recently used one.
#[verifier::external_body]
fn lru_get(cache: &mut lru::LruCache<(u32, u64), (u64, u64)>, key: (u32, u64)) -> (value: Option<
    (u64, u64),
>)
    ensures
        value == value_under(lru_entries(*old(cache)), key),
        lru_entries(*final(cache)) == entries_touched(lru_entries(*old(cache)), key),
        lru_capacity(*final(cache)) == lru_capacity(*old(cache)),
{
    cache.get(&key).copied()
}

/// `LruCache::push`: the entry becomes the most recently used one. What comes
/// back is the key's old entry, or the least recently used entry of a full
/// cache, which made room.
#[verifier::external_body]
fn lru_push(
    cache: &mut lru::LruCache<(u32, u64), (u64, u64)>,
    key: (u32, u64),
    value: (u64, u64),
) -> (displaced: Option<((u32, u64), (u64, u64))>)
    ensures
        displaced == entry_displaced(lru_entries(*old(cache)), key, lru_capacity(*old(cache))),
        lru_entries(*final(cache)) == entries_pushed(
            lru_entries(*old(cache)),
            key,
            value,
            lru_capacity(*old(cache)),
        ),
        lru_capacity(*final(cache)) == lru_capacity(*old(cache)),
{
    cache.push(key, value)
}

/// `LruCache::pop`: the key's entry is removed and its value comes back.
#[verifier::external_body]
fn lru_pop(cache: &mut lru::LruCache<(u32, u64), (u64, u64)>, key: (u32, u64)) -> (value: Option<
    (u64, u64),
>)
    ensures
        value == value_under(lru_entries(*old(cache)), key),
        lru_entries(*final(cache)) == entries_without(lru_entries(*old(cache)), key),
        lru_capacity(*final(cache)) == lru_capacity(*old(cache)),
{
    cache.pop(&key)
}

/// `LruCache::iter`: the entries, most recently used first.
#[verifier::external_body]
fn lru_keys(cache: &lru::LruCache<(u32, u64), (u64, u64)>) -> (keys: Vec<(u32, u64)>)
    ensures
        keys@ == lru_entries(*cache).map_values(|e: ((u32, u64), (u64, u64))| e.0),
{
    cache.iter().map(|entry| *entry.0).collect()
}

/// Keys are held once.
pub open spec fn keys_distinct(s: PreparedEntries) -> bool {
    forall|i: int, j: int|
        0 <= i < j < s.len() ==> (#[trigger] s[i]).0 != (#[trigger] s[j]).0
}

/// The entries but for those of a relation.
pub open spec fn entries_outside(s: PreparedEntries, oid: u32) -> PreparedEntries
    decreases s.len(),
{
    if s.len() == 0 {
        s
    } else {
        let rest = entries_outside(s.drop_last(), oid);
        if s.last().0.0 == oid {
            rest
        } else {
            rest.push(s.last())
        }
    }
}

/// The numbers of a relation's statements, most recently used first.
pub open spec fn relation_statements(s: PreparedEntries, oid: u32) -> Seq<u64>
    decreases s.len(),
{
    if s.len() == 0 {
        Seq::empty()
    } else {
        let rest = relation_statements(s.drop_last(), oid);
        if s.last().0.0 == oid {
            rest.push(s.last().1.1)
        } else {
            rest
        }
    }
}

proof fn lemma_value_under(s: PreparedEntries, key: PreparedKey)
    ensures
        value_under(s, key) matches Some(v) ==> exists|i: int|
            0 <= i < s.len() && s[i] == (key, v),
        value_under(s, key) is None <==> forall|i: int|
            0 <= i < s.len() ==> (#[trigger] s[i]).0 != key,
    decreases s.len(),
{
    if s.len() > 0 {
        let short = s.drop_last();
        lemma_value_under(short, key);
        if s.last().0 == key {
            assert(s[s.len() - 1] == (key, s.last().1));
        } else {
            if value_under(short, key) is Some {
                let v = value_under(short, key)->0;
                let i = choose|i: int| 0 <= i < short.len() && short[i] == (key, v);
                assert(s[i] == (key, v));
            } else {
                assert forall|i: int| 0 <= i < s.len() implies (#[trigger] s[i]).0 != key by {
                    if i < short.len() {
                        assert(short[i].0 != key);
                    }
                }
            }
            if forall|i: int| 0 <= i < s.len() ==> (#[trigger] s[i]).0 != key {
                assert forall|i: int| 0 <= i < short.len() implies (#[trigger] short[i]).0
                    != key by {
                    assert(s[i].0 != key);
                }
            }
        }
    }
}

proof fn lemma_entries_without(s: PreparedEntries, key: PreparedKey)
    requires
        keys_distinct(s),
    ensures
        keys_distinct(entries_without(s, key)),
        forall|i: int|
            0 <= i < entries_without(s, key).len() ==> (
            #[trigger] entries_without(s, key)[i]).0 != key && s.contains(
                entries_without(s, key)[i],
            ),
        entries_without(s, key).len() == if value_under(s, key) is Some {
            s.len() - 1
        } else {
            s.len() as int
        },
    decreases s.len(),
{
    if s.len() > 0 {
        let short = s.drop_last();
        assert(keys_distinct(short)) by {
            assert forall|i: int, j: int| 0 <= i < j < short.len() implies (
            #[trigger] short[i]).0 != (#[trigger] short[j]).0 by {
                assert(s[i].0 != s[j].0);
            }
        }
        lemma_entries_without(short, key);
        lemma_value_under(short, key);
        let rest = entries_without(short, key);
        let all = entries_without(s, key);
        assert(s[s.len() - 1] == s.last());
        assert forall|i: int| 0 <= i < all.len() implies (#[trigger] all[i]).0 != key
            && s.contains(all[i]) by {
            if i < rest.len() {
                assert(all[i] == rest[i]);
                let k = choose|k: int| 0 <= k < short.len() && short[k] == rest[i];
                assert(s[k] == rest[i]);
            } else {
                assert(s[s.len() - 1] == all[i]);
            }
        }
        assert forall|i: int, j: int| 0 <= i < j < all.len() implies (#[trigger] all[i]).0 != (
        #[trigger] all[j]).0 by {
            assert(all[i] == rest[i]);
            if j < rest.len() {
                assert(all[j] == rest[j]);
            } else {
                let k = choose|k: int| 0 <= k < short.len() && short[k] == rest[i];
                assert(s[k].0 != s[s.len() - 1].0);
            }
        }
        if s.last().0 == key && value_under(short, key) is Some {
            let v = value_under(short, key)->0;
            let k = choose|k: int| 0 <= k < short.len() && short[k] == (key, v);
            assert(s[k].0 != s[s.len() - 1].0);
        }
    }
}

/// However statements are stored and used, keys stay distinct and the bound
/// holds.
pub proof fn storing_keeps_the_bound(
    s: PreparedEntries,
    key: PreparedKey,
    value: PreparedValue,
    capacity: nat,
)
    requires
        keys_distinct(s),
        s.len() <= capacity,
        capacity > 0,
    ensures
        keys_distinct(entries_pushed(s, key, value, capacity)),
        entries_pushed(s, key, value, capacity).len() <= capacity,
        value_under(entries_pushed(s, key, value, capacity), key) == Some(value),
{
    lemma_entries_without(s, key);
    lemma_value_under(s, key);
    let after = entries_pushed(s, key, value, capacity);
    let base = if value_under(s, key) is Some {
        entries_without(s, key)
    } else if s.len() == capacity {
        s.drop_last()
    } else {
        s
    };
    assert forall|i: int| 0 <= i < base.len() implies (#[trigger] base[i]).0 != key by {
        if value_under(s, key) is None {
            assert(s[i].0 != key);
        }
    }
    assert forall|i: int, j: int| 0 <= i < j < after.len() implies (#[trigger] after[i]).0 != (
    #[trigger] after[j]).0 by {
        assert(after[j] == base[j - 1]);
        if i > 0 {
            assert(after[i] == base[i - 1]);
            if value_under(s, key) is None {
                assert(s[i - 1].0 != s[j - 1].0);
            }
        }
    }
    lemma_value_under(after, key);
    assert(after[0] == (key, value));
    let v = value_under(after, key)->0;
    let k = choose|k: int| 0 <= k < after.len() && after[k] == (key, v);
    if k > 0 {
        assert(after[0].0 != after[k].0);
    }
}

/// The least recently used statements are the first to go: a statement that is
/// stored or used again outlives the others.
pub proof fn most_recently_used_is_first(
    s: PreparedEntries,
    key: PreparedKey,
    value: PreparedValue,
    capacity: nat,
)
    ensures
        entries_pushed(s, key, value, capacity)[0] == (key, value),
        value_under(s, key) matches Some(v) ==> entries_touched(s, key)[0] == (key, v),
{
}

proof fn lemma_outside_distinct(s: PreparedEntries, oid: u32)
    requires
        keys_distinct(s),
    ensures
        keys_distinct(entries_outside(s, oid)),
        entries_outside(s, oid).len() <= s.len(),
        forall|i: int|
            0 <= i < entries_outside(s, oid).len() ==> (
            #[trigger] entries_outside(s, oid)[i]).0.0 != oid && s.contains(
                entries_outside(s, oid)[i],
            ),
    decreases s.len(),
{
    if s.len() > 0 {
        let short = s.drop_last();
        lemma_short_distinct(s);
        lemma_outside_distinct(short, oid);
        let rest = entries_outside(short, oid);
        let all = entries_outside(s, oid);
        assert(s[s.len() - 1] == s.last());
        assert forall|i: int| 0 <= i < all.len() implies (#[trigger] all[i]).0.0 != oid
            && s.contains(all[i]) by {
            if i < rest.len() {
                assert(all[i] == rest[i]);
                let k = choose|k: int| 0 <= k < short.len() && short[k] == rest[i];
                assert(s[k] == rest[i]);
            } else {
                assert(s[s.len() - 1] == all[i]);
            }
        }
        assert forall|i: int, j: int| 0 <= i < j < all.len() implies (#[trigger] all[i]).0 != (
        #[trigger] all[j]).0 by {
            assert(all[i] == rest[i]);
            if j < rest.len() {
                assert(all[j] == rest[j]);
            } else {
                let k = choose|k: int| 0 <= k < short.len() && short[k] == rest[i];
                assert(s[k].0 != s[s.len() - 1].0);
            }
        }
    }
}

proof fn lemma_short_distinct(s: PreparedEntries)
    requires
        keys_distinct(s),
        s.len() > 0,
    ensures
        keys_distinct(s.drop_last()),
{
    let short = s.drop_last();
    assert forall|i: int, j: int| 0 <= i < j < short.len() implies (#[trigger] short[i]).0 != (
    #[trigger] short[j]).0 by {
        assert(s[i].0 != s[j].0);
    }
}

/// A relation whose statements are dropped has none left, and no other
/// relation's statement is lost.
pub proof fn dropped_relation_has_no_statement(s: PreparedEntries, oid: u32, key: PreparedKey)
    requires
        keys_distinct(s),
    ensures
        value_under(entries_outside(s, oid), key) == if key.0 == oid {
            None
        } else {
            value_under(s, key)
        },
    decreases s.len(),
{
    if s.len() > 0 {
        let short = s.drop_last();
        lemma_short_distinct(s);
        dropped_relation_has_no_statement(short, oid, key);
        let rest = entries_outside(short, oid);
        if s.last().0.0 != oid {
            assert(rest.push(s.last()).drop_last() =~= rest);
        }
    }
}

/// The keys among the first entries are those to be tried; removing each of a
/// relation's in turn leaves the others.
spec fn partly_dropped(s: PreparedEntries, oid: u32, done: int) -> PreparedEntries {
    entries_outside(s.take(done), oid) + s.skip(done)
}

proof fn lemma_without_absent(s: PreparedEntries, key: PreparedKey)
    requires
        forall|i: int| 0 <= i < s.len() ==> (#[trigger] s[i]).0 != key,
    ensures
        entries_without(s, key) == s,
    decreases s.len(),
{
    if s.len() > 0 {
        let short = s.drop_last();
        assert forall|i: int| 0 <= i < short.len() implies (#[trigger] short[i]).0 != key by {
            assert(s[i].0 != key);
        }
        lemma_without_absent(short, key);
        assert(s[s.len() - 1].0 != key);
        assert(short.push(s.last()) =~= s);
    }
}

proof fn lemma_without_concat(a: PreparedEntries, b: PreparedEntries, key: PreparedKey)
    ensures
        entries_without(a + b, key) == entries_without(a, key) + entries_without(b, key),
    decreases b.len(),
{
    if b.len() == 0 {
        assert(a + b =~= a);
        assert(entries_without(a, key) + b =~= entries_without(a, key));
    } else {
        lemma_without_concat(a, b.drop_last(), key);
        assert((a + b).drop_last() =~= a + b.drop_last());
        assert((a + b).last() == b.last());
        assert(entries_without(a + b, key) =~= entries_without(a, key) + entries_without(b, key));
    }
}

proof fn lemma_partly_dropped_step(s: PreparedEntries, oid: u32, done: int)
    requires
        keys_distinct(s),
        0 <= done < s.len(),
    ensures
        ({
            let before = partly_dropped(s, oid, done);
            let after = partly_dropped(s, oid, done + 1);
            if s[done].0.0 == oid {
                &&& entries_without(before, s[done].0) == after
                &&& value_under(before, s[done].0) == Some(s[done].1)
            } else {
                before == after
            }
        }),
{
    let before = partly_dropped(s, oid, done);
    let head = entries_outside(s.take(done), oid);
    let tail = s.skip(done + 1);
    assert(s.take(done + 1).drop_last() =~= s.take(done));
    assert(s.take(done + 1).last() == s[done]);
    assert(s.skip(done) =~= seq![s[done]] + tail);
    if s[done].0.0 == oid {
        let key = s[done].0;
        assert(keys_distinct(s.take(done)));
        lemma_outside_distinct(s.take(done), oid);
        assert(before =~= head + (seq![s[done]] + tail));
        lemma_without_concat(head, seq![s[done]] + tail, key);
        lemma_without_concat(seq![s[done]], tail, key);
        assert forall|i: int| 0 <= i < head.len() implies (#[trigger] head[i]).0 != key by {
            assert(head[i].0.0 != oid);
        }
        lemma_without_absent(head, key);
        assert forall|i: int| 0 <= i < tail.len() implies (#[trigger] tail[i]).0 != key by {
            assert(tail[i] == s[done + 1 + i]);
            assert(s[done].0 != s[done + 1 + i].0);
        }
        lemma_without_absent(tail, key);
        assert(seq![s[done]].drop_last() =~= Seq::<(PreparedKey, PreparedValue)>::empty());
        reveal_with_fuel(entries_without, 2);
        assert(entries_without(seq![s[done]], key) =~= Seq::<
            (PreparedKey, PreparedValue),
        >::empty());
        assert(entries_without(before, key) =~= head + tail);
        lemma_value_under(before, key);
        assert(before[head.len() as int] == s[done]);
        let v = value_under(before, key)->0;
        let k = choose|k: int| 0 <= k < before.len() && before[k] == (key, v);
        if k < head.len() {
            assert(before[k] == head[k]);
        } else if k > head.len() {
            assert(before[k] == tail[k - head.len() - 1]);
        }
    } else {
        assert(before =~= partly_dropped(s, oid, done + 1));
    }
}

/// The texts of the relations' row-change statements, each with its epoch.
pub type TextsView = Map<u32, (Seq<char>, u64)>;

pub open spec fn texts_view(texts: Map<u32, (String, u64)>) -> TextsView {
    texts.map_values(|t: (String, u64)| (t.0@, t.1))
}

/// The epoch of a relation's row-change statement with the given text: the same
/// while the text is, and the next one when it has changed.
pub open spec fn text_epoch(texts: TextsView, oid: u32, sql: Seq<char>) -> u64 {
    if !texts.contains_key(oid) {
        0
    } else if texts[oid].0 == sql {
        texts[oid].1
    } else if texts[oid].1 == u64::MAX {
        0
    } else {
        (texts[oid].1 + 1) as u64
    }
}

/// The statements a cache evaluation has prepared: per relation and query for
/// membership, per relation for row changes.
pub struct PreparedStatements {
    membership: lru::LruCache<(u32, u64), (u64, u64)>,
    row_change: lru::LruCache<(u32, u64), (u64, u64)>,
    texts: HashMap<u32, (String, u64)>,
}

#[verifier::ext_equal]
pub struct PreparedView {
    pub membership: PreparedEntries,
    pub row_change: PreparedEntries,
    pub texts: TextsView,
}

impl View for PreparedStatements {
    type V = PreparedView;

    closed spec fn view(&self) -> PreparedView {
        PreparedView {
            membership: lru_entries(self.membership),
            row_change: lru_entries(self.row_change),
            texts: texts_view(self.texts@),
        }
    }
}

/// What every operation keeps: keys held once, and no more than the bound.
pub open spec fn entries_wf(s: PreparedEntries) -> bool {
    keys_distinct(s) && s.len() <= PREPARED_EVAL_CACHE_CAPACITY
}

/// The number of a released entry.
pub open spec fn released(entry: Option<(PreparedKey, PreparedValue)>) -> Option<u64> {
    match entry {
        Some(e) => Some(e.1.1),
        None => None,
    }
}

/// The number of a relation's row-change statement, if it was prepared in the
/// given epoch.
pub open spec fn row_change_current(s: PreparedEntries, oid: u32, epoch: u64) -> Option<u64> {
    match value_under(s, (oid, 0)) {
        Some(v) => if v.0 == epoch {
            Some(v.1)
        } else {
            None
        },
        None => None,
    }
}

/// A row-change statement is used again exactly as long as its text stays the
/// same: one that was kept under its epoch is found while the text is, and no
/// longer once another text has taken its place.
pub proof fn changed_statement_is_stale(
    s: PreparedView,
    oid: u32,
    kept: Seq<char>,
    id: u64,
    sql: Seq<char>,
)
    requires
        s.texts.contains_key(oid),
        s.texts[oid].0 == kept,
        value_under(s.row_change, (oid, 0)) == Some((s.texts[oid].1, id)),
    ensures
        row_change_current(s.row_change, oid, text_epoch(s.texts, oid, sql)) == (if sql == kept {
            Some(id)
        } else {
            None
        }),
{
}

impl PreparedStatements {
    /// Both caches are within their bound and hold a key once.
    pub closed spec fn wf(&self) -> bool {
        &&& entries_wf(lru_entries(self.membership))
        &&& entries_wf(lru_entries(self.row_change))
        &&& lru_capacity(self.membership) == PREPARED_EVAL_CACHE_CAPACITY as nat
        &&& lru_capacity(self.row_change) == PREPARED_EVAL_CACHE_CAPACITY as nat
    }

    /// No statements yet.
    pub fn new() -> (statements: PreparedStatements)
        ensures
            statements.wf(),
            statements@.membership.len() == 0,
            statements@.row_change.len() == 0,
            statements@.texts == TextsView::empty(),
    {
        let statements = PreparedStatements {
            membership: lru_new(PREPARED_EVAL_CACHE_CAPACITY),
            row_change: lru_new(PREPARED_EVAL_CACHE_CAPACITY),
            texts: HashMap::new(),
        };
        proof {
            assert(statements@.texts =~= TextsView::empty());
        }
        statements
    }

    /// No key is held twice, and neither cache outgrows its bound.
    pub proof fn bounded(&self)
        requires
            self.wf(),
        ensures
            entries_wf(self@.membership),
            entries_wf(self@.row_change),
    {
    }

    /// The membership statement of a query over a relation, which becomes the
    /// most recently used one.
    pub fn membership_get(&mut self, oid: u32, fingerprint: u64) -> (id: Option<u64>)
        requires
            old(self).wf(),
        ensures
            final(self).wf(),
            id == match value_under(old(self)@.membership, (oid, fingerprint)) {
                Some(v) => Some(v.1),
                None => None,
            },
            final(self)@ == (PreparedView {
                membership: entries_touched(old(self)@.membership, (oid, fingerprint)),
                ..old(self)@
            }),
    {
        let ghost before = self@.membership;
        let found = lru_get(&mut self.membership, (oid, fingerprint));
        proof {
            lemma_touched_wf(before, (oid, fingerprint));
            assert(self@ =~= (PreparedView {
                membership: entries_touched(before, (oid, fingerprint)),
                ..old(self)@
            }));
        }
        match found {
            Some(v) => Some(v.1),
            None => None,
        }
    }

    /// Keep a membership statement. What comes back is no longer kept.
    pub fn membership_put(&mut self, oid: u32, fingerprint: u64, id: u64) -> (gone: Option<u64>)
        requires
            old(self).wf(),
        ensures
            final(self).wf(),
            gone == released(
                entry_displaced(
                    old(self)@.membership,
                    (oid, fingerprint),
                    PREPARED_EVAL_CACHE_CAPACITY as nat,
                ),
            ),
            final(self)@ == (PreparedView {
                membership: entries_pushed(
                    old(self)@.membership,
                    (oid, fingerprint),
                    (0, id),
                    PREPARED_EVAL_CACHE_CAPACITY as nat,
                ),
                ..old(self)@
            }),
    {
        proof {
            storing_keeps_the_bound(
                self@.membership,
                (oid, fingerprint),
                (0, id),
                PREPARED_EVAL_CACHE_CAPACITY as nat,
            );
        }
        match lru_push(&mut self.membership, (oid, fingerprint), (0, id)) {
            Some(entry) => Some(entry.1.1),
            None => None,
        }
    }

    /// Drop a membership statement that failed.
    pub fn membership_drop(&mut self, oid: u32, fingerprint: u64) -> (gone: Option<u64>)
        requires
            old(self).wf(),
        ensures
            final(self).wf(),
            gone == match value_under(old(self)@.membership, (oid, fingerprint)) {
                Some(v) => Some(v.1),
                None => None,
            },
            final(self)@ == (PreparedView {
                membership: entries_without(old(self)@.membership, (oid, fingerprint)),
                ..old(self)@
            }),
    {
        proof {
            lemma_entries_without(self@.membership, (oid, fingerprint));
        }
        match lru_pop(&mut self.membership, (oid, fingerprint)) {
            Some(v) => Some(v.1),
            None => None,
        }
    }

    /// The epoch of a relation's row-change statement, whose text is now the
    /// given one: another one whenever the text has changed.
    pub fn row_change_epoch(&mut self, oid: u32, sql: &String) -> (epoch: u64)
        requires
            old(self).wf(),
        ensures
            final(self).wf(),
            epoch == text_epoch(old(self)@.texts, oid, sql@),
            final(self)@ == (PreparedView {
                texts: old(self)@.texts.insert(oid, (sql@, epoch)),
                ..old(self)@
            }),
    {
        let ghost before = self@.texts;
        let epoch: u64 = match self.texts.get(&oid) {
            Some(known) => {
                proof {
                    assert(before[oid] == (known.0@, known.1));
                }
                if known.0 == *sql {
                    known.1
                } else if known.1 == u64::MAX {
                    0
                } else {
                    known.1 + 1
                }
            },
            None => 0,
        };
        self.texts.insert(oid, (sql.clone(), epoch));
        proof {
            assert(self@.texts =~= before.insert(oid, (sql@, epoch)));
            assert(self@ =~= (PreparedView {
                texts: before.insert(oid, (sql@, epoch)),
                ..old(self)@
            }));
        }
        epoch
    }

    /// The row-change statement of a relation, if it was prepared in the given
    /// epoch: one of an older epoch reads other columns.
    pub fn row_change_get(&mut self, oid: u32, epoch: u64) -> (id: Option<u64>)
        requires
            old(self).wf(),
        ensures
            final(self).wf(),
            id == row_change_current(old(self)@.row_change, oid, epoch),
            final(self)@ == (PreparedView {
                row_change: entries_touched(old(self)@.row_change, (oid, 0)),
                ..old(self)@
            }),
    {
        let ghost before = self@.row_change;
        let found = lru_get(&mut self.row_change, (oid, 0));
        proof {
            lemma_touched_wf(before, (oid, 0));
            assert(self@ =~= (PreparedView {
                row_change: entries_touched(before, (oid, 0)),
                ..old(self)@
            }));
        }
        match found {
            Some(v) => if v.0 == epoch {
                Some(v.1)
            } else {
                None
            },
            None => None,
        }
    }

    /// Keep a relation's row-change statement. What comes back is no longer
    /// kept.
    pub fn row_change_put(&mut self, oid: u32, epoch: u64, id: u64) -> (gone: Option<u64>)
        requires
            old(self).wf(),
        ensures
            final(self).wf(),
            gone == released(
                entry_displaced(
                    old(self)@.row_change,
                    (oid, 0),
                    PREPARED_EVAL_CACHE_CAPACITY as nat,
                ),
            ),
            final(self)@ == (PreparedView {
                row_change: entries_pushed(
                    old(self)@.row_change,
                    (oid, 0),
                    (epoch, id),
                    PREPARED_EVAL_CACHE_CAPACITY as nat,
                ),
                ..old(self)@
            }),
    {
        proof {
            storing_keeps_the_bound(
                self@.row_change,
                (oid, 0),
                (epoch, id),
                PREPARED_EVAL_CACHE_CAPACITY as nat,
            );
        }
        match lru_push(&mut self.row_change, (oid, 0), (epoch, id)) {
            Some(entry) => Some(entry.1.1),
            None => None,
        }
    }

    /// Drop a relation's row-change statement.
    pub fn row_change_drop(&mut self, oid: u32) -> (gone: Option<u64>)
        requires
            old(self).wf(),
        ensures
            final(self).wf(),
            gone == match value_under(old(self)@.row_change, (oid, 0)) {
                Some(v) => Some(v.1),
                None => None,
            },
            final(self)@ == (PreparedView {
                row_change: entries_without(old(self)@.row_change, (oid, 0)),
                ..old(self)@
            }),
    {
        proof {
            lemma_entries_without(self@.row_change, (oid, 0));
        }
        match lru_pop(&mut self.row_change, (oid, 0)) {
            Some(v) => Some(v.1),
            None => None,
        }
    }

    /// Drop every statement of a relation whose columns have changed. Their
    /// numbers come back: the row-change statement's, then the membership
    /// statements', most recently used first.
    pub fn relation_drop(&mut self, oid: u32) -> (gone: Vec<u64>)
        requires
            old(self).wf(),
        ensures
            final(self).wf(),
            gone@ == match value_under(old(self)@.row_change, (oid, 0)) {
                Some(v) => seq![v.1],
                None => Seq::<u64>::empty(),
            } + relation_statements(old(self)@.membership, oid),
            final(self)@ == (PreparedView {
                membership: entries_outside(old(self)@.membership, oid),
                row_change: entries_without(old(self)@.row_change, (oid, 0)),
                ..old(self)@
            }),
    {
        let mut gone: Vec<u64> = Vec::new();
        match self.row_change_drop(oid) {
            Some(id) => {
                gone.push(id);
            },
            None => {},
        }
        let ghost first = gone@;
        let ghost s = self@.membership;
        let keys = lru_keys(&self.membership);
        let mut i: usize = 0;
        proof {
            assert(s.take(0) =~= Seq::<(PreparedKey, PreparedValue)>::empty());
            assert(partly_dropped(s, oid, 0) =~= s);
            assert(first + relation_statements(s.take(0), oid) =~= first);
        }
        while i < keys.len()
            invariant
                i <= keys.len(),
                keys@ == s.map_values(|e: ((u32, u64), (u64, u64))| e.0),
                entries_wf(s),
                lru_entries(self.membership) == partly_dropped(s, oid, i as int),
                lru_capacity(self.membership) == PREPARED_EVAL_CACHE_CAPACITY as nat,
                lru_capacity(self.row_change) == PREPARED_EVAL_CACHE_CAPACITY as nat,
                entries_wf(lru_entries(self.row_change)),
                lru_entries(self.row_change) == entries_without(old(self)@.row_change, (oid, 0)),
                self@.texts == old(self)@.texts,
                gone@ == first + relation_statements(s.take(i as int), oid),
            decreases keys.len() - i,
        {
            let key = keys[i];
            proof {
                assert(keys@[i as int] == s[i as int].0);
                lemma_partly_dropped_step(s, oid, i as int);
                assert(s.take(i as int + 1).drop_last() =~= s.take(i as int));
                assert(s.take(i as int + 1).last() == s[i as int]);
            }
            if key.0 == oid {
                match lru_pop(&mut self.membership, key) {
                    Some(v) => {
                        gone.push(v.1);
                    },
                    None => {},
                }
            }
            proof {
                assert(gone@ =~= first + relation_statements(s.take(i as int + 1), oid));
            }
            i += 1;
        }
        proof {
            assert(s.take(s.len() as int) =~= s);
            assert(partly_dropped(s, oid, s.len() as int) =~= entries_outside(s, oid));
            lemma_outside_distinct(s, oid);
        }
        gone
    }
}

proof fn lemma_touched_wf(s: PreparedEntries, key: PreparedKey)
    requires
        entries_wf(s),
    ensures
        entries_wf(entries_touched(s, key)),
{
    lemma_entries_without(s, key);
    match value_under(s, key) {
        Some(v) => {
            let rest = entries_without(s, key);
            let after = seq![(key, v)] + rest;
            assert forall|i: int, j: int| 0 <= i < j < after.len() implies (
            #[trigger] after[i]).0 != (#[trigger] after[j]).0 by {
                assert(after[j] == rest[j - 1]);
                if i > 0 {
                    assert(after[i] == rest[i - 1]);
                }
            }
        },
        None => {},
    }
}

} // verus!
