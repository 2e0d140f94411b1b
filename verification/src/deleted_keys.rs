//! Keys removed by CDC while populations are in flight.
//!
//! A population reads its rows at a snapshot and merges them later. A row
//! deleted in between must not come back with the merge, so while a population
//! over a relation is in flight the relation's removed keys are recorded, and
//! the merge leaves them out. A relation that was emptied as a whole, or lost
//! more keys than are tracked, makes populations with an older snapshot abort.
use std::collections::HashMap;

use vstd::prelude::*;
use vstd::string::*;

use crate::text::joined;
use crate::text::list_append;

verus! {

broadcast use vstd::std_specs::hash::group_hash_axioms;

/// Keys tracked per relation before the relation gives up tracking.
pub const POPULATION_DELETED_KEY_CAP: usize = 10_000;

/// One relation's tracked keys.
pub struct RelationKeys {
    /// `(fingerprint, generation)` of the populations in flight.
    populations: Vec<(u64, u64)>,
    /// Bodies of the removed primary-key tuples, without duplicates.
    keys: Vec<String>,
    /// Populations with a snapshot below this LSN abort.
    abort_lsn: u64,
    /// Counts the changes of `keys`.
    version: u64,
}

/// The mathematical value of [`RelationKeys`].
#[verifier::ext_equal]
pub struct RelationKeysView {
    pub populations: Seq<(u64, u64)>,
    pub keys: Seq<Seq<char>>,
    pub abort_lsn: u64,
    pub version: u64,
}

/// The value of a tracker: the relations over which populations are in flight.
pub type DeletedKeysView = Map<u32, RelationKeysView>;

impl View for RelationKeys {
    type V = RelationKeysView;

    closed spec fn view(&self) -> RelationKeysView {
        RelationKeysView {
            populations: self.populations@,
            keys: self.keys.deep_view(),
            abort_lsn: self.abort_lsn,
            version: self.version,
        }
    }
}

/// Removed keys of every relation with a population in flight.
pub struct PopulationDeletedKeys {
    relations: HashMap<u32, RelationKeys>,
}

impl View for PopulationDeletedKeys {
    type V = DeletedKeysView;

    closed spec fn view(&self) -> DeletedKeysView {
        self.relations@.map_values(|r: RelationKeys| r@)
    }
}

/// The change counter after one more change.
pub open spec fn bumped(version: u64) -> u64 {
    if version == u64::MAX {
        0
    } else {
        (version + 1) as u64
    }
}

/// Tracking a removed key at `lsn`. Beyond the cap the keys are given up, and
/// populations older than `lsn` will abort instead.
pub open spec fn key_recorded(r: RelationKeysView, key: Seq<char>, lsn: u64) -> RelationKeysView {
    if r.keys.contains(key) {
        r
    } else if r.keys.len() >= POPULATION_DELETED_KEY_CAP {
        RelationKeysView {
            keys: Seq::empty(),
            abort_lsn: if lsn > r.abort_lsn { lsn } else { r.abort_lsn },
            version: bumped(r.version),
            ..r
        }
    } else {
        RelationKeysView { keys: r.keys.push(key), version: bumped(r.version), ..r }
    }
}

/// `keys` without `key`.
pub open spec fn without_key(keys: Seq<Seq<char>>, key: Seq<char>) -> Seq<Seq<char>>
    decreases keys.len(),
{
    if keys.len() == 0 {
        keys
    } else {
        let rest = without_key(keys.drop_last(), key);
        if keys.last() == key {
            rest
        } else {
            rest.push(keys.last())
        }
    }
}

/// A removed key that is alive again, dropped from tracking.
pub open spec fn key_cancelled(r: RelationKeysView, key: Seq<char>) -> RelationKeysView {
    if r.keys.contains(key) {
        RelationKeysView {
            keys: without_key(r.keys, key),
            version: bumped(r.version),
            ..r
        }
    } else {
        r
    }
}

/// Recording a removed key; nothing without a population in flight.
pub open spec fn recorded(m: DeletedKeysView, oid: u32, key: Seq<char>, lsn: u64) -> DeletedKeysView {
    if m.contains_key(oid) {
        m.insert(oid, key_recorded(m[oid], key, lsn))
    } else {
        m
    }
}

/// Dropping a key from tracking; nothing without a population in flight.
pub open spec fn cancelled(m: DeletedKeysView, oid: u32, key: Seq<char>) -> DeletedKeysView {
    if m.contains_key(oid) {
        m.insert(oid, key_cancelled(m[oid], key))
    } else {
        m
    }
}

/// Whether the key is tracked.
pub open spec fn tracks(m: DeletedKeysView, oid: u32, key: Seq<char>) -> bool {
    m.contains_key(oid) && m[oid].keys.contains(key)
}

/// Aborting the populations over the relation whose snapshot is below `lsn`.
pub open spec fn aborted_below(m: DeletedKeysView, oid: u32, lsn: u64) -> DeletedKeysView {
    if m.contains_key(oid) && lsn > m[oid].abort_lsn {
        m.insert(oid, RelationKeysView { abort_lsn: lsn, ..m[oid] })
    } else {
        m
    }
}

/// A population enters flight over one relation; with the first one, tracking
/// starts with no key.
pub open spec fn relation_activated(
    m: DeletedKeysView,
    oid: u32,
    fingerprint: u64,
    generation: u64,
) -> DeletedKeysView {
    if m.contains_key(oid) {
        m.insert(
            oid,
            RelationKeysView {
                populations: m[oid].populations.push((fingerprint, generation)),
                ..m[oid]
            },
        )
    } else {
        m.insert(
            oid,
            RelationKeysView {
                populations: seq![(fingerprint, generation)],
                keys: Seq::empty(),
                abort_lsn: 0,
                version: 0,
            },
        )
    }
}

/// A population enters flight over its relations.
pub open spec fn activated(
    m: DeletedKeysView,
    oids: Seq<u32>,
    fingerprint: u64,
    generation: u64,
) -> DeletedKeysView
    decreases oids.len(),
{
    if oids.len() == 0 {
        m
    } else {
        relation_activated(
            activated(m, oids.drop_last(), fingerprint, generation),
            oids.last(),
            fingerprint,
            generation,
        )
    }
}

/// `populations` without the given one.
pub open spec fn without_population(populations: Seq<(u64, u64)>, gone: (u64, u64)) -> Seq<
    (u64, u64),
>
    decreases populations.len(),
{
    if populations.len() == 0 {
        populations
    } else {
        let rest = without_population(populations.drop_last(), gone);
        if populations.last() == gone {
            rest
        } else {
            rest.push(populations.last())
        }
    }
}

/// A population leaves flight over one relation; with the last one the
/// relation is no longer tracked.
pub open spec fn relation_deactivated(
    m: DeletedKeysView,
    oid: u32,
    gone: (u64, u64),
) -> DeletedKeysView {
    if m.contains_key(oid) {
        let left = without_population(m[oid].populations, gone);
        if left.len() == 0 {
            m.remove(oid)
        } else {
            m.insert(oid, RelationKeysView { populations: left, ..m[oid] })
        }
    } else {
        m
    }
}

/// A population leaves flight over its relations.
pub open spec fn deactivated(m: DeletedKeysView, oids: Seq<u32>, gone: (u64, u64)) -> DeletedKeysView
    decreases oids.len(),
{
    if oids.len() == 0 {
        m
    } else {
        relation_deactivated(deactivated(m, oids.drop_last(), gone), oids.last(), gone)
    }
}

/// Whether a population over the relation with this snapshot must abort.
pub open spec fn must_abort(m: DeletedKeysView, oid: u32, snapshot_lsn: u64) -> bool {
    m.contains_key(oid) && m[oid].abort_lsn > snapshot_lsn
}

/// Each key body in parentheses.
pub open spec fn key_tuples(keys: Seq<Seq<char>>) -> Seq<Seq<char>> {
    Seq::new(keys.len(), |i: int| "("@ + keys[i] + ")"@)
}

/// The predicate that leaves out the tracked keys; `None` when there is none.
pub open spec fn filter_sql(m: DeletedKeysView, oid: u32, pk_columns_paren: Seq<char>) -> Option<
    Seq<char>,
> {
    if m.contains_key(oid) && m[oid].keys.len() > 0 {
        Some(pk_columns_paren + " NOT IN ("@ + joined(key_tuples(m[oid].keys), ", "@) + ")"@)
    } else {
        None
    }
}

/// The change counter of a relation with tracked keys.
pub open spec fn filter_version_spec(m: DeletedKeysView, oid: u32) -> Option<u64> {
    if m.contains_key(oid) && m[oid].keys.len() > 0 {
        Some(m[oid].version)
    } else {
        None
    }
}

fn bump(version: u64) -> (v: u64)
    ensures
        v == bumped(version),
{
    if version == u64::MAX {
        0
    } else {
        version + 1
    }
}

impl RelationKeys {
    fn key_contains(&self, key: &String) -> (found: bool)
        ensures
            found == self@.keys.contains(key@),
    {
        let ghost keys = self@.keys;
        let mut i: usize = 0;
        while i < self.keys.len()
            invariant
                i <= self.keys.len(),
                keys == self.keys.deep_view(),
                forall|j: int| 0 <= j < i ==> keys[j] != key@,
            decreases self.keys.len() - i,
        {
            if self.keys[i] == *key {
                proof {
                    assert(keys[i as int] == key@);
                }
                return true;
            }
            i = i + 1;
        }
        false
    }

    fn key_remove(&mut self, key: &String)
        ensures
            final(self)@ == (RelationKeysView {
                keys: without_key(old(self)@.keys, key@),
                ..old(self)@
            }),
    {
        let ghost keys = self@.keys;
        let mut left: Vec<String> = Vec::new();
        let mut i: usize = 0;
        proof {
            assert(left.deep_view() =~= without_key(keys.take(0), key@));
        }
        while i < self.keys.len()
            invariant
                i <= self.keys.len(),
                *self == *old(self),
                keys == self.keys.deep_view(),
                left.deep_view() == without_key(keys.take(i as int), key@),
            decreases self.keys.len() - i,
        {
            proof {
                assert(keys.take(i + 1).drop_last() =~= keys.take(i as int));
            }
            if !(self.keys[i] == *key) {
                let ghost before = left.deep_view();
                left.push(self.keys[i].clone());
                proof {
                    assert(left.deep_view() =~= before.push(keys[i as int]));
                }
            }
            i = i + 1;
        }
        proof {
            assert(keys.take(i as int) =~= keys);
        }
        self.keys = left;
    }
}

impl PopulationDeletedKeys {
    /// No population in flight.
    pub fn new() -> (tracker: PopulationDeletedKeys)
        ensures
            tracker@ == Map::<u32, RelationKeysView>::empty(),
    {
        let tracker = PopulationDeletedKeys { relations: HashMap::new() };
        proof {
            assert(tracker@ =~= Map::<u32, RelationKeysView>::empty());
        }
        tracker
    }

    /// Whether removed keys of the relation are recorded: a population over it
    /// is in flight.
    pub fn is_recording(&self, oid: u32) -> (recording: bool)
        ensures
            recording == self@.contains_key(oid),
    {
        self.relations.contains_key(&oid)
    }

    /// Record a key removed at `lsn`.
    pub fn record(&mut self, oid: u32, key: String, lsn: u64)
        ensures
            final(self)@ == recorded(old(self)@, oid, key@, lsn),
    {
        match self.relations.remove(&oid) {
            None => {
                proof {
                    assert(self@ =~= old(self)@);
                }
            },
            Some(mut r) => {
                let ghost before = r@;
                let ghost key_v = key@;
                if !r.key_contains(&key) {
                    if r.keys.len() >= POPULATION_DELETED_KEY_CAP {
                        r.keys = Vec::new();
                        if lsn > r.abort_lsn {
                            r.abort_lsn = lsn;
                        }
                        proof {
                            assert(r.keys.deep_view() =~= Seq::<Seq<char>>::empty());
                        }
                    } else {
                        r.keys.push(key);
                        proof {
                            assert(r.keys.deep_view() =~= before.keys.push(key_v));
                        }
                    }
                    r.version = bump(r.version);
                }
                let ghost after = r@;
                self.relations.insert(oid, r);
                proof {
                    assert(after == key_recorded(before, key_v, lsn));
                    assert(self@ =~= old(self)@.insert(oid, after));
                }
            },
        }
    }

    /// Drop a key from tracking because its row is alive; whether it was
    /// tracked.
    pub fn cancel(&mut self, oid: u32, key: &String) -> (found: bool)
        ensures
            found == tracks(old(self)@, oid, key@),
            final(self)@ == cancelled(old(self)@, oid, key@),
    {
        match self.relations.remove(&oid) {
            None => {
                proof {
                    assert(self@ =~= old(self)@);
                }
                false
            },
            Some(mut r) => {
                let ghost before = r@;
                let found = r.key_contains(key);
                if found {
                    r.key_remove(key);
                    r.version = bump(r.version);
                }
                let ghost after = r@;
                self.relations.insert(oid, r);
                proof {
                    assert(after == key_cancelled(before, key@));
                    assert(self@ =~= old(self)@.insert(oid, after));
                }
                found
            },
        }
    }

    /// Whether a deletion of the key is tracked.
    pub fn is_tracked(&self, oid: u32, key: &String) -> (found: bool)
        ensures
            found == tracks(self@, oid, key@),
    {
        match self.relations.get(&oid) {
            Some(r) => r.key_contains(key),
            None => false,
        }
    }

    /// Make populations over the relation with a snapshot below `lsn` abort.
    pub fn abort_below(&mut self, oid: u32, lsn: u64)
        ensures
            final(self)@ == aborted_below(old(self)@, oid, lsn),
    {
        match self.relations.remove(&oid) {
            None => {
                proof {
                    assert(self@ =~= old(self)@);
                }
            },
            Some(mut r) => {
                let ghost before = r@;
                if lsn > r.abort_lsn {
                    r.abort_lsn = lsn;
                }
                let ghost after = r@;
                self.relations.insert(oid, r);
                proof {
                    assert(self@ =~= old(self)@.insert(oid, after));
                    assert(self@ =~= aborted_below(old(self)@, oid, lsn));
                }
            },
        }
    }

    /// A population enters flight over its relations.
    pub fn activate(&mut self, fingerprint: u64, generation: u64, oids: &Vec<u32>)
        ensures
            final(self)@ == activated(old(self)@, oids@, fingerprint, generation),
    {
        let ghost start = self@;
        let mut i: usize = 0;
        while i < oids.len()
            invariant
                i <= oids.len(),
                self@ == activated(start, oids@.take(i as int), fingerprint, generation),
            decreases oids.len() - i,
        {
            let oid = oids[i];
            let ghost before = self@;
            proof {
                assert(oids@.take(i + 1).drop_last() =~= oids@.take(i as int));
            }
            match self.relations.remove(&oid) {
                None => {
                    let mut populations: Vec<(u64, u64)> = Vec::new();
                    populations.push((fingerprint, generation));
                    let keys: Vec<String> = Vec::new();
                    proof {
                        assert(keys.deep_view() =~= Seq::<Seq<char>>::empty());
                    }
                    let r = RelationKeys { populations, keys, abort_lsn: 0, version: 0 };
                    proof {
                        assert(r@.populations =~= seq![(fingerprint, generation)]);
                    }
                    self.relations.insert(oid, r);
                },
                Some(mut r) => {
                    r.populations.push((fingerprint, generation));
                    self.relations.insert(oid, r);
                },
            }
            proof {
                assert(self@ =~= relation_activated(before, oid, fingerprint, generation));
            }
            i = i + 1;
        }
        proof {
            assert(oids@.take(i as int) =~= oids@);
        }
    }

    /// A population leaves flight over its relations.
    pub fn deactivate(&mut self, fingerprint: u64, generation: u64, oids: &Vec<u32>)
        ensures
            final(self)@ == deactivated(old(self)@, oids@, (fingerprint, generation)),
    {
        let ghost start = self@;
        let ghost gone = (fingerprint, generation);
        let mut i: usize = 0;
        while i < oids.len()
            invariant
                i <= oids.len(),
                gone == (fingerprint, generation),
                self@ == deactivated(start, oids@.take(i as int), gone),
            decreases oids.len() - i,
        {
            let oid = oids[i];
            let ghost before = self@;
            proof {
                assert(oids@.take(i + 1).drop_last() =~= oids@.take(i as int));
            }
            if let Some(mut r) = self.relations.remove(&oid) {
                let ghost populations = r.populations@;
                let mut left: Vec<(u64, u64)> = Vec::new();
                let mut k: usize = 0;
                while k < r.populations.len()
                    invariant
                        k <= r.populations.len(),
                        populations == r.populations@,
                        gone == (fingerprint, generation),
                        left@ =~= without_population(populations.take(k as int), gone),
                    decreases r.populations.len() - k,
                {
                    let p = r.populations[k];
                    proof {
                        assert(populations.take(k + 1).drop_last() =~= populations.take(k as int));
                    }
                    if p.0 != fingerprint || p.1 != generation {
                        left.push(p);
                    }
                    k = k + 1;
                }
                proof {
                    assert(populations.take(k as int) =~= populations);
                }
                if left.len() != 0 {
                    r.populations = left;
                    self.relations.insert(oid, r);
                }
            }
            proof {
                assert(self@ =~= relation_deactivated(before, oid, gone));
            }
            i = i + 1;
        }
        proof {
            assert(oids@.take(i as int) =~= oids@);
        }
    }

    /// Whether a population over the relation with this snapshot must abort.
    pub fn should_abort(&self, oid: u32, snapshot_lsn: u64) -> (abort: bool)
        ensures
            abort == must_abort(self@, oid, snapshot_lsn),
    {
        match self.relations.get(&oid) {
            Some(r) => r.abort_lsn > snapshot_lsn,
            None => false,
        }
    }

    /// The change counter of a relation with tracked keys.
    pub fn filter_version(&self, oid: u32) -> (version: Option<u64>)
        ensures
            version == filter_version_spec(self@, oid),
    {
        match self.relations.get(&oid) {
            Some(r) => if r.keys.len() > 0 {
                Some(r.version)
            } else {
                None
            },
            None => None,
        }
    }

    /// The predicate that leaves out the relation's tracked keys.
    pub fn filter_predicate(&self, oid: u32, pk_columns_paren: &String) -> (predicate: Option<
        String,
    >)
        ensures
            match predicate {
                Some(p) => filter_sql(self@, oid, pk_columns_paren@) == Some(p@),
                None => filter_sql(self@, oid, pk_columns_paren@) is None,
            },
    {
        match self.relations.get(&oid) {
            Some(r) => {
                if r.keys.len() == 0 {
                    return None;
                }
                let ghost keys = r@.keys;
                let mut tuples: Vec<String> = Vec::new();
                let mut i: usize = 0;
                while i < r.keys.len()
                    invariant
                        i <= r.keys.len(),
                        keys == r.keys.deep_view(),
                        tuples.deep_view() =~= key_tuples(keys.take(i as int)),
                    decreases r.keys.len() - i,
                {
                    let mut tuple = "(".to_owned();
                    tuple.append(r.keys[i].as_str());
                    tuple.append(")");
                    let ghost before = tuples.deep_view();
                    let ghost text = tuple@;
                    tuples.push(tuple);
                    proof {
                        assert(tuples.deep_view() =~= before.push(text));
                        assert(key_tuples(keys.take(i + 1)) =~= key_tuples(
                            keys.take(i as int),
                        ).push(text));
                    }
                    i = i + 1;
                }
                proof {
                    assert(keys.take(i as int) =~= keys);
                }
                let mut predicate = pk_columns_paren.clone();
                predicate.append(" NOT IN (");
                list_append(&mut predicate, &tuples, ", ");
                predicate.append(")");
                Some(predicate)
            },
            None => None,
        }
    }
}

/// A key that is recorded is left out of every later merge of the relation's
/// populations, unless the cap was hit: then older populations abort.
pub proof fn recorded_key_is_tracked_or_aborts(
    m: DeletedKeysView,
    oid: u32,
    key: Seq<char>,
    lsn: u64,
    snapshot_lsn: u64,
)
    requires
        m.contains_key(oid),
        snapshot_lsn < lsn,
    ensures
        tracks(recorded(m, oid, key, lsn), oid, key) || must_abort(
            recorded(m, oid, key, lsn),
            oid,
            snapshot_lsn,
        ),
{
    let r = m[oid];
    if !r.keys.contains(key) && r.keys.len() < POPULATION_DELETED_KEY_CAP {
        let after = r.keys.push(key);
        assert(after[r.keys.len() as int] == key);
    }
}

/// Cancelling what was just recorded leaves the relation's tracked keys as
/// they were, when the key was not tracked before and the cap was not hit.
pub proof fn cancel_undoes_record(m: DeletedKeysView, oid: u32, key: Seq<char>, lsn: u64)
    requires
        m.contains_key(oid),
        !tracks(m, oid, key),
        m[oid].keys.len() < POPULATION_DELETED_KEY_CAP,
    ensures
        cancelled(recorded(m, oid, key, lsn), oid, key)[oid].keys == m[oid].keys,
{
    let keys = m[oid].keys;
    let after = keys.push(key);
    assert(after[keys.len() as int] == key);
    assert(after.drop_last() =~= keys);
    lemma_without_absent_key(keys, key);
}

/// Removing a key that is not there changes nothing.
proof fn lemma_without_absent_key(keys: Seq<Seq<char>>, key: Seq<char>)
    requires
        !keys.contains(key),
    ensures
        without_key(keys, key) == keys,
    decreases keys.len(),
{
    if keys.len() > 0 {
        let short = keys.drop_last();
        assert(!short.contains(key)) by {
            if short.contains(key) {
                let i = choose|i: int| 0 <= i < short.len() && short[i] == key;
                assert(keys[i] == key);
            }
        }
        lemma_without_absent_key(short, key);
        assert(keys[keys.len() - 1] == keys.last());
        assert(short.push(keys.last()) =~= keys);
    }
}

/// A change of the tracked keys changes the counter, so a rendering kept for
/// one counter value is never used for another key set.
pub proof fn key_changes_bump_the_version(r: RelationKeysView, key: Seq<char>, lsn: u64)
    ensures
        key_recorded(r, key, lsn).keys != r.keys ==> key_recorded(r, key, lsn).version != r.version,
        key_cancelled(r, key).keys != r.keys ==> key_cancelled(r, key).version != r.version,
{
}

/// A cancelled key is no longer tracked.
pub proof fn cancelled_key_is_not_tracked(m: DeletedKeysView, oid: u32, key: Seq<char>)
    ensures
        !tracks(cancelled(m, oid, key), oid, key),
{
    if m.contains_key(oid) {
        lemma_without_key(m[oid].keys, key);
    }
}

proof fn lemma_without_key(keys: Seq<Seq<char>>, key: Seq<char>)
    ensures
        !without_key(keys, key).contains(key),
    decreases keys.len(),
{
    if keys.len() > 0 {
        lemma_without_key(keys.drop_last(), key);
        let rest = without_key(keys.drop_last(), key);
        let result = without_key(keys, key);
        if result.contains(key) {
            let i = choose|i: int| 0 <= i < result.len() && result[i] == key;
            if i < rest.len() {
                assert(rest[i] == key);
            }
        }
    }
}

} // verus!
