//! Memoized results and the version slots that keep readers from serving a
//! stale one: a slot is odd while a change is becoming visible, and a memo
//! taken under another version is stale.
use std::collections::HashMap;

use vstd::prelude::*;

verus! {

broadcast use vstd::std_specs::hash::group_hash_axioms;

/// A memoized query and a relation it reads.
#[derive(Clone, Copy, Debug, PartialEq, Eq, Structural)]
pub struct Memo {
    pub relation_oid: u32,
    pub fingerprint: u64,
}

/// The memoized results, and the version slots of relations and queries.
pub struct MemoStore {
    memos: Vec<Memo>,
    relation_versions: HashMap<u32, u64>,
    memo_versions: HashMap<u64, u64>,
}

/// The mathematical value of a [`MemoStore`].
#[verifier::ext_equal]
pub struct MemoView {
    pub memos: Seq<Memo>,
    pub relation_versions: Map<u32, u64>,
    pub memo_versions: Map<u64, u64>,
}

impl View for MemoStore {
    type V = MemoView;

    closed spec fn view(&self) -> MemoView {
        MemoView {
            memos: self.memos@,
            relation_versions: self.relation_versions@,
            memo_versions: self.memo_versions@,
        }
    }
}

/// A slot's version; an untouched slot is at zero.
pub open spec fn version_of<K>(versions: Map<K, u64>, slot: K) -> u64 {
    if versions.contains_key(slot) {
        versions[slot]
    } else {
        0
    }
}

/// The next version, from the greatest back to zero.
pub open spec fn next_version(version: u64) -> u64 {
    if version == u64::MAX {
        0
    } else {
        (version + 1) as u64
    }
}

/// A slot one version on.
pub open spec fn stepped<K>(versions: Map<K, u64>, slot: K) -> Map<K, u64> {
    versions.insert(slot, next_version(version_of(versions, slot)))
}

/// Several slots one version on.
pub open spec fn all_stepped<K>(versions: Map<K, u64>, slots: Seq<K>) -> Map<K, u64>
    decreases slots.len(),
{
    if slots.len() == 0 {
        versions
    } else {
        stepped(all_stepped(versions, slots.drop_last()), slots.last())
    }
}

/// Every relation's slot one version on.
pub open spec fn relations_stepped(m: MemoView, oids: Seq<u32>) -> MemoView {
    MemoView { relation_versions: all_stepped(m.relation_versions, oids), ..m }
}

/// Every query's slot one version on.
pub open spec fn memos_stepped(m: MemoView, fingerprints: Seq<u64>) -> MemoView {
    MemoView { memo_versions: all_stepped(m.memo_versions, fingerprints), ..m }
}

/// A query's slot two versions on: its memo is stale, and the slot is free
/// again.
pub open spec fn memo_bumped(m: MemoView, fingerprint: u64) -> MemoView {
    MemoView {
        memo_versions: stepped(stepped(m.memo_versions, fingerprint), fingerprint),
        ..m
    }
}

fn next(version: u64) -> (v: u64)
    ensures
        v == next_version(version),
{
    if version == u64::MAX {
        0
    } else {
        version + 1
    }
}

impl MemoStore {
    /// Nothing memoized.
    pub fn new() -> (m: MemoStore)
        ensures
            m@ == (MemoView {
                memos: Seq::empty(),
                relation_versions: Map::empty(),
                memo_versions: Map::empty(),
            }),
    {
        MemoStore {
            memos: Vec::new(),
            relation_versions: HashMap::new(),
            memo_versions: HashMap::new(),
        }
    }

    /// Whether nothing is memoized.
    pub fn is_empty(&self) -> (empty: bool)
        ensures
            empty == (self@.memos.len() == 0),
    {
        self.memos.len() == 0
    }

    /// Memoize a result of the query over the relation.
    pub fn capture(&mut self, relation_oid: u32, fingerprint: u64)
        ensures
            final(self)@ == (MemoView {
                memos: old(self)@.memos.push(Memo { relation_oid, fingerprint }),
                ..old(self)@
            }),
    {
        self.memos.push(Memo { relation_oid, fingerprint });
    }

    /// The version of a query's slot.
    pub fn memo_version(&self, fingerprint: u64) -> (version: u64)
        ensures
            version == version_of(self@.memo_versions, fingerprint),
    {
        match self.memo_versions.get(&fingerprint) {
            Some(v) => *v,
            None => 0,
        }
    }

    /// The version of a relation's slot.
    pub fn relation_version(&self, oid: u32) -> (version: u64)
        ensures
            version == version_of(self@.relation_versions, oid),
    {
        match self.relation_versions.get(&oid) {
            Some(v) => *v,
            None => 0,
        }
    }

    /// Whether a result of the query over the relation is memoized.
    pub fn relation_has_fingerprint(&self, relation_oid: u32, fingerprint: u64) -> (found: bool)
        ensures
            found == self@.memos.contains(Memo { relation_oid, fingerprint }),
    {
        let mut i: usize = 0;
        while i < self.memos.len()
            invariant
                i <= self.memos.len(),
                forall|j: int|
                    0 <= j < i ==> self.memos@[j] != (Memo { relation_oid, fingerprint }),
            decreases self.memos.len() - i,
        {
            if self.memos[i].relation_oid == relation_oid && self.memos[i].fingerprint
                == fingerprint {
                assert(self.memos@[i as int] == (Memo { relation_oid, fingerprint }));
                return true;
            }
            i = i + 1;
        }
        false
    }

    /// Put every relation's slot one version on.
    pub fn relations_step(&mut self, oids: &Vec<u32>)
        ensures
            final(self)@ == relations_stepped(old(self)@, oids@),
    {
        let ghost start = self@;
        let mut i: usize = 0;
        proof {
            assert(self@ =~= relations_stepped(start, oids@.take(0)));
        }
        while i < oids.len()
            invariant
                i <= oids.len(),
                self@ == relations_stepped(start, oids@.take(i as int)),
            decreases oids.len() - i,
        {
            proof {
                assert(oids@.take(i + 1).drop_last() =~= oids@.take(i as int));
            }
            let version: u64 = match self.relation_versions.get(&oids[i]) {
                Some(v) => *v,
                None => 0,
            };
            self.relation_versions.insert(oids[i], next(version));
            proof {
                assert(self@ =~= relations_stepped(start, oids@.take(i + 1)));
            }
            i = i + 1;
        }
        proof {
            assert(oids@.take(i as int) =~= oids@);
        }
    }

    fn memo_step(&mut self, fingerprint: u64)
        ensures
            final(self)@ == (MemoView {
                memo_versions: stepped(old(self)@.memo_versions, fingerprint),
                ..old(self)@
            }),
    {
        let version: u64 = match self.memo_versions.get(&fingerprint) {
            Some(v) => *v,
            None => 0,
        };
        self.memo_versions.insert(fingerprint, next(version));
    }

    /// Put every query's slot one version on.
    pub fn memos_step(&mut self, fingerprints: &Vec<u64>)
        ensures
            final(self)@ == memos_stepped(old(self)@, fingerprints@),
    {
        let ghost start = self@;
        let mut i: usize = 0;
        proof {
            assert(self@ =~= memos_stepped(start, fingerprints@.take(0)));
        }
        while i < fingerprints.len()
            invariant
                i <= fingerprints.len(),
                self@ == memos_stepped(start, fingerprints@.take(i as int)),
            decreases fingerprints.len() - i,
        {
            proof {
                assert(fingerprints@.take(i + 1).drop_last() =~= fingerprints@.take(i as int));
            }
            self.memo_step(fingerprints[i]);
            i = i + 1;
        }
        proof {
            assert(fingerprints@.take(i as int) =~= fingerprints@);
        }
    }

    /// Make the query's memo stale at once.
    pub fn memo_bump(&mut self, fingerprint: u64)
        ensures
            final(self)@ == memo_bumped(old(self)@, fingerprint),
    {
        self.memo_step(fingerprint);
        self.memo_step(fingerprint);
    }
}

proof fn lemma_stepped_other<K>(versions: Map<K, u64>, slots: Seq<K>, slot: K)
    requires
        !slots.contains(slot),
    ensures
        version_of(all_stepped(versions, slots), slot) == version_of(versions, slot),
    decreases slots.len(),
{
    if slots.len() > 0 {
        let short = slots.drop_last();
        assert(slots[slots.len() - 1] == slots.last());
        assert(!short.contains(slot)) by {
            if short.contains(slot) {
                let i = choose|i: int| 0 <= i < short.len() && short[i] == slot;
                assert(slots[i] == slot);
            }
        }
        lemma_stepped_other(versions, short, slot);
    }
}

proof fn lemma_stepped_once<K>(versions: Map<K, u64>, slots: Seq<K>, slot: K)
    requires
        slots.no_duplicates(),
        slots.contains(slot),
    ensures
        version_of(all_stepped(versions, slots), slot) == next_version(version_of(versions, slot)),
    decreases slots.len(),
{
    let short = slots.drop_last();
    assert(short.no_duplicates()) by {
        assert forall|i: int, j: int|
            0 <= i < short.len() && 0 <= j < short.len() && i != j implies short[i] != short[j] by {
            assert(slots[i] != slots[j]);
        }
    }
    let k = choose|k: int| 0 <= k < slots.len() && slots[k] == slot;
    if slots.last() == slot {
        assert(!short.contains(slot)) by {
            if short.contains(slot) {
                let i = choose|i: int| 0 <= i < short.len() && short[i] == slot;
                assert(slots[i] == slots[slots.len() - 1]);
            }
        }
        lemma_stepped_other(versions, short, slot);
    } else {
        assert(short[k] == slot);
        lemma_stepped_once(versions, short, slot);
    }
}

/// Bracketing a batch by a begin and an end over the same slots leaves each of
/// them as free as it was, under a version that no memo taken before the batch
/// carries; other slots keep theirs.
pub proof fn bracket_makes_memos_stale<K>(versions: Map<K, u64>, slots: Seq<K>, slot: K)
    requires
        slots.no_duplicates(),
    ensures
        ({
            let before = version_of(versions, slot);
            let after = version_of(all_stepped(all_stepped(versions, slots), slots), slot);
            if slots.contains(slot) {
                after != before && after % 2 == before % 2
            } else {
                after == before
            }
        }),
{
    let begun = all_stepped(versions, slots);
    if slots.contains(slot) {
        lemma_stepped_once(versions, slots, slot);
        lemma_stepped_once(begun, slots, slot);
    } else {
        lemma_stepped_other(versions, slots, slot);
        lemma_stepped_other(begun, slots, slot);
    }
}

} // verus!
