//! The writer's shared state.
use vstd::prelude::*;
use vstd::string::*;

use crate::cache::cache_empty;
use crate::cache::cached_find;
use crate::cache::Cache;
use crate::cache::CachePolicy;
use crate::cache::CacheView;
use crate::deleted_keys::DeletedKeysView;
use crate::deleted_keys::PopulationDeletedKeys;
use crate::frame::frame_empty;
use crate::frame::Frame;
use crate::frame::FrameView;

verus! {

/// The state that the CDC path and the registration path share. One command
/// works on it at a time.
pub struct WriterCore {
    pub cache: Cache,
    pub frame: Frame,
    pub deleted_keys: PopulationDeletedKeys,
    /// Everything up to this LSN has been applied.
    pub last_applied_lsn: u64,
    pub publication_name: String,
}

/// The mathematical value of a [`WriterCore`].
#[verifier::ext_equal]
pub struct CoreView {
    pub cache: CacheView,
    pub frame: FrameView,
    pub keys: DeletedKeysView,
    pub last_applied_lsn: u64,
    pub publication_name: Seq<char>,
}

impl View for WriterCore {
    type V = CoreView;

    open spec fn view(&self) -> CoreView {
        CoreView {
            cache: self.cache@,
            frame: self.frame@,
            keys: self.deleted_keys@,
            last_applied_lsn: self.last_applied_lsn,
            publication_name: self.publication_name@,
        }
    }
}

/// Whether a parked population of `parked_generation` may still be finished:
/// its query is still registered under that generation (`live` gives the
/// generation, and whether the query is invalidated), and not invalidated.
pub open spec fn finalize_allowed(live: Option<(u64, bool)>, parked_generation: u64) -> bool {
    live == Some((parked_generation, false))
}

/// Whether a parked population may still be finished. A query that was evicted,
/// readmitted under a new generation, or invalidated meanwhile must not become
/// ready with the parked rows.
pub fn population_finalize_allowed(live: Option<(u64, bool)>, parked_generation: u64) -> (allowed:
    bool)
    ensures
        allowed == finalize_allowed(live, parked_generation),
{
    match live {
        Some((generation, invalidated)) => generation == parked_generation && !invalidated,
        None => false,
    }
}

/// The generation a query is registered under, and whether it is invalidated.
pub open spec fn live_generation(c: CacheView, fingerprint: u64) -> Option<(u64, bool)> {
    match cached_find(c.cached, fingerprint) {
        Some(q) => Some((q.generation, q.invalidated)),
        None => None,
    }
}

/// The state of a writer that has applied nothing.
pub open spec fn core_empty(publication_name: Seq<char>, policy: CachePolicy) -> CoreView {
    CoreView {
        cache: cache_empty(policy),
        frame: frame_empty(),
        keys: Map::empty(),
        last_applied_lsn: 0,
        publication_name,
    }
}

impl WriterCore {
    /// The state of a writer that has applied nothing.
    pub fn new(publication_name: String, policy: CachePolicy) -> (core: WriterCore)
        ensures
            core@ == core_empty(publication_name@, policy),
    {
        let core = WriterCore {
            cache: Cache::new(policy),
            frame: Frame::new(),
            deleted_keys: PopulationDeletedKeys::new(),
            last_applied_lsn: 0,
            publication_name,
        };
        proof {
            assert(core@ =~= core_empty(publication_name@, policy));
        }
        core
    }

    /// Whether the population of the query at that generation may still be
    /// finished.
    pub fn population_is_current(&self, fingerprint: u64, generation: u64) -> (current: bool)
        ensures
            current == finalize_allowed(live_generation(self@.cache, fingerprint), generation),
    {
        let live = match self.cache.cached_position(fingerprint) {
            Some(at) => Some((self.cache.cached[at].generation, self.cache.cached[at].invalidated)),
            None => None,
        };
        population_finalize_allowed(live, generation)
    }
}

} // verus!
