//! Deterministic faults, for exercising the paths that only a race or an
//! outage takes. None is armed in ordinary use.
use vstd::prelude::*;
use vstd::string::*;

use crate::command::CdcValue;

verus! {

/// A CDC insert that carries this value in any column stops an armed writer.
pub const WRITER_DIE_SENTINEL: &'static str = "__PGCACHE_WRITER_DIE__";

/// The armed faults.
#[derive(Clone, Copy, Debug)]
pub struct Faults {
    /// The next insert over a cached query's relation is a deadlock's victim.
    pub cdc_deadlock_once: bool,
    /// A batch is not flushed for want of waiting commands before it has this
    /// many frames.
    pub hold_flush_frames: Option<usize>,
    /// Merge chunks have this many heap blocks.
    pub merge_chunk_blocks: Option<u32>,
    /// The writer stops at the sentinel.
    pub writer_die: bool,
    /// No more queries than this stay cached.
    pub eviction_count_cap: Option<usize>,
}

impl Faults {
    /// No fault is armed.
    pub fn none() -> (f: Faults)
        ensures
            f == no_faults(),
    {
        Faults {
            cdc_deadlock_once: false,
            hold_flush_frames: None,
            merge_chunk_blocks: None,
            writer_die: false,
            eviction_count_cap: None,
        }
    }
}

/// No fault is armed.
pub open spec fn no_faults() -> Faults {
    Faults {
        cdc_deadlock_once: false,
        hold_flush_frames: None,
        merge_chunk_blocks: None,
        writer_die: false,
        eviction_count_cap: None,
    }
}

/// Take the deadlock: whether it was armed. It fires once.
pub fn cdc_deadlock_take(faults: &mut Faults) -> (armed: bool)
    ensures
        armed == old(faults).cdc_deadlock_once,
        *final(faults) == (Faults { cdc_deadlock_once: false, ..*old(faults) }),
{
    let armed = faults.cdc_deadlock_once;
    faults.cdc_deadlock_once = false;
    armed
}

/// Whether an insert is made a deadlock's victim. The fault waits for a cached
/// query, so that there is something to recover.
pub open spec fn deadlock_injected(faults: Faults, any_cached: bool) -> bool {
    any_cached && faults.cdc_deadlock_once
}

/// Whether the insert is made a deadlock's victim.
pub fn fault_cdc_deadlock_should_inject(faults: &mut Faults, any_cached: bool) -> (inject: bool)
    ensures
        inject == deadlock_injected(*old(faults), any_cached),
        *final(faults) == (if any_cached {
            Faults { cdc_deadlock_once: false, ..*old(faults) }
        } else {
            *old(faults)
        }),
{
    any_cached && cdc_deadlock_take(faults)
}

/// Whether a batch of that many frames is held back.
pub open spec fn flush_held(faults: Faults, batch_frames: int) -> bool {
    faults.hold_flush_frames matches Some(n) && batch_frames < n
}

/// Whether a batch of that many frames is held back. Full and recovering
/// batches are flushed all the same.
pub fn fault_cdc_hold_flush(faults: &Faults, batch_frames: usize) -> (held: bool)
    ensures
        held == flush_held(*faults, batch_frames as int),
{
    match faults.hold_flush_frames {
        Some(n) => batch_frames < n,
        None => false,
    }
}

/// The fixed chunk size, if one is armed; zero is none.
pub open spec fn fixed_chunk_blocks(faults: Faults) -> Option<u32> {
    match faults.merge_chunk_blocks {
        Some(blocks) => if blocks > 0 {
            Some(blocks)
        } else {
            None
        },
        None => None,
    }
}

/// The fixed chunk size, if one is armed.
pub fn fault_merge_chunk_blocks(faults: &Faults) -> (blocks: Option<u32>)
    ensures
        blocks == fixed_chunk_blocks(*faults),
{
    match faults.merge_chunk_blocks {
        Some(blocks) => if blocks > 0 {
            Some(blocks)
        } else {
            None
        },
        None => None,
    }
}

/// Whether a row carries the sentinel.
pub open spec fn has_sentinel(row: Seq<CdcValue>) -> bool {
    exists|i: int|
        0 <= i < row.len() && ((#[trigger] row[i]) matches CdcValue::Text(text) && text@
            == WRITER_DIE_SENTINEL@)
}

/// Whether the row stops the writer. The fault fires once, so that the
/// restarted writer survives the same row.
pub fn writer_die_check(faults: &mut Faults, row: &Vec<CdcValue>) -> (hit: bool)
    ensures
        hit == (old(faults).writer_die && has_sentinel(row@)),
        *final(faults) == (if hit {
            Faults { writer_die: false, ..*old(faults) }
        } else {
            *old(faults)
        }),
{
    if !faults.writer_die {
        return false;
    }
    let sentinel = WRITER_DIE_SENTINEL.to_owned();
    let mut i: usize = 0;
    while i < row.len()
        invariant
            i <= row.len(),
            faults.writer_die,
            *faults == *old(faults),
            sentinel@ == WRITER_DIE_SENTINEL@,
            forall|j: int|
                0 <= j < i ==> !((#[trigger] row@[j]) matches CdcValue::Text(text) && text@
                    == WRITER_DIE_SENTINEL@),
        decreases row.len() - i,
    {
        let hit = match &row[i] {
            CdcValue::Text(text) => *text == sentinel,
            _ => false,
        };
        if hit {
            assert(has_sentinel(row@));
            faults.writer_die = false;
            return true;
        }
        i = i + 1;
    }
    false
}

} // verus!
