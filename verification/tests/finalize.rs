use pgcache_writer::writer_core::population_finalize_allowed;

/// Live query at the parked generation, not invalidated: finish.
#[test]
fn finalize_allowed_when_current() {
    assert!(population_finalize_allowed(Some((5, false)), 5));
}

/// A readmission bumped the generation while the entry was parked: skip.
#[test]
fn finalize_skipped_after_readmit() {
    assert!(!population_finalize_allowed(Some((8, false)), 5));
}

/// The query was invalidated while parked: skip.
#[test]
fn finalize_skipped_when_invalidated() {
    assert!(!population_finalize_allowed(Some((5, true)), 5));
}

/// The query was evicted while parked: skip.
#[test]
fn finalize_skipped_when_evicted() {
    assert!(!population_finalize_allowed(None, 5));
}
