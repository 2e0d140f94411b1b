//! Materialized results of cached queries: their state machine.
//!
//! Builds run elsewhere and report back; every transition is made here, one at
//! a time with CDC dirty-marking. A build that was overtaken by a relevant
//! change is found dirty at its completion and discarded.
use vstd::prelude::*;
use vstd::string::*;

verus! {

/// Whether a query's shape is worth materializing.
#[derive(Clone, Copy, Debug, PartialEq, Eq, Structural)]
pub enum ShapeGate {
    /// Never.
    Skip,
    /// If its result is small compared with its input.
    Measure,
    /// Always.
    Materialize,
}

/// Where a materialized result is. `has_table` tells whether its table exists.
#[derive(Clone, Copy, Debug, PartialEq, Eq, Structural)]
pub enum MvState {
    Skipped,
    Ineligible,
    Pending { has_table: bool },
    Scheduled { has_table: bool },
    Building { has_table: bool },
    /// A relevant change came in while the build was running.
    BuildingDirty { has_table: bool },
    Fresh,
}

/// What a relevant change makes of a state; `None` when it changes nothing.
pub open spec fn dirtied(s: MvState) -> Option<MvState> {
    match s {
        MvState::Fresh => Some(MvState::Pending { has_table: true }),
        MvState::Building { has_table } => Some(MvState::BuildingDirty { has_table }),
        _ => None,
    }
}

/// A state after a relevant change.
pub open spec fn after_change(s: MvState) -> MvState {
    match dirtied(s) {
        Some(d) => d,
        None => s,
    }
}

/// Whether the table exists.
pub open spec fn table_exists(s: MvState) -> bool {
    match s {
        MvState::Skipped => false,
        MvState::Ineligible => false,
        MvState::Pending { has_table } => has_table,
        MvState::Scheduled { has_table } => has_table,
        MvState::Building { has_table } => has_table,
        MvState::BuildingDirty { has_table } => has_table,
        MvState::Fresh => true,
    }
}

/// Whether a build is running.
pub open spec fn is_building(s: MvState) -> bool {
    s is Building || s is BuildingDirty
}

/// Whether evicting the query drops its table. A running build holds locks on
/// the table, so its completion drops it instead.
pub open spec fn drop_due(s: MvState) -> bool {
    !is_building(s) && table_exists(s)
}

impl MvState {
    /// The state of a newly registered query.
    pub fn initial(gate: ShapeGate) -> (s: MvState)
        ensures
            s == if gate == ShapeGate::Skip {
                MvState::Skipped
            } else {
                MvState::Pending { has_table: false }
            },
    {
        match gate {
            ShapeGate::Skip => MvState::Skipped,
            _ => MvState::Pending { has_table: false },
        }
    }

    /// What a relevant change makes of the state.
    pub fn dirtied(self) -> (d: Option<MvState>)
        ensures
            d == dirtied(self),
    {
        match self {
            MvState::Fresh => Some(MvState::Pending { has_table: true }),
            MvState::Building { has_table } => Some(MvState::BuildingDirty { has_table }),
            _ => None,
        }
    }

    /// Whether the table exists.
    pub fn has_table(self) -> (exists_: bool)
        ensures
            exists_ == table_exists(self),
    {
        match self {
            MvState::Skipped => false,
            MvState::Ineligible => false,
            MvState::Pending { has_table } => has_table,
            MvState::Scheduled { has_table } => has_table,
            MvState::Building { has_table } => has_table,
            MvState::BuildingDirty { has_table } => has_table,
            MvState::Fresh => true,
        }
    }

    /// Whether evicting the query drops its table.
    pub fn mv_drop(self) -> (due: bool)
        ensures
            due == drop_due(self),
    {
        match self {
            MvState::Building { .. } => false,
            MvState::BuildingDirty { .. } => false,
            _ => self.has_table(),
        }
    }
}

/// How a build ended.
pub enum MvBuildOutcome {
    Built { output_columns: Vec<String>, was_first_build: bool },
    /// The result is too large to be worth a table.
    Ineligible,
    Failed { has_table: bool },
}

/// How a build ended, without the column names.
#[derive(Clone, Copy, Debug, PartialEq, Eq, Structural)]
pub enum BuildEnd {
    Built { was_first_build: bool },
    Ineligible,
    Failed { has_table: bool },
}

pub open spec fn outcome_end(outcome: MvBuildOutcome) -> BuildEnd {
    match outcome {
        MvBuildOutcome::Built { was_first_build, .. } => BuildEnd::Built { was_first_build },
        MvBuildOutcome::Ineligible => BuildEnd::Ineligible,
        MvBuildOutcome::Failed { has_table } => BuildEnd::Failed { has_table },
    }
}

/// What the completion of a build does.
#[derive(Clone, Copy, Debug, PartialEq, Eq, Structural)]
pub struct Completion {
    /// The query's state afterwards; `None` when it keeps its own.
    pub state: Option<MvState>,
    /// Whether the table is dropped.
    pub drop_table: bool,
}

/// What the completion of a build does. `state` is the query's current state,
/// `None` when the query was evicted; `ready` tells whether its source rows
/// still serve.
///
/// A first build is not transactional with what follows it, so it counts only
/// while the source rows still serve. A build that a change overtook leaves a
/// table to rebuild. A query that was reset meanwhile expects no table. The
/// size verdict stands whatever happened meanwhile.
pub open spec fn completion(state: Option<MvState>, ready: bool, end: BuildEnd) -> Completion {
    match (state, end) {
        (None, BuildEnd::Built { .. }) => Completion { state: None, drop_table: true },
        (None, _) => Completion { state: None, drop_table: false },
        (Some(s), BuildEnd::Built { was_first_build }) => if was_first_build && !ready {
            Completion { state: Some(MvState::Pending { has_table: false }), drop_table: true }
        } else {
            match s {
                MvState::Building { .. } => Completion {
                    state: Some(MvState::Fresh),
                    drop_table: false,
                },
                MvState::BuildingDirty { .. } => Completion {
                    state: Some(MvState::Pending { has_table: true }),
                    drop_table: false,
                },
                _ => Completion { state: None, drop_table: true },
            }
        },
        (Some(_), BuildEnd::Ineligible) => Completion {
            state: Some(MvState::Ineligible),
            drop_table: false,
        },
        (Some(s), BuildEnd::Failed { has_table }) => if is_building(s) {
            Completion { state: Some(MvState::Pending { has_table }), drop_table: false }
        } else {
            Completion { state: None, drop_table: false }
        },
    }
}

/// Decide what the completion of a build does.
pub fn mv_build_completion(state: Option<MvState>, ready: bool, end: BuildEnd) -> (c: Completion)
    ensures
        c == completion(state, ready, end),
{
    match (state, end) {
        (None, BuildEnd::Built { .. }) => Completion { state: None, drop_table: true },
        (None, _) => Completion { state: None, drop_table: false },
        (Some(s), BuildEnd::Built { was_first_build }) => {
            if was_first_build && !ready {
                return Completion {
                    state: Some(MvState::Pending { has_table: false }),
                    drop_table: true,
                };
            }
            match s {
                MvState::Building { .. } => Completion {
                    state: Some(MvState::Fresh),
                    drop_table: false,
                },
                MvState::BuildingDirty { .. } => Completion {
                    state: Some(MvState::Pending { has_table: true }),
                    drop_table: false,
                },
                _ => Completion { state: None, drop_table: true },
            }
        },
        (Some(_), BuildEnd::Ineligible) => Completion {
            state: Some(MvState::Ineligible),
            drop_table: false,
        },
        (Some(s), BuildEnd::Failed { has_table }) => match s {
            MvState::Building { .. } => Completion {
                state: Some(MvState::Pending { has_table }),
                drop_table: false,
            },
            MvState::BuildingDirty { .. } => Completion {
                state: Some(MvState::Pending { has_table }),
                drop_table: false,
            },
            _ => Completion { state: None, drop_table: false },
        },
    }
}

/// A build that a relevant change overtook never becomes fresh: the dirty mark
/// survives to the completion, whatever its outcome.
pub proof fn overtaken_build_is_never_fresh(s: MvState, ready: bool, end: BuildEnd)
    requires
        s is Building,
    ensures
        completion(Some(after_change(s)), ready, end).state is Some,
        completion(Some(after_change(s)), ready, end).state != Some(MvState::Fresh),
{
}

/// A relevant change leaves nothing fresh, and repeating it changes nothing
/// more.
pub proof fn change_is_idempotent(s: MvState)
    ensures
        after_change(s) != MvState::Fresh,
        after_change(after_change(s)) == after_change(s),
{
}

/// A completed build leaves a table behind exactly where the state says so.
pub proof fn completed_build_accounts_for_its_table(s: MvState, ready: bool, first: bool)
    ensures
        ({
            let c = completion(Some(s), ready, BuildEnd::Built { was_first_build: first });
            c.state matches Some(after) ==> table_exists(after) == !c.drop_table
        }),
{
}

} // verus!
