//! The per-invocation lifecycle: a straight line of phases with no retries
//! and no skips. Any failure before the pivot simply ends the process and
//! lets the kernel tear the namespaces down.

use vstd::prelude::*;

verus! {

/// The phases a sandbox invocation passes through, in order.
#[derive(Clone, Copy, PartialEq, Eq, Structural, Debug)]
pub enum Phase {
    Init,
    UserNsEntered,
    MountNsEntered,
    RootComposed,
    Pivoted,
    EnvPrepared,
    Launched,
}

/// The position of a phase in the lifecycle.
pub open spec fn phase_index(p: Phase) -> int {
    match p {
        Phase::Init => 0,
        Phase::UserNsEntered => 1,
        Phase::MountNsEntered => 2,
        Phase::RootComposed => 3,
        Phase::Pivoted => 4,
        Phase::EnvPrepared => 5,
        Phase::Launched => 6,
    }
}

/// The phase that follows, if any: `Launched` is terminal.
pub open spec fn next_phase(p: Phase) -> Option<Phase> {
    match p {
        Phase::Init => Some(Phase::UserNsEntered),
        Phase::UserNsEntered => Some(Phase::MountNsEntered),
        Phase::MountNsEntered => Some(Phase::RootComposed),
        Phase::RootComposed => Some(Phase::Pivoted),
        Phase::Pivoted => Some(Phase::EnvPrepared),
        Phase::EnvPrepared => Some(Phase::Launched),
        Phase::Launched => None,
    }
}

/// Advances the lifecycle by one phase; the terminal phase has no
/// successor.
pub fn advance(p: Phase) -> (r: Option<Phase>)
    ensures
        r == next_phase(p),
{
    match p {
        Phase::Init => Some(Phase::UserNsEntered),
        Phase::UserNsEntered => Some(Phase::MountNsEntered),
        Phase::MountNsEntered => Some(Phase::RootComposed),
        Phase::RootComposed => Some(Phase::Pivoted),
        Phase::Pivoted => Some(Phase::EnvPrepared),
        Phase::EnvPrepared => Some(Phase::Launched),
        Phase::Launched => None,
    }
}

/// Each transition is total and moves one step forward: every phase but
/// the terminal one has exactly the next index as its successor, so the
/// lifecycle can neither skip nor retry a phase.
pub proof fn lemma_lifecycle_total(p: Phase)
    ensures
        p is Launched <==> next_phase(p) is None,
        next_phase(p) matches Some(q) ==> phase_index(q) == phase_index(p) + 1,
{
}

} // verus!
