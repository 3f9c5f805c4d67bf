//! Root pivoting: the ordered steps that bind the host's `/tmp`, pivot into
//! the new root and detach the old one, with a mount-state model showing
//! that afterwards the old root is unreachable and its parking directory is
//! no longer a mount point.

use vstd::prelude::*;

verus! {

/// One step of the pivot sequence.
#[derive(Clone, Copy, PartialEq, Eq, Structural, Debug)]
pub enum PivotStep {
    /// Create `tmp` in the new root with mode `0777`.
    CreateTmpDir,
    /// Mirror the host's `/tmp` contents into the new `tmp`.
    BindHostTmp,
    /// Allocate the parking directory for the old root under the new root.
    CreatePutOld,
    /// Remember the current working directory.
    SnapshotCwd,
    /// Swap the root: the new root becomes `/`, the old root is parked.
    PivotSyscall,
    /// Return to the remembered working directory, best effort.
    RestoreCwd,
    /// Unmount the parked old root with the detach flag.
    DetachOldRoot,
}

/// The pivot sequence, in its mandatory order.
pub open spec fn spec_pivot_plan() -> Seq<PivotStep> {
    seq![
        PivotStep::CreateTmpDir,
        PivotStep::BindHostTmp,
        PivotStep::CreatePutOld,
        PivotStep::SnapshotCwd,
        PivotStep::PivotSyscall,
        PivotStep::RestoreCwd,
        PivotStep::DetachOldRoot,
    ]
}

/// Emits the pivot steps in their mandatory order: no step may be
/// reordered or skipped.
pub fn pivot_plan() -> (steps: Vec<PivotStep>)
    ensures
        steps@ == spec_pivot_plan(),
{
    let mut steps: Vec<PivotStep> = Vec::new();
    steps.push(PivotStep::CreateTmpDir);
    steps.push(PivotStep::BindHostTmp);
    steps.push(PivotStep::CreatePutOld);
    steps.push(PivotStep::SnapshotCwd);
    steps.push(PivotStep::PivotSyscall);
    steps.push(PivotStep::RestoreCwd);
    steps.push(PivotStep::DetachOldRoot);
    assert(steps@ =~= spec_pivot_plan());
    steps
}

/// The process's view of the mount tree, abstracted to what the pivot
/// changes.
pub struct MountView {
    /// The process's `/` is the composed new root.
    pub root_is_new: bool,
    /// The old root is still reachable from the process's mount tree.
    pub old_root_reachable: bool,
    /// The parking directory is a mount point holding the old root.
    pub put_old_is_mountpoint: bool,
    /// The host's `/tmp` contents are bound into the new root's `tmp`.
    pub tmp_bound: bool,
}

/// The view before the pivot sequence: the old root is `/`.
pub open spec fn pivot_start() -> MountView {
    MountView {
        root_is_new: false,
        old_root_reachable: true,
        put_old_is_mountpoint: false,
        tmp_bound: false,
    }
}

/// What each pivot step does to the mount view.
pub open spec fn apply_pivot_step(s: MountView, step: PivotStep) -> MountView {
    match step {
        PivotStep::CreateTmpDir => s,
        PivotStep::BindHostTmp => MountView { tmp_bound: true, ..s },
        PivotStep::CreatePutOld => s,
        PivotStep::SnapshotCwd => s,
        PivotStep::PivotSyscall => MountView {
            root_is_new: true,
            put_old_is_mountpoint: true,
            ..s
        },
        PivotStep::RestoreCwd => s,
        PivotStep::DetachOldRoot => MountView {
            put_old_is_mountpoint: false,
            old_root_reachable: false,
            ..s
        },
    }
}

/// The mount view after a sequence of pivot steps.
pub open spec fn apply_pivot_plan(s: MountView, steps: Seq<PivotStep>) -> MountView
    decreases steps.len(),
{
    if steps.len() == 0 {
        s
    } else {
        apply_pivot_plan(apply_pivot_step(s, steps[0]), steps.drop_first())
    }
}

/// Lifecycle law of the pivot: after the sequence runs, the process's root
/// is the new root, the old root is no longer reachable, the parking
/// directory is no longer a mount point, and the host's `/tmp` contents
/// are visible in the new `tmp`.
pub proof fn lemma_pivot_outcome()
    ensures
        apply_pivot_plan(pivot_start(), spec_pivot_plan()) == (MountView {
            root_is_new: true,
            old_root_reachable: false,
            put_old_is_mountpoint: false,
            tmp_bound: true,
        }),
{
    reveal_with_fuel(apply_pivot_plan, 9);
    let p = spec_pivot_plan();
    assert(p.drop_first() =~= p.subrange(1, 7));
    assert(p.subrange(1, 7).drop_first() =~= p.subrange(2, 7));
    assert(p.subrange(2, 7).drop_first() =~= p.subrange(3, 7));
    assert(p.subrange(3, 7).drop_first() =~= p.subrange(4, 7));
    assert(p.subrange(4, 7).drop_first() =~= p.subrange(5, 7));
    assert(p.subrange(5, 7).drop_first() =~= p.subrange(6, 7));
    assert(p.subrange(6, 7).drop_first() =~= Seq::<PivotStep>::empty());
}

} // verus!
