//! Namespace entry: the ordered steps that create a user namespace in an
//! auxiliary child, populate its id maps, enter it, and only then unshare
//! the mount namespace — with the mandatory orderings stated as laws, and
//! the single-thread precondition of user-namespace creation as a checked
//! rule.

use vstd::prelude::*;
use crate::strutil::{spec_decimal, u32_to_string};

verus! {

/// One step of the namespace-entry sequence.
#[derive(Clone, Copy, PartialEq, Eq, Structural, Debug)]
pub enum NsStep {
    /// Spawn the auxiliary child that creates a user namespace and blocks.
    SpawnNamespaceHolder,
    /// Run the uid-mapping helper against the child.
    WriteUidMap,
    /// Write `deny` to the child's `setgroups` control file.
    DenySetgroups,
    /// Run the gid-mapping helper against the child.
    WriteGidMap,
    /// Enter the child's user namespace through its namespace file.
    EnterUserNamespace,
    /// Signal the auxiliary child, best effort.
    KillHolder,
    /// Reap the auxiliary child, best effort.
    ReapHolder,
    /// Unshare the mount namespace inside the entered user namespace.
    UnshareMountNamespace,
}

/// The namespace-entry sequence, in its mandatory order.
pub open spec fn spec_namespace_plan() -> Seq<NsStep> {
    seq![
        NsStep::SpawnNamespaceHolder,
        NsStep::WriteUidMap,
        NsStep::DenySetgroups,
        NsStep::WriteGidMap,
        NsStep::EnterUserNamespace,
        NsStep::KillHolder,
        NsStep::ReapHolder,
        NsStep::UnshareMountNamespace,
    ]
}

/// Emits the namespace-entry steps in their mandatory order.
pub fn namespace_plan() -> (steps: Vec<NsStep>)
    ensures
        steps@ == spec_namespace_plan(),
{
    let mut steps: Vec<NsStep> = Vec::new();
    steps.push(NsStep::SpawnNamespaceHolder);
    steps.push(NsStep::WriteUidMap);
    steps.push(NsStep::DenySetgroups);
    steps.push(NsStep::WriteGidMap);
    steps.push(NsStep::EnterUserNamespace);
    steps.push(NsStep::KillHolder);
    steps.push(NsStep::ReapHolder);
    steps.push(NsStep::UnshareMountNamespace);
    assert(steps@ =~= spec_namespace_plan());
    steps
}

/// Ordering laws of namespace entry: the uid map is written before
/// `setgroups` is denied, `setgroups` is denied before the gid map is
/// written, the user namespace is entered before the mount namespace is
/// unshared, and the auxiliary child is reaped whatever follows.
pub proof fn lemma_namespace_plan_ordering()
    ensures
        forall|i: int, j: int|
            0 <= i < spec_namespace_plan().len() && 0 <= j < spec_namespace_plan().len()
                && spec_namespace_plan()[i] is DenySetgroups && spec_namespace_plan()[j]
                is WriteGidMap ==> i < j,
        forall|i: int, j: int|
            0 <= i < spec_namespace_plan().len() && 0 <= j < spec_namespace_plan().len()
                && spec_namespace_plan()[i] is WriteUidMap && spec_namespace_plan()[j]
                is DenySetgroups ==> i < j,
        forall|i: int, j: int|
            0 <= i < spec_namespace_plan().len() && 0 <= j < spec_namespace_plan().len()
                && spec_namespace_plan()[i] is EnterUserNamespace && spec_namespace_plan()[j]
                is UnshareMountNamespace ==> i < j,
        spec_namespace_plan().contains(NsStep::ReapHolder),
{
    assert(spec_namespace_plan()[6] == NsStep::ReapHolder);
}

/// The kernel refuses to create a user namespace from a process with more
/// than one schedulable thread: entry is allowed exactly when the caller
/// is single-threaded.
pub open spec fn can_create_user_namespace(live_threads: int) -> bool {
    live_threads == 1
}

/// Checks the single-thread precondition of user-namespace creation.
pub fn user_namespace_entry_allowed(live_threads: u64) -> (b: bool)
    ensures
        b == can_create_user_namespace(live_threads as int),
{
    live_threads == 1
}

/// The value written to the child's `setgroups` control file, mandatory
/// before the gid map to protect group-readable files.
pub fn setgroups_deny_value() -> (r: String)
    ensures
        r@ == "deny"@,
{
    "deny".to_owned()
}

/// The path of the child's `setgroups` control file.
pub fn proc_setgroups_path(pid: u32) -> (r: String)
    ensures
        r@ == "/proc/"@ + spec_decimal(pid as nat) + "/setgroups"@,
{
    let mut r: String = "/proc/".to_owned();
    r.append(u32_to_string(pid).as_str());
    r.append("/setgroups");
    r
}

/// The path of the child's user-namespace file.
pub fn proc_user_ns_path(pid: u32) -> (r: String)
    ensures
        r@ == "/proc/"@ + spec_decimal(pid as nat) + "/ns/user"@,
{
    let mut r: String = "/proc/".to_owned();
    r.append(u32_to_string(pid).as_str());
    r.append("/ns/user");
    r
}

} // verus!
