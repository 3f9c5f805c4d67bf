//! The failure taxonomy: the kinds of error the constructor can stop on.
//! Errors are never recovered beyond the three best-effort cases (restoring
//! the working directory, reaping the auxiliary child, a missing delegation
//! file); every other failure ends the process with a message naming the
//! failing stage.

use vstd::prelude::*;

verus! {

/// The kind of a fatal failure.
#[derive(Clone, Copy, PartialEq, Eq, Structural, Debug)]
pub enum FailureKind {
    /// Invalid or missing environment specification, or a malformed
    /// subordinate-id line.
    Config,
    /// A subprocess exited nonzero or produced undecodable output.
    ExternalTool,
    /// A stub creation, directory read, metadata query, mount or unmount
    /// failed.
    Filesystem,
    /// An unshare, a setns or the id-mapping helper failed.
    Namespace,
    /// A failure while pivoting into the new root.
    Pivot,
    /// Replacing the process image failed.
    Launch,
}

/// The stage label a failure of the kind is reported under.
pub fn failure_label(kind: FailureKind) -> (r: String)
    ensures
        kind is Config ==> r@ == "invalid configuration"@,
        kind is ExternalTool ==> r@ == "external tool failed"@,
        kind is Filesystem ==> r@ == "filesystem operation failed"@,
        kind is Namespace ==> r@ == "couldn't enter namespace"@,
        kind is Pivot ==> r@ == "couldn't pivot root"@,
        kind is Launch ==> r@ == "couldn't launch program"@,
{
    match kind {
        FailureKind::Config => "invalid configuration".to_owned(),
        FailureKind::ExternalTool => "external tool failed".to_owned(),
        FailureKind::Filesystem => "filesystem operation failed".to_owned(),
        FailureKind::Namespace => "couldn't enter namespace".to_owned(),
        FailureKind::Pivot => "couldn't pivot root".to_owned(),
        FailureKind::Launch => "couldn't launch program".to_owned(),
    }
}

} // verus!
