use fhsenv::compose::{compose_plan, step_exclusions, ComposeStep};
use fhsenv::lifecycle::{advance, Phase};
use fhsenv::nsenter::{
    namespace_plan, proc_setgroups_path, proc_user_ns_path, setgroups_deny_value,
    user_namespace_entry_allowed, NsStep,
};
use fhsenv::pivot::{pivot_plan, PivotStep};

#[test]
fn compose_steps_in_mandatory_order() {
    let steps = compose_plan();
    assert_eq!(
        steps,
        vec![
            ComposeStep::MakeRootSubordinate,
            ComposeStep::CreateNewRootDir,
            ComposeStep::MountTmpfs,
            ComposeStep::BindFhsTop,
            ComposeStep::CreateEtcDir,
            ComposeStep::WriteLdSoConf,
            ComposeStep::BindHostEtc,
            ComposeStep::BindFhsEtc,
            ComposeStep::BindHostTop,
        ]
    );
}

#[test]
fn compose_exclusions_per_step() {
    let excl = |s: ComposeStep| -> Vec<String> { step_exclusions(s) };
    assert_eq!(excl(ComposeStep::BindFhsTop), vec!["etc".to_string()]);
    assert_eq!(excl(ComposeStep::BindHostEtc), vec!["ld.so.conf".to_string()]);
    assert_eq!(excl(ComposeStep::BindFhsEtc), Vec::<String>::new());
    assert_eq!(
        excl(ComposeStep::BindHostTop),
        vec!["etc".to_string(), "tmp".to_string()]
    );
    assert_eq!(excl(ComposeStep::MountTmpfs), Vec::<String>::new());
}

#[test]
fn pivot_steps_in_mandatory_order() {
    let steps = pivot_plan();
    assert_eq!(
        steps,
        vec![
            PivotStep::CreateTmpDir,
            PivotStep::BindHostTmp,
            PivotStep::CreatePutOld,
            PivotStep::SnapshotCwd,
            PivotStep::PivotSyscall,
            PivotStep::RestoreCwd,
            PivotStep::DetachOldRoot,
        ]
    );
    // the old root is detached only after the pivot
    let pivot_at = steps.iter().position(|s| *s == PivotStep::PivotSyscall).unwrap();
    let detach_at = steps.iter().position(|s| *s == PivotStep::DetachOldRoot).unwrap();
    assert!(pivot_at < detach_at);
    // the host /tmp is bound before the pivot, never during composition
    let tmp_at = steps.iter().position(|s| *s == PivotStep::BindHostTmp).unwrap();
    assert!(tmp_at < pivot_at);
}

#[test]
fn namespace_steps_in_mandatory_order() {
    let steps = namespace_plan();
    let pos = |step: NsStep| steps.iter().position(|s| *s == step).unwrap();
    assert_eq!(steps.len(), 8);
    // setgroups=deny must precede the gid map write
    assert!(pos(NsStep::DenySetgroups) < pos(NsStep::WriteGidMap));
    assert!(pos(NsStep::WriteUidMap) < pos(NsStep::DenySetgroups));
    // the mount namespace comes only after the user namespace is entered
    assert!(pos(NsStep::EnterUserNamespace) < pos(NsStep::UnshareMountNamespace));
    // the auxiliary child is reaped
    assert!(steps.contains(&NsStep::ReapHolder));
}

#[test]
fn namespace_entry_needs_a_single_thread() {
    assert!(user_namespace_entry_allowed(1));
    assert!(!user_namespace_entry_allowed(2));
    assert!(!user_namespace_entry_allowed(0));
}

#[test]
fn setgroups_write() {
    assert_eq!(setgroups_deny_value().as_str(), "deny");
    assert_eq!(proc_setgroups_path(12345).as_str(), "/proc/12345/setgroups");
    assert_eq!(proc_user_ns_path(7).as_str(), "/proc/7/ns/user");
}

#[test]
fn lifecycle_is_a_straight_line() {
    let mut phase = Phase::Init;
    let mut seen = vec![phase];
    while let Some(next) = advance(phase) {
        phase = next;
        seen.push(phase);
    }
    assert_eq!(
        seen,
        vec![
            Phase::Init,
            Phase::UserNsEntered,
            Phase::MountNsEntered,
            Phase::RootComposed,
            Phase::Pivoted,
            Phase::EnvPrepared,
            Phase::Launched,
        ]
    );
}
