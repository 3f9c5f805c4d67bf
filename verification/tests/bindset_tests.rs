use fhsenv::bindset::{plan_bind_set, BindStep, SourceEntry};

fn entry(name: &str, is_dir: bool) -> SourceEntry {
    SourceEntry { name: name.to_string(), is_dir }
}

fn names(steps: &[BindStep]) -> Vec<&str> {
    steps.iter().map(|s| s.name.as_str()).collect()
}

#[test]
fn excluded_names_are_never_planned() {
    let children = vec![entry("bin", true), entry("etc", true), entry("usr", true)];
    let steps = plan_bind_set(children, &vec![], &vec!["etc".to_string()]);
    assert_eq!(names(&steps), vec!["bin", "usr"]);
}

#[test]
fn preexisting_names_are_never_overwritten() {
    // this is how the host's /etc keeps precedence over the FHS tree's
    let children = vec![entry("passwd", false), entry("hosts", false)];
    let steps = plan_bind_set(children, &vec!["passwd".to_string()], &vec![]);
    assert_eq!(names(&steps), vec!["hosts"]);
}

#[test]
fn stub_kind_follows_source_kind() {
    let children = vec![entry("lib", true), entry("os-release", false)];
    let steps = plan_bind_set(children, &vec![], &vec![]);
    assert_eq!(steps.len(), 2);
    assert!(steps[0].is_dir);
    assert!(!steps[1].is_dir);
}

#[test]
fn source_order_is_kept() {
    let children = vec![entry("c", false), entry("a", false), entry("b", false)];
    let steps = plan_bind_set(children, &vec![], &vec![]);
    assert_eq!(names(&steps), vec!["c", "a", "b"]);
}

#[test]
fn etc_composition_gives_host_precedence() {
    // the /etc layering of the composition, played over the planner:
    // the written ld.so.conf exists first, the host layer is applied with
    // ld.so.conf excluded, then the FHS layer fills gaps only
    let mut present = vec!["ld.so.conf".to_string()];

    let host_children = vec![entry("passwd", false), entry("ld.so.conf", false)];
    let host_steps = plan_bind_set(host_children, &present, &vec!["ld.so.conf".to_string()]);
    assert_eq!(names(&host_steps), vec!["passwd"]);
    for s in &host_steps {
        present.push(s.name.clone());
    }

    let fhs_children = vec![entry("passwd", false), entry("profile", false)];
    let fhs_steps = plan_bind_set(fhs_children, &present, &vec![]);
    // the host's passwd wins; only the gap is filled from the FHS tree
    assert_eq!(names(&fhs_steps), vec!["profile"]);
}
