use fhsenv::idmap::{
    build_mapping_plan, mapping_helper_args, mapping_plan_checked, mapper_program, subid_file,
    MapTriple, MappingKind,
};
use fhsenv::subid::IdRange;

fn triples(plan: &[MapTriple]) -> Vec<(u32, u32, u32)> {
    plan.iter().map(|t| (t.inner, t.outer, t.count)).collect()
}

#[test]
fn identity_only_mapping() {
    // no delegation file: the plan is the identity triple alone
    let ranges: Vec<IdRange> = vec![];
    let plan = build_mapping_plan(&ranges, 1000);
    assert_eq!(triples(&plan), vec![(1000, 1000, 1)]);
}

#[test]
fn identity_only_mapping_gid() {
    let ranges: Vec<IdRange> = vec![];
    let plan = build_mapping_plan(&ranges, 100);
    assert_eq!(triples(&plan), vec![(100, 100, 1)]);
}

#[test]
fn straddling_range() {
    // one delegated range straddles the invoking uid
    let ranges = vec![IdRange { lower: 100000, count: 65536 }];
    let plan = build_mapping_plan(&ranges, 1000);
    assert_eq!(
        triples(&plan),
        vec![(0, 100000, 1000), (1000, 1000, 1), (1001, 101000, 64536)]
    );
}

#[test]
fn straddle_at_zero() {
    // uid 0 splits the range before any delegated id is emitted
    let ranges = vec![IdRange { lower: 100000, count: 10 }];
    let plan = build_mapping_plan(&ranges, 0);
    assert_eq!(triples(&plan), vec![(0, 0, 1), (1, 100000, 10)]);
}

#[test]
fn ranges_below_uid_are_emitted_whole() {
    // delegation exhausted below the uid: identity comes last
    let ranges = vec![IdRange { lower: 100000, count: 500 }];
    let plan = build_mapping_plan(&ranges, 1000);
    assert_eq!(triples(&plan), vec![(0, 100000, 500), (1000, 1000, 1)]);
}

#[test]
fn ranges_after_straddle_stay_contiguous() {
    // inner ids continue past the identity with no overlap
    let ranges = vec![
        IdRange { lower: 100000, count: 1000 },
        IdRange { lower: 200000, count: 1000 },
    ];
    let plan = build_mapping_plan(&ranges, 500);
    assert_eq!(
        triples(&plan),
        vec![
            (0, 100000, 500),
            (500, 500, 1),
            (501, 100500, 500),
            (1001, 200000, 1000),
        ]
    );
    // each triple starts where the previous one ended
    let mut next_inner = 0;
    for (inner, _, count) in triples(&plan) {
        assert_eq!(inner, next_inner);
        next_inner = inner + count;
    }
}

#[test]
fn checked_plan_accepts_ordinary_input() {
    let ranges = vec![IdRange { lower: 100000, count: 65536 }];
    let plan = mapping_plan_checked(&ranges, 1000).unwrap();
    assert_eq!(plan.len(), 3);
}

#[test]
fn checked_plan_rejects_overflowing_range() {
    let ranges = vec![IdRange { lower: u32::MAX, count: 2 }];
    assert!(mapping_plan_checked(&ranges, 1000).is_none());
}

#[test]
fn checked_plan_rejects_total_without_room() {
    let ranges = vec![
        IdRange { lower: 0, count: u32::MAX / 2 },
        IdRange { lower: 0, count: u32::MAX / 2 + 1 },
    ];
    assert!(mapping_plan_checked(&ranges, 1000).is_none());
}

#[test]
fn helper_args_flatten_plan() {
    let plan = vec![
        MapTriple { inner: 0, outer: 100000, count: 1000 },
        MapTriple { inner: 1000, outer: 1000, count: 1 },
    ];
    let args = mapping_helper_args(4242, &plan);
    let got: Vec<&str> = args.iter().map(|s| s.as_str()).collect();
    assert_eq!(got, vec!["4242", "0", "100000", "1000", "1000", "1000", "1"]);
}

#[test]
fn mapper_program_paths() {
    assert_eq!(mapper_program(MappingKind::Uid).as_str(), "/run/wrappers/bin/newuidmap");
    assert_eq!(mapper_program(MappingKind::Gid).as_str(), "/run/wrappers/bin/newgidmap");
}

#[test]
fn subid_file_paths() {
    assert_eq!(subid_file(MappingKind::Uid).as_str(), "/etc/subuid");
    assert_eq!(subid_file(MappingKind::Gid).as_str(), "/etc/subgid");
}
