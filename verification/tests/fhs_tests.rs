use fhsenv::errors::{failure_label, FailureKind};
use fhsenv::fhsdef::{first_invalid_entry, package_definition};
use fhsenv::fhspath::{find_key_with_suffix, find_store_path, is_store_path_with};
use fhsenv::launch::{default_entrypoint, launch_args};

#[test]
fn store_path_grammar() {
    assert!(is_store_path_with(
        "/nix/store/abc123-fhsenv-bwrap.drv",
        "fhsenv",
        "-bwrap.drv"
    ));
    assert!(is_store_path_with(
        "/nix/store/zzz-my-env-fhsenv-rootfs",
        "my-env",
        "-fhsenv-rootfs"
    ));
    // the hash may not be empty or carry a dash
    assert!(!is_store_path_with("/nix/store/-fhsenv-bwrap.drv", "fhsenv", "-bwrap.drv"));
    assert!(!is_store_path_with(
        "/nix/store/ab-cd-fhsenv-bwrap.drv",
        "fhsenv",
        "-bwrap.drv"
    ));
    // the prefix is mandatory
    assert!(!is_store_path_with("/elsewhere/abc-fhsenv-bwrap.drv", "fhsenv", "-bwrap.drv"));
    assert!(!is_store_path_with("", "fhsenv", "-bwrap.drv"));
}

#[test]
fn first_matching_store_path_is_found() {
    let keys = vec![
        "/nix/store/aaa-other-bwrap.drv".to_string(),
        "/nix/store/bbb-fhsenv-bwrap.drv".to_string(),
        "/nix/store/ccc-fhsenv-bwrap.drv".to_string(),
    ];
    let found = find_store_path(&keys, "fhsenv", "-bwrap.drv").unwrap();
    assert_eq!(found.as_str(), "/nix/store/bbb-fhsenv-bwrap.drv");
    assert!(find_store_path(&keys, "missing", "-bwrap.drv").is_none());
}

#[test]
fn rootfs_derivation_is_found_by_suffix() {
    let keys = vec![
        "/nix/store/aaa-unrelated.drv".to_string(),
        "/nix/store/bbb-x-fhsenv-rootfs.drv".to_string(),
    ];
    let found = find_key_with_suffix(&keys, "-fhsenv-rootfs.drv").unwrap();
    assert_eq!(found.as_str(), "/nix/store/bbb-x-fhsenv-rootfs.drv");
    // the suffix alone, with an empty head, is no match
    let bare = vec!["-fhsenv-rootfs.drv".to_string()];
    assert!(find_key_with_suffix(&bare, "-fhsenv-rootfs.drv").is_none());
}

#[test]
fn fhs_top_level_validation() {
    let good = vec!["bin".to_string(), "etc".to_string(), "usr".to_string()];
    assert!(first_invalid_entry(&good).is_none());
    let bad = vec!["bin".to_string(), "home".to_string(), "usr".to_string()];
    assert_eq!(first_invalid_entry(&bad), Some(1));
    assert!(first_invalid_entry(&vec![]).is_none());
}

#[test]
fn package_definition_embeds_each_package() {
    let def = package_definition(&vec!["gcc".to_string(), "gnumake".to_string()]);
    let text = def.as_str();
    assert!(text.contains("(gcc)\n(gnumake)"));
    assert!(text.contains("pkgs.buildFHSUserEnv"));
    assert!(text.contains("name = \"fhsenv\";"));
    assert!(text.trim_end().ends_with("}).env"));
}

#[test]
fn launch_args_with_command() {
    let args = launch_args(Some("make check".to_string()));
    let got: Vec<&str> = args.iter().map(|s| s.as_str()).collect();
    assert_eq!(got, vec!["bash", "-c", "make check"]);
}

#[test]
fn launch_args_default_is_green_prompt_shell() {
    let args = launch_args(None);
    assert_eq!(args.len(), 3);
    assert_eq!(args[0].as_str(), "bash");
    assert_eq!(args[1].as_str(), "-c");
    assert_eq!(args[2].as_str(), default_entrypoint().as_str());
    assert_eq!(
        args[2].as_str(),
        "bash --init-file <(echo \"source ~/.bashrc; export PS1=\\\"\\[\\e[1;32m\\]\\u \\W> \\[\\e[0m\\]\\\"\")"
    );
}

#[test]
fn failure_labels_name_the_stage() {
    assert_eq!(failure_label(FailureKind::Config).as_str(), "invalid configuration");
    assert_eq!(failure_label(FailureKind::ExternalTool).as_str(), "external tool failed");
    assert_eq!(
        failure_label(FailureKind::Filesystem).as_str(),
        "filesystem operation failed"
    );
    assert_eq!(failure_label(FailureKind::Namespace).as_str(), "couldn't enter namespace");
    assert_eq!(failure_label(FailureKind::Pivot).as_str(), "couldn't pivot root");
    assert_eq!(failure_label(FailureKind::Launch).as_str(), "couldn't launch program");
}
