use fhsenv::strutil::{
    contains_name, ends_with_str, parse_u32, split_str, starts_with_str, trim_str, u32_to_string,
};

#[test]
fn parse_u32_accepts_digits() {
    assert_eq!(parse_u32("0"), Some(0));
    assert_eq!(parse_u32("100000"), Some(100000));
    assert_eq!(parse_u32("4294967295"), Some(u32::MAX));
}

#[test]
fn parse_u32_rejects_bad_input() {
    assert_eq!(parse_u32(""), None);
    assert_eq!(parse_u32("12a"), None);
    assert_eq!(parse_u32("-5"), None);
    assert_eq!(parse_u32("+5"), None);
    assert_eq!(parse_u32(" 5"), None);
    assert_eq!(parse_u32("4294967296"), None);
}

#[test]
fn decimal_rendering() {
    assert_eq!(u32_to_string(0).as_str(), "0");
    assert_eq!(u32_to_string(7).as_str(), "7");
    assert_eq!(u32_to_string(100000).as_str(), "100000");
    assert_eq!(u32_to_string(u32::MAX).as_str(), "4294967295");
}

#[test]
fn decimal_round_trip() {
    // printing then parsing gives the number back
    for n in [0u32, 9, 10, 999, 100000, u32::MAX] {
        assert_eq!(parse_u32(u32_to_string(n).as_str()), Some(n));
    }
}

#[test]
fn split_on_colon() {
    let pieces: Vec<String> = split_str("alice:100000:65536", ':');
    assert_eq!(pieces, vec!["alice", "100000", "65536"]);
}

#[test]
fn split_keeps_empty_pieces() {
    assert_eq!(split_str("", ':'), vec![""]);
    assert_eq!(split_str(":", ':'), vec!["", ""]);
    assert_eq!(split_str("a::b", ':'), vec!["a", "", "b"]);
    assert_eq!(split_str("line\n", '\n'), vec!["line", ""]);
}

#[test]
fn affix_checks() {
    assert!(starts_with_str("/nix/store/abc", "/nix/store/"));
    assert!(!starts_with_str("/nix/stor", "/nix/store/"));
    assert!(ends_with_str("x-fhsenv-rootfs.drv", "-fhsenv-rootfs.drv"));
    assert!(!ends_with_str("x-fhsenv-rootfs", "-fhsenv-rootfs.drv"));
}

#[test]
fn trim_strips_surrounding_whitespace() {
    assert_eq!(trim_str("  /nix/store/x \n").as_str(), "/nix/store/x");
    assert_eq!(trim_str("\t\r\n ").as_str(), "");
    assert_eq!(trim_str("inner space stays").as_str(), "inner space stays");
    assert_eq!(trim_str("").as_str(), "");
}

#[test]
fn name_lookup() {
    let names = vec!["bin".to_string(), "usr".to_string()];
    assert!(contains_name(&names, &"bin".to_string()));
    assert!(!contains_name(&names, &"etc".to_string()));
}
