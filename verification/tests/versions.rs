use helix_fork::version::{calver, fork_version, git_output_text, packaged_version, parse_u32};

#[test]
fn decimal_numbers_parse_like_from_str() {
    assert_eq!(parse_u32("7"), Some(7));
    assert_eq!(parse_u32("+42"), Some(42));
    assert_eq!(parse_u32("007"), Some(7));
    assert_eq!(parse_u32("4294967295"), Some(u32::MAX));
    assert_eq!(parse_u32("4294967296"), None);
    assert_eq!(parse_u32("99999999999x"), None);
    assert_eq!(parse_u32(""), None);
    assert_eq!(parse_u32("+"), None);
    assert_eq!(parse_u32("-1"), None);
    assert_eq!(parse_u32(" 1"), None);
    for s in ["0", "12", "+3", "65536", "1x", "x"] {
        assert_eq!(parse_u32(s), s.parse::<u32>().ok(), "{s}");
    }
}

#[test]
fn calendar_versions() {
    assert_eq!(calver("25", "7", "1"), "25.07.1");
    assert_eq!(calver("25", "12", "0"), "25.12.0");
    assert_eq!(calver("24", "x", "3"), "24.00.3");
    assert_eq!(calver("24", "123", "3"), "24.123.3");
}

#[test]
fn versions_from_git() {
    assert_eq!(fork_version("25.07.1", "2026-09-06", "d47f0771"), "25.07.1-20260906-d47f0771");
    assert_eq!(git_output_text("  d47f0771\n"), Some("d47f0771".to_string()));
    assert_eq!(git_output_text(" \n"), None);
    assert_eq!(packaged_version(Some("1.2".to_string())), Some("1.2".to_string()));
    assert_eq!(packaged_version(Some(String::new())), None);
    assert_eq!(packaged_version(None), None);
}
