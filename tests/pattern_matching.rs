use vulngrep::pattern::make_pattern;

#[test]
fn bare_pattern_matches_substring() {
    assert!(vulngrep::pattern::matches("auth", "src/auth/login.go"));
    assert!(vulngrep::pattern::matches("auth", "auth"));
    assert!(vulngrep::pattern::matches("auth", "oauth2"));
    assert!(!vulngrep::pattern::matches("auth", "src/au_th/login.go"));
}

#[test]
fn literal_pattern_needs_contiguous_run() {
    assert!(vulngrep::pattern::matches("abc", "xxabcxx"));
    assert!(!vulngrep::pattern::matches("abd", "xxabcxx"));
    assert!(!vulngrep::pattern::matches("abc", "ab"));
    assert!(!vulngrep::pattern::matches("abc", ""));
}

#[test]
fn empty_pattern_matches_everything() {
    assert!(vulngrep::pattern::matches("", ""));
    assert!(vulngrep::pattern::matches("", "anything"));
}

#[test]
fn glob_pattern_composes_with_wrapping() {
    assert!(vulngrep::pattern::matches("src/*.go", "cmd/src/server/main.go"));
    assert!(vulngrep::pattern::matches("src/*.go", "src/main.gox"));
    assert!(!vulngrep::pattern::matches("src/*.go", "lib/main.go"));
}

#[test]
fn question_mark_matches_one_character() {
    assert!(vulngrep::pattern::matches("a?c", "xxabcxx"));
    assert!(!vulngrep::pattern::matches("a?c", "xxacxx"));
}

#[test]
fn matching_is_case_sensitive() {
    assert!(!vulngrep::pattern::matches("Auth", "src/auth/login.go"));
    assert!(vulngrep::pattern::matches("CVE-", "Fix CVE-2024-0001"));
    assert!(!vulngrep::pattern::matches("cve-", "Fix CVE-2024-0001"));
}

#[test]
fn inclusive_pattern_is_wrapped_in_stars() {
    assert_eq!(make_pattern("auth"), "*auth*");
    assert_eq!(make_pattern(""), "**");
}
