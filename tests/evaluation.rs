use vulngrep::commit::{ChangedFile, Commit, MatchTier};
use vulngrep::config::{File, Notification, Repository};
use vulngrep::evaluate::evaluate;

fn repo() -> Repository {
    Repository { name: "repo".to_string(), owner: "me".to_string() }
}

fn rule(files: Vec<File>, patterns: Option<Vec<&str>>) -> Notification {
    Notification::new(
        repo(),
        files,
        patterns.map(|ps| ps.into_iter().map(|p| p.to_string()).collect()),
    )
}

fn file_rule(path: &str, patterns: Option<Vec<&str>>) -> File {
    File {
        path: path.to_string(),
        pattern: patterns.map(|ps| ps.into_iter().map(|p| p.to_string()).collect()),
    }
}

fn changed(name: &str, patch: Option<&str>) -> ChangedFile {
    ChangedFile {
        filename: name.to_string(),
        additions: 3,
        deletions: 1,
        patch: patch.map(|p| p.to_string()),
    }
}

fn commit(message: &str, files: Option<Vec<ChangedFile>>) -> Commit {
    Commit {
        sha: "abc123".to_string(),
        message: message.to_string(),
        author: Some("octocat".to_string()),
        html_url: "https://example.com/commit/abc123".to_string(),
        files,
    }
}

#[test]
fn scenario_path_only_rule() {
    let r = rule(vec![file_rule("auth", None)], None);
    let c = commit("Refactor login", Some(vec![changed("src/auth/login.go", Some("+x"))]));
    let found = evaluate(&r, &c);
    assert_eq!(found.len(), 1);
    assert_eq!(found[0].matched_at, MatchTier::File);
    assert!(found[0].patterns_matched.is_empty());
    assert_eq!(found[0].file.as_ref().unwrap().filename, "src/auth/login.go");
    assert_eq!(found[0].commit.sha, "abc123");
}

#[test]
fn scenario_content_pattern() {
    let r = rule(vec![file_rule("config", Some(vec!["timeout"]))], None);
    let c = commit(
        "Tune settings",
        Some(vec![changed("config/app.yaml", Some("+session_timeout=30"))]),
    );
    let found = evaluate(&r, &c);
    assert_eq!(found.len(), 1);
    assert_eq!(found[0].matched_at, MatchTier::File);
    assert_eq!(found[0].patterns_matched, vec!["timeout".to_string()]);
}

#[test]
fn scenario_message_pattern() {
    let r = rule(vec![file_rule("src", None)], Some(vec!["CVE-"]));
    let c = commit("Fix CVE-2024-0001", Some(vec![changed("src/main.rs", Some("+fix"))]));
    let found = evaluate(&r, &c);
    assert_eq!(found.len(), 1);
    assert_eq!(found[0].matched_at, MatchTier::Message);
    assert!(found[0].file.is_none());
    assert_eq!(found[0].patterns_matched, vec!["CVE-".to_string()]);
    assert_eq!(found[0].commit.message, "Fix CVE-2024-0001");
}

#[test]
fn message_tier_reports_first_matching_pattern_only() {
    let r = rule(vec![], Some(vec!["nothing", "Fix", "CVE-"]));
    let c = commit("Fix CVE-2024-0001", None);
    let found = evaluate(&r, &c);
    assert_eq!(found.len(), 1);
    assert_eq!(found[0].patterns_matched, vec!["Fix".to_string()]);
}

#[test]
fn message_match_suppresses_file_tier() {
    let r = rule(
        vec![file_rule("a", None), file_rule("b", Some(vec!["x"]))],
        Some(vec!["security"]),
    );
    let c = commit(
        "security fix",
        Some(vec![changed("a.txt", Some("x")), changed("b.txt", Some("x"))]),
    );
    let found = evaluate(&r, &c);
    assert_eq!(found.len(), 1);
    assert!(found.iter().all(|m| m.matched_at == MatchTier::Message));
}

#[test]
fn commit_without_files_yields_nothing_without_message_hit() {
    let r = rule(vec![file_rule("auth", None)], Some(vec!["CVE-"]));
    let c = commit("Refactor", None);
    assert!(evaluate(&r, &c).is_empty());
}

#[test]
fn unmatched_path_rule_does_not_stop_later_rules() {
    let r = rule(vec![file_rule("docs", None), file_rule("auth", None)], None);
    let c = commit("Refactor", Some(vec![changed("src/auth/login.go", None)]));
    let found = evaluate(&r, &c);
    assert_eq!(found.len(), 1);
    assert!(found[0].patterns_matched.is_empty());
}

#[test]
fn content_rule_without_patch_falls_through() {
    let r = rule(
        vec![file_rule("config", Some(vec!["timeout"])), file_rule("app", None)],
        None,
    );
    let c = commit("Tune", Some(vec![changed("config/app.yaml", None)]));
    let found = evaluate(&r, &c);
    assert_eq!(found.len(), 1);
    assert!(found[0].patterns_matched.is_empty());

    let only_content = rule(vec![file_rule("config", Some(vec!["timeout"]))], None);
    assert!(evaluate(&only_content, &c).is_empty());
}

#[test]
fn content_rule_without_hit_falls_through() {
    let r = rule(
        vec![file_rule("config", Some(vec!["retry"])), file_rule("config", None)],
        None,
    );
    let c = commit("Tune", Some(vec![changed("config/app.yaml", Some("+timeout=3"))]));
    let found = evaluate(&r, &c);
    assert_eq!(found.len(), 1);
    assert!(found[0].patterns_matched.is_empty());
}

#[test]
fn content_patterns_include_message_patterns_after_file_patterns() {
    let r = rule(
        vec![file_rule("config", Some(vec!["timeout", "absent", "session"]))],
        Some(vec!["CVE-", "30"]),
    );
    let c = commit("Tune", Some(vec![changed("config/app.yaml", Some("+session_timeout=30"))]));
    let found = evaluate(&r, &c);
    assert_eq!(found.len(), 1);
    assert_eq!(
        found[0].patterns_matched,
        vec!["timeout".to_string(), "session".to_string(), "30".to_string()]
    );
}

#[test]
fn first_matching_path_rule_wins_per_file() {
    let r = rule(
        vec![file_rule("src", Some(vec!["unsafe"])), file_rule("src", None)],
        None,
    );
    let c = commit("Change", Some(vec![changed("src/lib.rs", Some("+unsafe { }"))]));
    let found = evaluate(&r, &c);
    assert_eq!(found.len(), 1);
    assert_eq!(found[0].patterns_matched, vec!["unsafe".to_string()]);
}

#[test]
fn one_finding_per_claimed_file_in_order() {
    let r = rule(vec![file_rule("auth", None)], None);
    let c = commit(
        "Change",
        Some(vec![
            changed("auth/a.go", None),
            changed("README.md", None),
            changed("auth/b.go", None),
        ]),
    );
    let found = evaluate(&r, &c);
    assert_eq!(found.len(), 2);
    assert_eq!(found[0].file.as_ref().unwrap().filename, "auth/a.go");
    assert_eq!(found[1].file.as_ref().unwrap().filename, "auth/b.go");
    assert_eq!(found[1].file.as_ref().unwrap().additions, 3);
    assert_eq!(found[1].file.as_ref().unwrap().deletions, 1);
}

#[test]
fn no_rules_no_findings() {
    let r = rule(vec![], None);
    let c = commit("Fix CVE-1", Some(vec![changed("a", Some("b"))]));
    assert!(evaluate(&r, &c).is_empty());
}

#[test]
fn pattern_in_both_lists_is_reported_once() {
    let r = rule(
        vec![file_rule("config", Some(vec!["timeout"]))],
        Some(vec!["timeout", "session"]),
    );
    let c = commit("Tune", Some(vec![changed("config/app.yaml", Some("+session_timeout=30"))]));
    let found = evaluate(&r, &c);
    assert_eq!(found.len(), 1);
    assert_eq!(
        found[0].patterns_matched,
        vec!["timeout".to_string(), "session".to_string()]
    );
}
