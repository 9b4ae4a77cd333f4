use vulngrep::commit::{ChangedFile, Commit, MatchTier};
use vulngrep::config::{File, Notification, Repository};
use vulngrep::history::History;
use vulngrep::repository::{GithubRepository, GithubRepositoryError};
use vulngrep::sync::{finish_pass, head_of_listing, start_pass, CommitPull, PassStart, PullStep, PAGE_SIZE};

fn commit(sha: &str, message: &str, file: &str) -> Commit {
    Commit {
        sha: sha.to_string(),
        message: message.to_string(),
        author: None,
        html_url: format!("https://example.com/{}", sha),
        files: Some(vec![ChangedFile {
            filename: file.to_string(),
            additions: 1,
            deletions: 0,
            patch: Some("+line".to_string()),
        }]),
    }
}

fn rule() -> Notification {
    Notification::new(
        Repository { name: "repo".to_string(), owner: "me".to_string() },
        vec![File { path: "auth".to_string(), pattern: None }],
        Some(vec!["CVE-".to_string()]),
    )
}

fn repo() -> GithubRepository {
    GithubRepository::new("me", "repo")
}

fn sha_in_ledger(h: &History) -> Result<String, String> {
    h.find(&repo())
}

#[test]
fn first_contact_sets_baseline() {
    let mut h = History::new();
    let start = start_pass(&mut h, &repo(), "head1");
    assert!(matches!(start, PassStart::FirstContact));
    assert!(h.has(&repo()));
    assert_eq!(sha_in_ledger(&h), Ok("head1".to_string()));
}

#[test]
fn second_pass_without_new_commits_is_idle() {
    let mut h = History::new();
    assert!(matches!(start_pass(&mut h, &repo(), "head1"), PassStart::FirstContact));
    assert!(matches!(start_pass(&mut h, &repo(), "head1"), PassStart::UpToDate));
    assert_eq!(sha_in_ledger(&h), Ok("head1".to_string()));
    assert!(matches!(start_pass(&mut h, &repo(), "head1"), PassStart::UpToDate));
    assert_eq!(h.entries().len(), 1);
}

#[test]
fn new_head_asks_for_pull_down_to_last_sync() {
    let mut h = History::new();
    h.add(&repo(), "old".to_string());
    match start_pass(&mut h, &repo(), "new") {
        PassStart::Pull(boundary) => assert_eq!(boundary, "old"),
        _ => panic!("expected a pull"),
    }
    assert_eq!(sha_in_ledger(&h), Ok("old".to_string()));
}

#[test]
fn pull_stops_at_boundary_across_pages() {
    let mut pull = CommitPull::new("c0".to_string());
    assert_eq!(pull.page(), 1);
    let step = pull.feed(vec![commit("c4", "a", "x"), commit("c3", "b", "y")]);
    assert!(matches!(step, PullStep::NextPage(2)));
    assert_eq!(pull.page(), 2);
    let step = pull.feed(vec![commit("c2", "c", "z"), commit("c0", "d", "w"), commit("cx", "e", "v")]);
    assert!(matches!(step, PullStep::Complete));
    let shas: Vec<String> = pull.into_commits().into_iter().map(|c| c.sha).collect();
    assert_eq!(shas, vec!["c4".to_string(), "c3".to_string(), "c2".to_string()]);
}

#[test]
fn boundary_first_in_listing_yields_no_commits() {
    let mut pull = CommitPull::new("c0".to_string());
    let step = pull.feed(vec![commit("c0", "a", "x")]);
    assert!(matches!(step, PullStep::Complete));
    assert!(pull.into_commits().is_empty());
}

#[test]
fn scenario_unresolvable_boundary() {
    let mut h = History::new();
    h.add(&repo(), "gone".to_string());
    let boundary = match start_pass(&mut h, &repo(), "c2") {
        PassStart::Pull(b) => b,
        _ => panic!("expected a pull"),
    };
    let mut pull = CommitPull::new(boundary);
    assert!(matches!(
        pull.feed(vec![commit("c2", "Fix CVE-1", "auth/a"), commit("c1", "b", "y")]),
        PullStep::NextPage(2)
    ));
    assert!(matches!(pull.feed(vec![]), PullStep::Unresolvable));
    assert_eq!(sha_in_ledger(&h), Ok("gone".to_string()));
}

#[test]
fn finish_pass_advances_to_newest_and_evaluates() {
    let mut h = History::new();
    h.add(&repo(), "c0".to_string());
    let commits = vec![
        commit("c3", "docs", "README.md"),
        commit("c2", "Fix CVE-2024-0001", "src/main.rs"),
        commit("c1", "login", "src/auth/login.go"),
    ];
    let found = finish_pass(&mut h, &repo(), &rule(), &commits);
    assert_eq!(sha_in_ledger(&h), Ok("c3".to_string()));
    assert_eq!(found.len(), 2);
    assert_eq!(found[0].commit.sha, "c2");
    assert_eq!(found[0].matched_at, MatchTier::Message);
    assert_eq!(found[1].commit.sha, "c1");
    assert_eq!(found[1].matched_at, MatchTier::File);
}

#[test]
fn ledger_advances_without_findings() {
    let mut h = History::new();
    h.add(&repo(), "c0".to_string());
    let commits = vec![commit("c2", "docs", "README.md"), commit("c1", "more docs", "a.md")];
    let found = finish_pass(&mut h, &repo(), &rule(), &commits);
    assert!(found.is_empty());
    assert_eq!(sha_in_ledger(&h), Ok("c2".to_string()));
    assert!(matches!(start_pass(&mut h, &repo(), "c2"), PassStart::UpToDate));
}

#[test]
fn finish_pass_with_no_commits_leaves_ledger() {
    let mut h = History::new();
    h.add(&repo(), "c0".to_string());
    let found = finish_pass(&mut h, &repo(), &rule(), &vec![]);
    assert!(found.is_empty());
    assert_eq!(sha_in_ledger(&h), Ok("c0".to_string()));
}

#[test]
fn head_is_first_of_listing() {
    let head = head_of_listing(vec![commit("c9", "a", "x"), commit("c8", "b", "y")]).unwrap();
    assert_eq!(head.sha, "c9");
    assert!(matches!(head_of_listing(vec![]), Err(GithubRepositoryError::FetchCommitsFailed)));
    assert_eq!(PAGE_SIZE, 5);
}

#[test]
fn ledger_find_missing_repository() {
    let h = History::default();
    assert!(!h.has(&repo()));
    assert_eq!(sha_in_ledger(&h), Err("No record for the repository repo".to_string()));
}

#[test]
fn ledger_entries_round_trip() {
    let h = History::from_entries(vec![
        ("me/repo".to_string(), "a".to_string()),
        ("you/other".to_string(), "b".to_string()),
        ("me/repo".to_string(), "c".to_string()),
    ]);
    assert_eq!(sha_in_ledger(&h), Ok("c".to_string()));
    let mut entries = h.entries();
    entries.sort();
    assert_eq!(
        entries,
        vec![
            ("me/repo".to_string(), "c".to_string()),
            ("you/other".to_string(), "b".to_string()),
        ]
    );
    let other = GithubRepository::new("you", "other");
    assert_eq!(h.find(&other), Ok("b".to_string()));
}

#[test]
fn repository_identity() {
    let r = GithubRepository::new("rust-lang", "rust");
    assert_eq!(r.owner(), "rust-lang");
    assert_eq!(r.name(), "rust");
    assert_eq!(r.uri(), "rust-lang/rust");
}

#[test]
fn fatal_errors() {
    assert!(GithubRepositoryError::InvalidToken.is_fatal());
    assert!(GithubRepositoryError::InitializationFailed.is_fatal());
    assert!(!GithubRepositoryError::InvalidRepository.is_fatal());
    assert!(!GithubRepositoryError::FetchCommitsFailed.is_fatal());
    assert!(!GithubRepositoryError::InvalidCommitHash.is_fatal());
}
