//! Commits as reported by the commit source, and the matches found in them.
use vstd::prelude::*;

verus! {

/// A file touched by a commit.
pub struct ChangedFile {
    pub filename: String,
    pub additions: u64,
    pub deletions: u64,
    /// The diff text; absent for binary files, large diffs or a degraded fetch.
    pub patch: Option<String>,
}

pub struct ChangedFileView {
    pub filename: Seq<char>,
    pub additions: u64,
    pub deletions: u64,
    pub patch: Option<Seq<char>>,
}

impl View for ChangedFile {
    type V = ChangedFileView;

    open spec fn view(&self) -> ChangedFileView {
        ChangedFileView {
            filename: self.filename@,
            additions: self.additions,
            deletions: self.deletions,
            patch: self.patch.deep_view(),
        }
    }
}

impl Clone for ChangedFile {
    fn clone(&self) -> (r: Self)
        ensures
            r@ == self@,
    {
        ChangedFile {
            filename: self.filename.clone(),
            additions: self.additions,
            deletions: self.deletions,
            patch: match &self.patch {
                Some(p) => Some(p.clone()),
                None => None,
            },
        }
    }
}

/// A commit of the watched repository.
pub struct Commit {
    pub sha: String,
    pub message: String,
    pub author: Option<String>,
    pub html_url: String,
    /// The changed files; absent when the source gave no file-level detail.
    pub files: Option<Vec<ChangedFile>>,
}

pub struct CommitView {
    pub sha: Seq<char>,
    pub message: Seq<char>,
    pub author: Option<Seq<char>>,
    pub html_url: Seq<char>,
    pub files: Option<Seq<ChangedFileView>>,
}

/// The views of a sequence of changed files.
pub open spec fn file_views(fs: Seq<ChangedFile>) -> Seq<ChangedFileView> {
    fs.map_values(|f: ChangedFile| f@)
}

impl View for Commit {
    type V = CommitView;

    open spec fn view(&self) -> CommitView {
        CommitView {
            sha: self.sha@,
            message: self.message@,
            author: self.author.deep_view(),
            html_url: self.html_url@,
            files: match &self.files {
                Some(fs) => Some(file_views(fs@)),
                None => None,
            },
        }
    }
}

fn clone_files(fs: &Vec<ChangedFile>) -> (r: Vec<ChangedFile>)
    ensures
        file_views(r@) == file_views(fs@),
{
    let mut r: Vec<ChangedFile> = Vec::new();
    let mut i: usize = 0;
    while i < fs.len()
        invariant
            i <= fs.len(),
            file_views(r@) =~= file_views(fs@.take(i as int)),
        decreases fs.len() - i,
    {
        r.push(fs[i].clone());
        i = i + 1;
        assert(file_views(fs@.take(i as int)) =~= file_views(fs@.take(i - 1)).push(fs@[i - 1]@));
    }
    assert(fs@.take(fs.len() as int) =~= fs@);
    r
}

impl Clone for Commit {
    fn clone(&self) -> (r: Self)
        ensures
            r@ == self@,
    {
        Commit {
            sha: self.sha.clone(),
            message: self.message.clone(),
            author: match &self.author {
                Some(a) => Some(a.clone()),
                None => None,
            },
            html_url: self.html_url.clone(),
            files: match &self.files {
                Some(fs) => Some(clone_files(fs)),
                None => None,
            },
        }
    }
}

/// The precedence tier at which a commit was found of interest.
#[derive(PartialEq, Eq, Structural, Clone, Copy, Debug)]
pub enum MatchTier {
    Message,
    File,
}

/// One finding: a commit, the tier that decided it, the file for a
/// file-tier finding, and the patterns that matched.
pub struct MatchResult {
    pub commit: Commit,
    pub matched_at: MatchTier,
    pub file: Option<ChangedFile>,
    pub patterns_matched: Vec<String>,
}

pub struct MatchView {
    pub commit: CommitView,
    pub matched_at: MatchTier,
    pub file: Option<ChangedFileView>,
    pub patterns_matched: Seq<Seq<char>>,
}

impl View for MatchResult {
    type V = MatchView;

    open spec fn view(&self) -> MatchView {
        MatchView {
            commit: self.commit@,
            matched_at: self.matched_at,
            file: match &self.file {
                Some(f) => Some(f@),
                None => None,
            },
            patterns_matched: self.patterns_matched.deep_view(),
        }
    }
}

/// The views of a sequence of findings.
pub open spec fn match_views(ms: Seq<MatchResult>) -> Seq<MatchView> {
    ms.map_values(|m: MatchResult| m@)
}

} // verus!
