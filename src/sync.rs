//! The sync engine: one incremental pass over a repository, from the head
//! commit to the last-synced one, with the ledger advanced on success.
//!
//! The commit source is asked by the caller; the decisions live here. A pass
//! is `start_pass` on the head commit, then, when there are new commits, a
//! `CommitPull` fed page by page, then `finish_pass` on what it collected.
use vstd::prelude::*;
use crate::commit::{match_views, Commit, CommitView, MatchResult, MatchView};
use crate::config::{Notification, NotificationView};
use crate::evaluate::{evaluate, evaluation};
use crate::history::History;
use crate::repository::{GithubRepository, GithubRepositoryError};

verus! {

/// How many commits one page of the listing asks for.
pub const PAGE_SIZE: u8 = 5;

/// The views of a sequence of commits.
pub open spec fn commit_views(cs: Seq<Commit>) -> Seq<CommitView> {
    cs.map_values(|c: Commit| c@)
}

/// The commits of a newest-first `listing` that come before the first one
/// whose sha is `boundary`; `None` when no commit of the listing has it.
pub open spec fn list_until(listing: Seq<CommitView>, boundary: Seq<char>) -> Option<
    Seq<CommitView>,
>
    decreases listing.len(),
{
    if listing.len() == 0 {
        None
    } else if listing[0].sha == boundary {
        Some(Seq::empty())
    } else {
        match list_until(listing.drop_first(), boundary) {
            Some(rest) => Some(seq![listing[0]] + rest),
            None => None,
        }
    }
}

/// The ledger after a pull that found `cs`: the newest of them, if any,
/// becomes the last-synced commit.
pub open spec fn advance(
    ledger: Map<Seq<char>, Seq<char>>,
    uri: Seq<char>,
    cs: Seq<CommitView>,
) -> Map<Seq<char>, Seq<char>> {
    if cs.len() > 0 {
        ledger.insert(uri, cs[0].sha)
    } else {
        ledger
    }
}

/// The findings of `rule` on each of `cs`, in order.
pub open spec fn evaluate_all(rule: NotificationView, cs: Seq<CommitView>) -> Seq<MatchView>
    decreases cs.len(),
{
    if cs.len() == 0 {
        Seq::empty()
    } else {
        evaluate_all(rule, cs.drop_last()) + evaluation(rule, cs.last())
    }
}

/// One whole pass of `rule` over repository `uri`, whose head commit has sha
/// `head` and whose newest-first history is `listing`: the ledger after the
/// pass, and its findings, or `None` when the last-synced commit is not in
/// the listing.
pub open spec fn sync_pass(
    ledger: Map<Seq<char>, Seq<char>>,
    uri: Seq<char>,
    head: Seq<char>,
    listing: Seq<CommitView>,
    rule: NotificationView,
) -> (Map<Seq<char>, Seq<char>>, Option<Seq<MatchView>>) {
    if !ledger.contains_key(uri) {
        (ledger.insert(uri, head), Some(Seq::empty()))
    } else if ledger[uri] == head {
        (ledger, Some(Seq::empty()))
    } else {
        match list_until(listing, ledger[uri]) {
            None => (ledger, None),
            Some(cs) => (advance(ledger, uri, cs), Some(evaluate_all(rule, cs))),
        }
    }
}

/// The head commit: the first of a listing of the repository's newest
/// commits; an error when the repository has no commit to list.
pub fn head_of_listing(page: Vec<Commit>) -> (r: Result<Commit, GithubRepositoryError>)
    ensures
        page.len() > 0 ==> r is Ok && r->Ok_0@ == page@[0]@,
        page.len() == 0 ==> r == Err::<Commit, GithubRepositoryError>(
            GithubRepositoryError::FetchCommitsFailed,
        ),
{
    if page.len() == 0 {
        Err(GithubRepositoryError::FetchCommitsFailed)
    } else {
        Ok(page[0].clone())
    }
}

/// What a pass does after seeing the head commit.
pub enum PassStart {
    /// The repository was new to the ledger; its head is now the baseline.
    FirstContact,
    /// The head is the last-synced commit: nothing new.
    UpToDate,
    /// New commits: pull them, down to this last-synced sha.
    Pull(String),
}

/// Starts a pass of `repo` whose head commit has sha `head_sha`.
pub fn start_pass(history: &mut History, repo: &GithubRepository, head_sha: &str) -> (r: PassStart)
    requires
        old(history).wf(),
    ensures
        final(history).wf(),
        !old(history)@.contains_key(repo.spec_uri()) ==> r is FirstContact && final(history)@
            == old(history)@.insert(repo.spec_uri(), head_sha@),
        old(history)@.contains_key(repo.spec_uri()) ==> final(history)@ == old(history)@,
        old(history)@.contains_key(repo.spec_uri()) && old(history)@[repo.spec_uri()]
            == head_sha@ ==> r is UpToDate,
        old(history)@.contains_key(repo.spec_uri()) && old(history)@[repo.spec_uri()]
            != head_sha@ ==> r is Pull && r->Pull_0@ == old(history)@[repo.spec_uri()],
{
    if !history.has(repo) {
        history.add(repo, head_sha.to_owned());
        return PassStart::FirstContact;
    }
    match history.find(repo) {
        Ok(last) => {
            if last == head_sha.to_owned() {
                PassStart::UpToDate
            } else {
                PassStart::Pull(last)
            }
        },
        Err(_) => PassStart::UpToDate,
    }
}

/// No commit of `cs` has sha `boundary`.
pub open spec fn misses(cs: Seq<CommitView>, boundary: Seq<char>) -> bool {
    forall|i: int| 0 <= i < cs.len() ==> #[trigger] cs[i].sha != boundary
}

proof fn lemma_list_until_missing(cs: Seq<CommitView>, boundary: Seq<char>)
    requires
        misses(cs, boundary),
    ensures
        list_until(cs, boundary) is None,
    decreases cs.len(),
{
    if cs.len() > 0 {
        assert(cs[0].sha != boundary);
        assert forall|i: int| 0 <= i < cs.drop_first().len() implies #[trigger] cs.drop_first()[i].sha
            != boundary by {
            assert(cs.drop_first()[i] == cs[i + 1]);
        }
        lemma_list_until_missing(cs.drop_first(), boundary);
    }
}

proof fn lemma_list_until_found(cs: Seq<CommitView>, boundary: Seq<char>, j: int)
    requires
        0 <= j < cs.len(),
        misses(cs.take(j), boundary),
        cs[j].sha == boundary,
    ensures
        list_until(cs, boundary) == Some(cs.take(j)),
    decreases j,
{
    if j == 0 {
        assert(cs.take(0) =~= Seq::<CommitView>::empty());
    } else {
        assert(cs.take(j)[0] == cs[0]);
        let rest = cs.drop_first();
        assert forall|i: int| 0 <= i < rest.take(j - 1).len() implies #[trigger] rest.take(j - 1)[i].sha
            != boundary by {
            assert(rest.take(j - 1)[i] == cs.take(j)[i + 1]);
        }
        lemma_list_until_found(rest, boundary, j - 1);
        assert(seq![cs[0]] + rest.take(j - 1) =~= cs.take(j));
    }
}

proof fn lemma_list_until_append(a: Seq<CommitView>, c: Seq<CommitView>, boundary: Seq<char>)
    requires
        misses(a, boundary),
    ensures
        list_until(a + c, boundary) == match list_until(c, boundary) {
            Some(r) => Some(a + r),
            None => None::<Seq<CommitView>>,
        },
    decreases a.len(),
{
    if a.len() == 0 {
        assert(a + c =~= c);
        if let Some(r) = list_until(c, boundary) {
            assert(a + r =~= r);
        }
    } else {
        assert(a[0].sha != boundary);
        let rest = a.drop_first();
        assert forall|i: int| 0 <= i < rest.len() implies #[trigger] rest[i].sha != boundary by {
            assert(rest[i] == a[i + 1]);
        }
        lemma_list_until_append(rest, c, boundary);
        assert((a + c).drop_first() =~= rest + c);
        assert((a + c)[0] == a[0]);
        if let Some(r) = list_until(c, boundary) {
            assert(seq![a[0]] + (rest + r) =~= a + r);
        }
    }
}

/// Pages after the one that holds the boundary never change what the pull
/// returns: a listing may be cut short once the boundary is found.
pub proof fn lemma_list_until_ignores_later_pages(
    seen: Seq<CommitView>,
    later: Seq<CommitView>,
    boundary: Seq<char>,
)
    requires
        list_until(seen, boundary) is Some,
    ensures
        list_until(seen + later, boundary) == list_until(seen, boundary),
    decreases seen.len(),
{
    assert((seen + later)[0] == seen[0]);
    if seen[0].sha != boundary {
        assert((seen + later).drop_first() =~= seen.drop_first() + later);
        lemma_list_until_ignores_later_pages(seen.drop_first(), later, boundary);
    }
}

/// What a pull asks for after a page.
pub enum PullStep {
    /// Fetch this page next.
    NextPage(u32),
    /// The boundary was found: the collected commits are the new ones.
    Complete,
    /// The listing ran out without the boundary: history was rewritten.
    Unresolvable,
}

/// A pull of the commits newer than a boundary sha, fed one page of the
/// newest-first listing at a time.
pub struct CommitPull {
    boundary: String,
    commits: Vec<Commit>,
    page: u32,
    done: bool,
    fed: Ghost<Seq<CommitView>>,
}

impl CommitPull {
    pub closed spec fn spec_boundary(&self) -> Seq<char> {
        self.boundary@
    }

    /// Every commit fed so far, in listing order.
    pub closed spec fn fed(&self) -> Seq<CommitView> {
        self.fed@
    }

    /// The new commits collected so far.
    pub closed spec fn collected(&self) -> Seq<CommitView> {
        commit_views(self.commits@)
    }

    pub closed spec fn spec_page(&self) -> u32 {
        self.page
    }

    pub closed spec fn is_done(&self) -> bool {
        self.done
    }

    /// Until the pull is done, everything fed was collected and none of it
    /// is the boundary.
    pub closed spec fn wf(&self) -> bool {
        !self.done ==> self.collected() == self.fed() && misses(self.fed(), self.boundary@)
    }

    /// A pull down to `boundary`, starting at the first page.
    pub fn new(boundary: String) -> (r: Self)
        ensures
            r.wf(),
            !r.is_done(),
            r.spec_boundary() == boundary@,
            r.fed() == Seq::<CommitView>::empty(),
            r.spec_page() == 1,
    {
        let r = CommitPull {
            boundary,
            commits: Vec::new(),
            page: 1,
            done: false,
            fed: Ghost(Seq::empty()),
        };
        assert(r.collected() =~= Seq::<CommitView>::empty());
        r
    }

    /// The page to fetch next.
    pub fn page(&self) -> (r: u32)
        ensures
            r == self.spec_page(),
    {
        self.page
    }

    /// Takes the next page of the listing (empty once the listing is over).
    pub fn feed(&mut self, page: Vec<Commit>) -> (r: PullStep)
        requires
            old(self).wf(),
            !old(self).is_done(),
        ensures
            final(self).wf(),
            final(self).spec_boundary() == old(self).spec_boundary(),
            final(self).fed() == old(self).fed() + commit_views(page@),
            (r is Complete) == (page.len() > 0 && list_until(
                final(self).fed(),
                old(self).spec_boundary(),
            ) is Some),
            r is Complete ==> final(self).is_done() && final(self).collected() == list_until(
                final(self).fed(),
                old(self).spec_boundary(),
            )->Some_0,
            !(r is Complete) ==> list_until(final(self).fed(), old(self).spec_boundary()) is None,
            (r is NextPage) == (page.len() > 0 && list_until(
                final(self).fed(),
                old(self).spec_boundary(),
            ) is None && old(self).spec_page() < u32::MAX),
            r is NextPage ==> !final(self).is_done() && r->NextPage_0 == final(self).spec_page()
                && final(self).spec_page() == old(self).spec_page() + 1,
            r is Unresolvable ==> final(self).is_done(),
    {
        let ghost old_fed = self.fed@;
        let ghost pv = commit_views(page@);
        proof {
            lemma_list_until_missing(old_fed, self.boundary@);
        }
        if page.len() == 0 {
            self.done = true;
            assert(old_fed + pv =~= old_fed);
            return PullStep::Unresolvable;
        }
        self.fed = Ghost(old_fed + pv);
        let mut j: usize = 0;
        assert(pv.take(0) =~= Seq::<CommitView>::empty());
        assert(old_fed + pv.take(0) =~= old_fed);
        while j < page.len()
            invariant
                j <= page.len(),
                pv == commit_views(page@),
                misses(old_fed, self.boundary@),
                misses(pv.take(j as int), self.boundary@),
                commit_views(self.commits@) == old_fed + pv.take(j as int),
                self.fed@ == old_fed + pv,
                !self.done,
                self.boundary == old(self).boundary,
                self.page == old(self).page,
                old_fed == old(self).fed@,
            decreases page.len() - j,
        {
            assert(pv[j as int] == page@[j as int]@);
            if page[j].sha == self.boundary {
                proof {
                    lemma_list_until_found(pv, self.boundary@, j as int);
                    lemma_list_until_append(old_fed, pv, self.boundary@);
                }
                self.done = true;
                return PullStep::Complete;
            }
            let ghost before = self.commits@;
            self.commits.push(page[j].clone());
            proof {
                assert(commit_views(self.commits@) =~= commit_views(before).push(page@[j as int]@));
                assert(pv.take(j + 1) =~= pv.take(j as int).push(pv[j as int]));
                assert forall|i: int| 0 <= i < pv.take(j + 1).len() implies #[trigger] pv.take(j + 1)[i].sha
                    != self.boundary@ by {
                    if i < j {
                        assert(pv.take(j + 1)[i] == pv.take(j as int)[i]);
                    }
                }
            }
            j = j + 1;
        }
        proof {
            assert(pv.take(j as int) =~= pv);
            assert forall|i: int| 0 <= i < (old_fed + pv).len() implies #[trigger] (old_fed + pv)[i].sha
                != self.boundary@ by {
                if i < old_fed.len() {
                    assert((old_fed + pv)[i] == old_fed[i]);
                } else {
                    assert((old_fed + pv)[i] == pv[i - old_fed.len()]);
                }
            }
            lemma_list_until_missing(old_fed + pv, self.boundary@);
        }
        if self.page < u32::MAX {
            self.page = self.page + 1;
            PullStep::NextPage(self.page)
        } else {
            self.done = true;
            PullStep::Unresolvable
        }
    }

    /// The commits collected, newest first.
    pub fn into_commits(self) -> (r: Vec<Commit>)
        ensures
            commit_views(r@) == self.collected(),
    {
        self.commits
    }
}

/// Ends a pass whose pull found `commits`, newest first: the newest becomes
/// the last-synced commit of `repo` before any of them is evaluated, and the
/// findings of `rule` on each are returned in order.
pub fn finish_pass(
    history: &mut History,
    repo: &GithubRepository,
    rule: &Notification,
    commits: &Vec<Commit>,
) -> (r: Vec<MatchResult>)
    requires
        old(history).wf(),
    ensures
        final(history).wf(),
        final(history)@ == advance(old(history)@, repo.spec_uri(), commit_views(commits@)),
        match_views(r@) == evaluate_all(rule@, commit_views(commits@)),
{
    if commits.len() > 0 {
        history.add(repo, commits[0].sha.clone());
    }
    let ghost cv = commit_views(commits@);
    let mut r: Vec<MatchResult> = Vec::new();
    let mut i: usize = 0;
    assert(cv.take(0) =~= Seq::<CommitView>::empty());
    while i < commits.len()
        invariant
            i <= commits.len(),
            cv == commit_views(commits@),
            match_views(r@) == evaluate_all(rule@, cv.take(i as int)),
        decreases commits.len() - i,
    {
        let found = evaluate(rule, &commits[i]);
        let ghost before = r@;
        let mut k: usize = 0;
        assert(found@.take(0) =~= Seq::<MatchResult>::empty());
        while k < found.len()
            invariant
                k <= found.len(),
                match_views(r@) == match_views(before) + match_views(found@.take(k as int)),
            decreases found.len() - k,
        {
            let m = MatchResult {
                commit: found[k].commit.clone(),
                matched_at: found[k].matched_at,
                file: match &found[k].file {
                    Some(f) => Some(f.clone()),
                    None => None,
                },
                patterns_matched: found[k].patterns_matched.clone(),
            };
            assert(m.patterns_matched.deep_view() =~= found[k as int].patterns_matched.deep_view());
            assert(m@ == found@[k as int]@);
            let ghost prev = r@;
            r.push(m);
            assert(match_views(r@) =~= match_views(prev).push(found@[k as int]@));
            assert(found@.take(k + 1) =~= found@.take(k as int).push(found@[k as int]));
            assert(match_views(r@) =~= match_views(before) + match_views(found@.take(k + 1)));
            k = k + 1;
        }
        assert(found@.take(k as int) =~= found@);
        assert(cv.take(i + 1).drop_last() =~= cv.take(i as int));
        assert(cv.take(i + 1).last() == commits@[i as int]@);
        i = i + 1;
    }
    assert(cv.take(i as int) =~= cv);
    r
}

/// First contact: a pass over a repository the ledger does not know finds
/// nothing and records the head commit as the baseline.
pub proof fn lemma_first_contact(
    ledger: Map<Seq<char>, Seq<char>>,
    uri: Seq<char>,
    head: Seq<char>,
    listing: Seq<CommitView>,
    rule: NotificationView,
)
    requires
        !ledger.contains_key(uri),
    ensures
        sync_pass(ledger, uri, head, listing, rule) == (
        ledger.insert(uri, head),
        Some(Seq::<MatchView>::empty()),
        ),
{
}

/// Idempotence: when nothing is new upstream (the repository is new to the
/// ledger, or its head is the last-synced commit), a pass finds nothing, and
/// a second pass right after it finds nothing and leaves the ledger as the
/// first one left it. When the listing starts at the head, as the commit
/// source lists it, a second pass after any successful pass is idle.
pub proof fn lemma_second_pass_idle(
    ledger: Map<Seq<char>, Seq<char>>,
    uri: Seq<char>,
    head: Seq<char>,
    listing: Seq<CommitView>,
    rule: NotificationView,
)
    ensures
        (!ledger.contains_key(uri) || ledger[uri] == head) ==> sync_pass(
            ledger,
            uri,
            head,
            listing,
            rule,
        ).1 == Some(Seq::<MatchView>::empty()),
        (!ledger.contains_key(uri) || ledger[uri] == head) ==> sync_pass(
            sync_pass(ledger, uri, head, listing, rule).0,
            uri,
            head,
            listing,
            rule,
        ) == (sync_pass(ledger, uri, head, listing, rule).0, Some(Seq::<MatchView>::empty())),
        (listing.len() > 0 && listing[0].sha == head && sync_pass(
            ledger,
            uri,
            head,
            listing,
            rule,
        ).1 is Some) ==> sync_pass(
            sync_pass(ledger, uri, head, listing, rule).0,
            uri,
            head,
            listing,
            rule,
        ) == (sync_pass(ledger, uri, head, listing, rule).0, Some(Seq::<MatchView>::empty())),
{
    if ledger.contains_key(uri) && ledger[uri] != head && listing.len() > 0 && listing[0].sha
        == head {
        let b = ledger[uri];
        if let Some(cs) = list_until(listing, b) {
            assert(listing[0].sha != b);
            assert(cs[0] == listing[0]);
        }
    }
}

/// Monotonic advance: a successful pass that pulls new commits leaves the
/// newest of them, the first of the listing, as the last-synced commit,
/// whatever its findings.
pub proof fn lemma_advance_to_newest(
    ledger: Map<Seq<char>, Seq<char>>,
    uri: Seq<char>,
    head: Seq<char>,
    listing: Seq<CommitView>,
    rule: NotificationView,
)
    requires
        ledger.contains_key(uri),
        ledger[uri] != head,
        list_until(listing, ledger[uri]) is Some,
        list_until(listing, ledger[uri])->Some_0.len() > 0,
    ensures
        sync_pass(ledger, uri, head, listing, rule).0 == ledger.insert(uri, listing[0].sha),
        sync_pass(ledger, uri, head, listing, rule).0[uri] == list_until(
            listing,
            ledger[uri],
        )->Some_0[0].sha,
{
    let cs = list_until(listing, ledger[uri])->Some_0;
    assert(listing[0].sha != ledger[uri]);
    assert(cs[0] == listing[0]);
}

/// Unresolvable boundary: when the listing runs out without the last-synced
/// commit, the pass fails with no findings and the ledger unchanged.
pub proof fn lemma_unresolvable_boundary(
    ledger: Map<Seq<char>, Seq<char>>,
    uri: Seq<char>,
    head: Seq<char>,
    listing: Seq<CommitView>,
    rule: NotificationView,
)
    requires
        ledger.contains_key(uri),
        ledger[uri] != head,
        misses(listing, ledger[uri]),
    ensures
        sync_pass(ledger, uri, head, listing, rule) == (ledger, None::<Seq<MatchView>>),
{
    lemma_list_until_missing(listing, ledger[uri]);
}

} // verus!
