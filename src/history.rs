//! The sync ledger: for each repository, the last commit that was scanned.
use vstd::prelude::*;
use vstd::string::*;
use crate::repository::GithubRepository;

verus! {

/// The ledger as a map from `owner/name` to a commit sha, built from
/// `entries` in order, a later entry for a key replacing an earlier one.
pub open spec fn entries_map(entries: Seq<(String, String)>) -> Map<Seq<char>, Seq<char>>
    decreases entries.len(),
{
    if entries.len() == 0 {
        Map::empty()
    } else {
        entries_map(entries.drop_last()).insert(entries.last().0@, entries.last().1@)
    }
}

/// No two entries share a key.
pub open spec fn unique_keys(entries: Seq<(String, String)>) -> bool {
    forall|i: int, j: int|
        0 <= i < j < entries.len() ==> #[trigger] entries[i].0@ != #[trigger] entries[j].0@
}

proof fn lemma_entries_map(entries: Seq<(String, String)>)
    requires
        unique_keys(entries),
    ensures
        forall|k: Seq<char>|
            #[trigger] entries_map(entries).contains_key(k) <==> exists|i: int|
                0 <= i < entries.len() && #[trigger] entries[i].0@ == k,
        forall|i: int|
            0 <= i < entries.len() ==> entries_map(entries)[#[trigger] entries[i].0@]
                == entries[i].1@,
    decreases entries.len(),
{
    if entries.len() > 0 {
        let init = entries.drop_last();
        lemma_entries_map(init);
        let n = entries.len() - 1;
        assert forall|k: Seq<char>|
            #[trigger] entries_map(entries).contains_key(k) implies exists|i: int|
                0 <= i < entries.len() && #[trigger] entries[i].0@ == k by {
            if k != entries[n].0@ {
                assert(entries_map(init).contains_key(k));
                let i = choose|i: int| 0 <= i < init.len() && #[trigger] init[i].0@ == k;
                assert(init[i] == entries[i]);
                assert(entries[i].0@ == k);
            } else {
                assert(entries[n].0@ == k);
            }
        }
        assert forall|i: int| 0 <= i < entries.len() implies entries_map(entries)[#[trigger] entries[i].0@]
            == entries[i].1@ by {
            if 0 <= i < n {
                assert(init[i] == entries[i]);
                assert(entries[i].0@ != entries[n].0@);
            }
        }
        assert forall|k: Seq<char>|
            (exists|i: int| 0 <= i < entries.len() && #[trigger] entries[i].0@ == k) implies #[trigger] entries_map(
            entries,
        ).contains_key(k) by {
            let i = choose|i: int| 0 <= i < entries.len() && #[trigger] entries[i].0@ == k;
            if i < n {
                assert(init[i] == entries[i]);
            }
        }
    }
}

/// The last-synced commit of each watched repository.
pub struct History {
    repositories: Vec<(String, String)>,
}

impl View for History {
    type V = Map<Seq<char>, Seq<char>>;

    closed spec fn view(&self) -> Map<Seq<char>, Seq<char>> {
        entries_map(self.repositories@)
    }
}

impl History {
    /// The ledger's internal invariant: one entry per repository.
    pub closed spec fn wf(&self) -> bool {
        unique_keys(self.repositories@)
    }

    /// An empty ledger.
    pub fn new() -> (r: Self)
        ensures
            r.wf(),
            r@ == Map::<Seq<char>, Seq<char>>::empty(),
    {
        History { repositories: Vec::new() }
    }

    /// The position of the entry for `uri`.
    fn position(&self, uri: &str) -> (r: Option<usize>)
        requires
            self.wf(),
        ensures
            match r {
                Some(i) => i < self.repositories.len() && self.repositories@[i as int].0@ == uri@,
                None => !self@.contains_key(uri@),
            },
    {
        proof {
            lemma_entries_map(self.repositories@);
        }
        let mut i: usize = 0;
        while i < self.repositories.len()
            invariant
                i <= self.repositories.len(),
                forall|j: int| 0 <= j < i ==> #[trigger] self.repositories@[j].0@ != uri@,
            decreases self.repositories.len() - i,
        {
            if self.repositories[i].0 == uri.to_owned() {
                return Some(i);
            }
            i = i + 1;
        }
        None
    }

    /// Whether the ledger holds an entry for `repo`.
    pub fn has(&self, repo: &GithubRepository) -> (r: bool)
        requires
            self.wf(),
        ensures
            r == self@.contains_key(repo.spec_uri()),
    {
        let uri = repo.uri();
        proof {
            lemma_entries_map(self.repositories@);
        }
        self.position(uri.as_str()).is_some()
    }

    /// Records `hash` as the last-synced commit under the key `uri`.
    fn insert(&mut self, uri: String, hash: String)
        requires
            old(self).wf(),
        ensures
            final(self).wf(),
            final(self)@ == old(self)@.insert(uri@, hash@),
    {
        proof {
            lemma_entries_map(self.repositories@);
        }
        match self.position(uri.as_str()) {
            Some(i) => {
                let ghost before = self.repositories@;
                let ghost key = uri@;
                self.repositories.set(i, (uri, hash));
                proof {
                    let after = self.repositories@;
                    assert(unique_keys(after)) by {
                        assert forall|a: int, b: int|
                            0 <= a < b < after.len() implies #[trigger] after[a].0@
                            != #[trigger] after[b].0@ by {
                            assert(before[a].0@ != before[b].0@);
                        }
                    }
                    lemma_entries_map(after);
                    let m = entries_map(before).insert(key, hash@);
                    assert forall|k: Seq<char>| #[trigger]
                        entries_map(after).contains_key(k) <==> m.contains_key(k) by {
                        if m.contains_key(k) {
                            if k == key {
                                assert(after[i as int].0@ == k);
                            } else {
                                let j = choose|j: int| 0 <= j < before.len() && #[trigger] before[j].0@ == k;
                                assert(after[j].0@ == k);
                            }
                        }
                        if entries_map(after).contains_key(k) {
                            let j = choose|j: int| 0 <= j < after.len() && #[trigger] after[j].0@ == k;
                            assert(before[j].0@ == k);
                        }
                    }
                    assert forall|k: Seq<char>| #[trigger]
                        entries_map(after).contains_key(k) implies entries_map(after)[k] == m[k] by {
                        let j = choose|j: int| 0 <= j < after.len() && #[trigger] after[j].0@ == k;
                        assert(before[j].0@ == k);
                    }
                    assert(entries_map(after) =~= m);
                }
            },
            None => {
                let ghost before = self.repositories@;
                let ghost key = uri@;
                self.repositories.push((uri, hash));
                proof {
                    let after = self.repositories@;
                    assert(after.drop_last() =~= before);
                    assert(unique_keys(after)) by {
                        assert forall|a: int, b: int|
                            0 <= a < b < after.len() implies #[trigger] after[a].0@
                            != #[trigger] after[b].0@ by {
                            if b < before.len() {
                                assert(before[a].0@ != before[b].0@);
                            } else {
                                assert(before[a] == after[a]);
                            }
                        }
                    }
                }
            },
        }
    }

    /// Records `hash` as the last-synced commit of `repo`.
    pub fn add(&mut self, repo: &GithubRepository, hash: String)
        requires
            old(self).wf(),
        ensures
            final(self).wf(),
            final(self)@ == old(self)@.insert(repo.spec_uri(), hash@),
    {
        self.insert(repo.uri(), hash);
    }

    /// The last-synced commit of `repo`; an error naming the repository when
    /// the ledger has no entry for it.
    pub fn find(&self, repo: &GithubRepository) -> (r: Result<String, String>)
        requires
            self.wf(),
        ensures
            self@.contains_key(repo.spec_uri()) ==> r is Ok && r->Ok_0@ == self@[repo.spec_uri()],
            !self@.contains_key(repo.spec_uri()) ==> r is Err && r->Err_0@
                == "No record for the repository "@ + repo.spec_name(),
    {
        let uri = repo.uri();
        proof {
            lemma_entries_map(self.repositories@);
        }
        match self.position(uri.as_str()) {
            Some(i) => Ok(self.repositories[i].1.clone()),
            None => {
                let mut msg = String::from_str("No record for the repository ");
                msg.append(repo.name());
                Err(msg)
            },
        }
    }
}

impl History {
    /// A ledger holding `entries`, a later entry for a key replacing an
    /// earlier one.
    pub fn from_entries(entries: Vec<(String, String)>) -> (r: Self)
        ensures
            r.wf(),
            r@ == entries_map(entries@),
    {
        let mut r = History::new();
        let mut i: usize = 0;
        assert(entries@.take(0) =~= Seq::<(String, String)>::empty());
        while i < entries.len()
            invariant
                i <= entries.len(),
                r.wf(),
                r@ == entries_map(entries@.take(i as int)),
            decreases entries.len() - i,
        {
            r.insert(entries[i].0.clone(), entries[i].1.clone());
            assert(entries@.take(i + 1).drop_last() =~= entries@.take(i as int));
            assert(entries@.take(i + 1).last() == entries@[i as int]);
            i = i + 1;
        }
        assert(entries@.take(i as int) =~= entries@);
        r
    }

    /// The ledger's entries, one per repository.
    pub fn entries(&self) -> (r: Vec<(String, String)>)
        requires
            self.wf(),
        ensures
            entries_map(r@) == self@,
            unique_keys(r@),
    {
        let mut r: Vec<(String, String)> = Vec::new();
        let mut i: usize = 0;
        while i < self.repositories.len()
            invariant
                i <= self.repositories.len(),
                r@ == self.repositories@.take(i as int),
            decreases self.repositories.len() - i,
        {
            let e = (self.repositories[i].0.clone(), self.repositories[i].1.clone());
            r.push(e);
            assert(r@ =~= self.repositories@.take(i + 1));
            i = i + 1;
        }
        assert(r@ =~= self.repositories@);
        r
    }
}

impl Default for History {
    fn default() -> (r: Self)
        ensures
            r.wf(),
            r@ == Map::<Seq<char>, Seq<char>>::empty(),
    {
        History::new()
    }
}

} // verus!
