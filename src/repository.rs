//! The identity of a watched repository and the errors of the commit source.
use vstd::prelude::*;
use vstd::string::*;

verus! {

/// Errors of the commit source, as the sync engine sees them.
#[derive(PartialEq, Eq, Structural, Clone, Copy, Debug)]
pub enum GithubRepositoryError {
    /// The client could not be built.
    InitializationFailed,
    /// The credentials were refused.
    InvalidToken,
    /// The repository does not exist or cannot be reached.
    InvalidRepository,
    /// A listing of commits failed.
    FetchCommitsFailed,
    /// The last-synced commit is no longer in the repository's history.
    InvalidCommitHash,
}

impl GithubRepositoryError {
    /// Whether the error ends the whole watch session rather than one rule's pass.
    pub open spec fn spec_is_fatal(self) -> bool {
        self is InitializationFailed || self is InvalidToken
    }

    /// Whether the error ends the whole watch session; any other error only
    /// skips the current rule for this cycle.
    pub fn is_fatal(&self) -> (r: bool)
        ensures
            r == self.spec_is_fatal(),
    {
        match self {
            GithubRepositoryError::InitializationFailed => true,
            GithubRepositoryError::InvalidToken => true,
            _ => false,
        }
    }
}

/// `owner/name`, the key of a repository in the sync ledger.
pub open spec fn uri_of(owner: Seq<char>, name: Seq<char>) -> Seq<char> {
    owner + seq!['/'] + name
}

/// A watched repository, identified by owner and name.
pub struct GithubRepository {
    owner: String,
    name: String,
}

impl GithubRepository {
    pub closed spec fn spec_owner(&self) -> Seq<char> {
        self.owner@
    }

    pub closed spec fn spec_name(&self) -> Seq<char> {
        self.name@
    }

    /// The ledger key of this repository.
    pub open spec fn spec_uri(&self) -> Seq<char> {
        uri_of(self.spec_owner(), self.spec_name())
    }

    pub fn new(owner: &str, name: &str) -> (r: Self)
        ensures
            r.spec_owner() == owner@,
            r.spec_name() == name@,
    {
        GithubRepository { owner: owner.to_owned(), name: name.to_owned() }
    }

    /// The repository owner.
    pub fn owner(&self) -> (r: &str)
        ensures
            r@ == self.spec_owner(),
    {
        self.owner.as_str()
    }

    /// The repository name.
    pub fn name(&self) -> (r: &str)
        ensures
            r@ == self.spec_name(),
    {
        self.name.as_str()
    }

    /// `owner/name`.
    pub fn uri(&self) -> (r: String)
        ensures
            r@ == self.spec_uri(),
    {
        let slash = "/";
        proof {
            reveal_strlit("/");
        }
        let mut r = self.owner.clone();
        r.append(slash);
        r.append(self.name.as_str());
        r
    }
}

} // verus!
