//! The state of a source repository, as a compact status string, and the
//! discovery of the repository that holds a directory.
use vstd::prelude::*;
use crate::error::GenError;
use crate::json::str_eq;

verus! {

#[verifier::external_type_specification]
#[verifier::external_body]
pub struct ExRepository(gix::Repository);

#[verifier::external_type_specification]
#[verifier::external_body]
pub struct ExGixError(gix::Error);

#[verifier::external_type_specification]
#[verifier::external_body]
pub struct ExCommit<'repo>(gix::Commit<'repo>);

#[verifier::external_type_specification]
#[verifier::external_body]
pub struct ExReference<'repo>(gix::Reference<'repo>);

#[verifier::external_type_specification]
#[verifier::external_body]
pub struct ExHead<'repo>(gix::Head<'repo>);

/// The head of a repository that has at least one commit.
#[derive(Debug)]
pub struct CommitState {
    /// The abbreviated id of the head commit.
    pub short_id: String,
    /// The short name of the checked-out branch; `None` when the head is
    /// detached.
    pub branch: Option<String>,
    /// Whether the working tree differs from the head commit.
    pub dirty: bool,
}

impl View for CommitState {
    type V = (Seq<char>, Option<Seq<char>>, bool);

    open spec fn view(&self) -> (Seq<char>, Option<Seq<char>>, bool) {
        (self.short_id@, match self.branch {
            Some(b) => Some(b@),
            None => None,
        }, self.dirty)
    }
}

/// The status string: `NoCommitFound` without a commit, else
/// `<id>(<branch or detached>)`, followed by `-dirty` for a dirty tree.
pub open spec fn status_spec(head: Option<(Seq<char>, Option<Seq<char>>, bool)>) -> Seq<char> {
    match head {
        None => "NoCommitFound"@,
        Some((id, branch, dirty)) => id + "("@ + (match branch {
            Some(b) => b,
            None => "detached"@,
        }) + ")"@ + (if dirty { "-dirty"@ } else { Seq::empty() }),
    }
}

/// Renders the status string of a repository head.
pub fn render_status(head: &Option<CommitState>) -> (r: String)
    ensures
        r@ == status_spec(match head {
            Some(c) => Some(c@),
            None => None,
        }),
{
    match head {
        None => String::from_str("NoCommitFound"),
        Some(c) => {
            let mut s = c.short_id.clone();
            s.append("(");
            match &c.branch {
                Some(b) => s.append(b.as_str()),
                None => s.append("detached"),
            }
            s.append(")");
            if c.dirty {
                s.append("-dirty");
            }
            s
        },
    }
}

/// Relies on `gix::open`: opens the repository whose work tree or git
/// directory is `root`.
#[verifier::external_body]
fn open_repository(root: &str) -> (r: Result<gix::Repository, gix::Error>) {
    gix::open(root)
}

/// Relies on `Repository::head`: the repository's `HEAD`.
#[verifier::external_body]
fn head(repo: &gix::Repository) -> (r: Result<gix::Head<'_>, gix::Error>) {
    repo.head()
}

/// Relies on `Head::is_unborn`: whether `HEAD` names a branch that has no
/// commit yet, as in a repository without commits.
#[verifier::external_body]
fn head_is_unborn(head: &gix::Head<'_>) -> (r: bool) {
    head.is_unborn()
}

/// Relies on `Repository::head_commit`: the commit `HEAD` leads to.
#[verifier::external_body]
fn head_commit(repo: &gix::Repository) -> (r: Result<gix::Commit<'_>, gix::Error>) {
    repo.head_commit()
}

/// Relies on `Commit::short_id`: the commit's abbreviated id.
#[verifier::external_body]
fn short_id(commit: &gix::Commit<'_>) -> (r: Result<String, gix::Error>) {
    commit.short_id().map(|p| p.to_string())
}

/// Relies on `Repository::head_ref`: the reference the head points to,
/// `None` when the head is detached.
#[verifier::external_body]
fn head_ref(repo: &gix::Repository) -> (r: Result<Option<gix::Reference<'_>>, gix::Error>) {
    repo.head_ref()
}

/// Relies on `FullName::shorten`: the reference's name without its
/// well-known prefix (`refs/heads/`, ...).
#[verifier::external_body]
fn short_name(reference: &gix::Reference<'_>) -> (r: String) {
    reference.name().shorten().to_string()
}

/// Relies on `Repository::is_dirty`: whether the index or the work tree
/// differ from the head commit.
#[verifier::external_body]
fn worktree_is_dirty(repo: &gix::Repository) -> (r: Result<bool, gix::Error>) {
    repo.is_dirty()
}

/// The status string of the repository at `repo_root`. What it holds
/// depends on the repository on disk; whatever that is, a success is the
/// rendering of some head state, and a failure is a repository error.
pub fn git_status(repo_root: &str) -> (r: Result<String, GenError>)
    ensures
        r matches Ok(s) ==> exists|h: Option<(Seq<char>, Option<Seq<char>>, bool)>| s@ == status_spec(h),
        r matches Err(e) ==> e is Repository,
{
    let repo = match open_repository(repo_root) {
        Ok(repo) => repo,
        Err(error) => return Err(GenError::Repository { source: error }),
    };
    let current = match head(&repo) {
        Ok(h) => h,
        Err(error) => return Err(GenError::Repository { source: error }),
    };
    let state = if head_is_unborn(&current) {
        None
    } else {
        match head_commit(&repo) {
            Err(error) => return Err(GenError::Repository { source: error }),
            Ok(commit) => {
                let short_id = match short_id(&commit) {
                    Ok(id) => id,
                    Err(error) => return Err(GenError::Repository { source: error }),
                };
                let branch = match head_ref(&repo) {
                    Ok(Some(reference)) => Some(short_name(&reference)),
                    Ok(None) => None,
                    Err(error) => return Err(GenError::Repository { source: error }),
                };
                let dirty = match worktree_is_dirty(&repo) {
                    Ok(d) => d,
                    Err(error) => return Err(GenError::Repository { source: error }),
                };
                Some(CommitState { short_id, branch, dirty })
            },
        }
    };
    let s = render_status(&state);
    Ok(s)
}

/// Whether a directory entry is the repository marker: a directory named
/// `.git`.
pub fn is_marker_entry(name: &str, is_dir: bool) -> (r: bool)
    ensures
        r == (is_dir && name@ == ".git"@),
{
    is_dir && str_eq(name, ".git")
}

/// The repository root among `checked`, the ancestors of a starting
/// directory from nearest to farthest, each paired with whether it holds the
/// marker: the first that does, or `NoRepository` when none does.
pub fn discover_root(checked: &Vec<(String, bool)>) -> (r: Result<String, GenError>)
    ensures
        (forall|i: int| 0 <= i < checked@.len() ==> !(#[trigger] checked@[i]).1) ==> r matches Err(GenError::NoRepository),
        (exists|i: int| 0 <= i < checked@.len() && (#[trigger] checked@[i]).1) ==> (r matches Ok(p) && exists|i: int|
            0 <= i < checked@.len() && checked@[i].1 && p@ == checked@[i].0@
            && forall|j: int| 0 <= j < i ==> !(#[trigger] checked@[j]).1),
{
    let mut i: usize = 0;
    while i < checked.len()
        invariant
            i <= checked@.len(),
            forall|j: int| 0 <= j < i ==> !(#[trigger] checked@[j]).1,
        decreases checked.len() - i,
    {
        if checked[i].1 {
            let p = checked[i].0.clone();
            return Ok(p);
        }
        i = i + 1;
    }
    Err(GenError::NoRepository)
}

} // verus!
