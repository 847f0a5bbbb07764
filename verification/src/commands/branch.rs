//! Branch and tag operations: creating, switching, deleting branches and
//! placing tags, decided from what the repository currently holds.
use vstd::prelude::*;

use crate::repo::{valid_ref_name, validate_ref_name, RepoError};
use crate::text::owned;

verus! {

/// What a new branch's ref file starts with.
#[derive(Debug, Clone)]
pub enum NewBranch {
    /// A copy of the current branch's head commit (logged as "branch created").
    At(String),
    /// An empty ref: the current branch has no commits yet, so nothing moved.
    Empty,
}

/// Create branch `name` from the current branch, whose head is
/// `current_head`: the name must be a valid ref name and not taken.
pub fn create_branch(name: &str, exists: bool, current_head: Option<String>) -> (r: Result<NewBranch, RepoError>)
    ensures
        !valid_ref_name(name@) ==> (r matches Err(RepoError::InvalidRefName { kind, name: n }) && kind@ == "branch"@ && n@ == name@),
        valid_ref_name(name@) && exists ==> (r matches Err(RepoError::BranchExists { name: n }) && n@ == name@),
        valid_ref_name(name@) && !exists ==> match current_head {
            Some(h) => r matches Ok(NewBranch::At(c)) && c@ == h@,
            None => r matches Ok(NewBranch::Empty),
        },
{
    validate_ref_name(name, "branch")?;
    if exists {
        return Err(RepoError::BranchExists { name: owned(name) });
    }
    match current_head {
        Some(h) => Ok(NewBranch::At(h)),
        None => Ok(NewBranch::Empty),
    }
}

/// What `checkout`/`switch` does once any requested branch exists.
#[derive(Debug, Clone, Copy, PartialEq, Eq)]
pub enum Checkout {
    /// Already on that branch: nothing to do.
    AlreadyOn,
    /// Point HEAD at the branch.
    Switch,
}

/// `anigit checkout [-b] <branch>` once any `-b` creation is done: a
/// missing branch is an error; the current branch needs nothing; any other
/// becomes current.
pub fn checkout(branch: &str, exists: bool, current: &str) -> (r: Result<Checkout, RepoError>)
    ensures
        !exists ==> (r matches Err(RepoError::NoSuchBranch { name }) && name@ == branch@),
        exists && current@ == branch@ ==> r == Ok::<Checkout, RepoError>(Checkout::AlreadyOn),
        exists && current@ != branch@ ==> r == Ok::<Checkout, RepoError>(Checkout::Switch),
{
    if !exists {
        return Err(RepoError::NoSuchBranch { name: owned(branch) });
    }
    if crate::catalog::str_eq(current, branch) {
        Ok(Checkout::AlreadyOn)
    } else {
        Ok(Checkout::Switch)
    }
}

/// Why a tag cannot be placed.
#[derive(Debug, Clone, PartialEq, Eq)]
pub enum TagError {
    /// The current branch has no commit to tag.
    NoCommits { branch: String },
    Repo(RepoError),
}

/// `anigit tag <name>`: tag the current branch's head commit. Tags are
/// permanent markers, so an existing tag is never overwritten.
pub fn create_tag(name: &str, branch: &str, head: Option<String>, exists: bool) -> (r: Result<String, TagError>)
    ensures
        head is None ==> (r matches Err(TagError::NoCommits { branch: b }) && b@ == branch@),
        head is Some && !valid_ref_name(name@) ==> (r matches Err(TagError::Repo(RepoError::InvalidRefName { kind, name: n }))
            && kind@ == "tag"@ && n@ == name@),
        head is Some && valid_ref_name(name@) && exists ==> (r matches Err(TagError::Repo(RepoError::TagExists { name: n })) && n@ == name@),
        head is Some && valid_ref_name(name@) && !exists ==> (r matches Ok(c) && c@ == head->0@),
{
    let h = match head {
        Some(h) => h,
        None => {
            return Err(TagError::NoCommits { branch: owned(branch) });
        },
    };
    match validate_ref_name(name, "tag") {
        Ok(()) => {},
        Err(e) => {
            return Err(TagError::Repo(e));
        },
    }
    if exists {
        return Err(TagError::Repo(RepoError::TagExists { name: owned(name) }));
    }
    Ok(h)
}

/// Why a branch cannot be deleted.
#[derive(Debug, Clone, PartialEq, Eq)]
pub enum DeleteError {
    NoSuchBranch { name: String },
    /// The checked-out branch cannot be deleted.
    CurrentBranch { name: String },
    /// Some commit of the branch is on no other branch; `-D` forces it.
    NotFullyMerged { name: String },
}

/// `id` is on one of the histories `others`.
pub open spec fn on_some_history(others: Seq<Seq<Seq<char>>>, id: Seq<char>) -> bool {
    exists|b: int| 0 <= b < others.len() && #[trigger] others[b].contains(id)
}

/// Every id of `ids` occurs among `others`.
pub open spec fn all_reachable(ids: Seq<Seq<char>>, others: Seq<Seq<Seq<char>>>) -> bool {
    forall|i: int| 0 <= i < ids.len() ==> on_some_history(others, #[trigger] ids[i])
}

/// The histories, each as the ids it holds.
pub open spec fn histories_view(v: Seq<Vec<String>>) -> Seq<Seq<Seq<char>>> {
    v.map_values(|h: Vec<String>| crate::repo::strings_view(h@))
}

fn contains_str(v: &Vec<String>, s: &String) -> (r: bool)
    ensures
        r == crate::repo::strings_view(v@).contains(s@),
{
    let mut i: usize = 0;
    while i < v.len()
        invariant
            i <= v@.len(),
            forall|k: int| 0 <= k < i ==> v@[k]@ != s@,
        decreases v@.len() - i,
    {
        if v[i] == *s {
            assert(crate::repo::strings_view(v@)[i as int] == s@);
            return true;
        }
        i = i + 1;
    }
    proof {
        if crate::repo::strings_view(v@).contains(s@) {
            let k = choose|k: int| 0 <= k < v@.len() && crate::repo::strings_view(v@)[k] == s@;
            assert(v@[k]@ == s@);
        }
    }
    false
}

fn on_other_history(other_ids: &Vec<Vec<String>>, id: &String) -> (r: bool)
    ensures
        r == on_some_history(histories_view(other_ids@), id@),
{
    let ghost others = histories_view(other_ids@);
    let mut b: usize = 0;
    while b < other_ids.len()
        invariant
            b <= other_ids@.len(),
            others == histories_view(other_ids@),
            forall|m: int| 0 <= m < b ==> !(#[trigger] others[m]).contains(id@),
        decreases other_ids@.len() - b,
    {
        proof {
            assert(others[b as int] == crate::repo::strings_view(other_ids@[b as int]@));
        }
        if contains_str(&other_ids[b], id) {
            return true;
        }
        b = b + 1;
    }
    false
}

/// `anigit branch -d|-D <name>`: the branch must exist and not be checked
/// out; without `force`, every commit on its history (`branch_ids`) must
/// also be on some other branch's history (`other_ids`), so that nothing
/// becomes unreachable.
pub fn delete_branch(
    name: &str,
    branch_exists: bool,
    current: &str,
    branch_ids: &Vec<String>,
    other_ids: &Vec<Vec<String>>,
    force: bool,
) -> (r: Result<(), DeleteError>)
    ensures
        !branch_exists ==> (r matches Err(DeleteError::NoSuchBranch { name: n }) && n@ == name@),
        branch_exists && current@ == name@ ==> (r matches Err(DeleteError::CurrentBranch { name: n }) && n@ == name@),
        branch_exists && current@ != name@ && force ==> r is Ok,
        branch_exists && current@ != name@ && !force ==> (r is Ok <==> all_reachable(
            crate::repo::strings_view(branch_ids@),
            histories_view(other_ids@),
        )),
        r is Err && branch_exists && current@ != name@ ==> (r matches Err(DeleteError::NotFullyMerged { name: n }) && n@ == name@),
{
    if !branch_exists {
        return Err(DeleteError::NoSuchBranch { name: owned(name) });
    }
    if crate::catalog::str_eq(current, name) {
        return Err(DeleteError::CurrentBranch { name: owned(name) });
    }
    if force {
        return Ok(());
    }
    let ghost ids = crate::repo::strings_view(branch_ids@);
    let ghost others = histories_view(other_ids@);
    let mut i: usize = 0;
    while i < branch_ids.len()
        invariant
            i <= branch_ids@.len(),
            branch_exists,
            current@ != name@,
            !force,
            ids == crate::repo::strings_view(branch_ids@),
            others == histories_view(other_ids@),
            forall|k: int| 0 <= k < i ==> on_some_history(others, #[trigger] ids[k]),
        decreases branch_ids@.len() - i,
    {
        proof {
            assert(ids[i as int] == branch_ids@[i as int]@);
        }
        if !on_other_history(other_ids, &branch_ids[i]) {
            proof {
                assert(!on_some_history(others, ids[i as int]));
            }
            return Err(DeleteError::NotFullyMerged { name: owned(name) });
        }
        i = i + 1;
    }
    Ok(())
}

} // verus!
