//! `anigit commit -m <message> [--amend]`: turning the staged entry into a
//! commit. History stays append-only: an amend writes a new commit that
//! takes the old tip's place (same parents), it never rewrites the old one.
use vstd::prelude::*;

use crate::model::{is_commit_id, ref_key, CatalogRef, Changes, Commit, CommitAction, StagedEntry};
use crate::repo::{reflog_reason_text, strings_view};
use crate::text::owned;

verus! {

/// Why a commit cannot be made.
#[derive(Debug, Clone, PartialEq, Eq)]
pub enum CommitError {
    /// Nothing is staged: run `anigit add` first.
    NothingStaged,
    /// `--amend` on a branch without commits.
    NothingToAmend { branch: String },
}

fn copy_ref(r: &CatalogRef) -> (c: CatalogRef)
    ensures
        ref_key(c) == ref_key(*r),
{
    CatalogRef { source: owned(r.source.as_str()), id: r.id }
}

fn copy_ids(v: &Vec<String>) -> (c: Vec<String>)
    ensures
        strings_view(c@) == strings_view(v@),
{
    let mut c: Vec<String> = Vec::new();
    let mut i: usize = 0;
    while i < v.len()
        invariant
            i <= v@.len(),
            c@.len() == i,
            strings_view(c@) == strings_view(v@.subrange(0, i as int)),
        decreases v@.len() - i,
    {
        let ghost prev = c@;
        c.push(owned(v[i].as_str()));
        proof {
            let sv = strings_view(c@);
            let tv = strings_view(v@.subrange(0, i + 1));
            assert forall|k: int| 0 <= k < sv.len() implies sv[k] == tv[k] by {
                if k < i {
                    assert(c@[k] == prev[k]);
                    assert(strings_view(prev)[k] == strings_view(v@.subrange(0, i as int))[k]);
                }
            }
            assert(sv =~= tv);
        }
        i = i + 1;
    }
    assert(v@.subrange(0, v@.len() as int) =~= v@);
    c
}

/// Record the staged entry as a commit on `branch`, whose head is `head`.
///
/// A plain commit needs something staged and chains onto the head (no
/// parent for a branch's first commit). An amend needs a head commit
/// `head_commit` and replaces it sideways: the new commit takes the head's
/// parents, records what is staged (or, with nothing staged, the head's own
/// entry and changes again) under the new message.
pub fn run(
    staged: Option<StagedEntry>,
    branch: &str,
    head: Option<String>,
    head_commit: Option<Commit>,
    message: &str,
    amend: bool,
) -> (r: Result<Commit, CommitError>)
    requires
        amend && head is Some ==> head_commit is Some,
    ensures
        !amend && staged is None ==> r == Err::<Commit, CommitError>(CommitError::NothingStaged),
        amend && head is None ==> (r matches Err(CommitError::NothingToAmend { branch: b }) && b@ == branch@),
        r matches Ok(c) ==> {
            &&& is_commit_id(c.id@)
            &&& c.branch@ == branch@
            &&& c.message@ == message@
            &&& c.action == CommitAction::Commit
            &&& c.metadata@.len() == 0
        },
        !amend && staged is Some ==> (r matches Ok(c) && {
            &&& ref_key(c.catalog_ref) == ref_key(staged->0.catalog_ref)
            &&& c.changes == staged->0.changes
            &&& strings_view(c.parent_ids@) == match head {
                Some(h) => seq![h@],
                None => Seq::<Seq<char>>::empty(),
            }
        }),
        amend && head is Some ==> (r matches Ok(c) && {
            &&& strings_view(c.parent_ids@) == strings_view(head_commit->0.parent_ids@)
            &&& staged matches Some(s) ==> ref_key(c.catalog_ref) == ref_key(s.catalog_ref) && c.changes == s.changes
            &&& staged is None ==> ref_key(c.catalog_ref) == ref_key(head_commit->0.catalog_ref) && c.changes == head_commit->0.changes
        }),
{
    if !amend {
        let s = match staged {
            Some(s) => s,
            None => {
                return Err(CommitError::NothingStaged);
            },
        };
        let mut parents: Vec<String> = Vec::new();
        match head {
            Some(h) => {
                parents.push(h);
                proof {
                    assert(strings_view(parents@) =~= seq![parents@[0]@]);
                }
            },
            None => {
                proof {
                    assert(strings_view(parents@) =~= Seq::<Seq<char>>::empty());
                }
            },
        }
        return Ok(Commit::new(parents, owned(branch), s.catalog_ref, s.changes, owned(message)));
    }
    if head.is_none() {
        return Err(CommitError::NothingToAmend { branch: owned(branch) });
    }
    let old = match head_commit {
        Some(c) => c,
        None => {
            return Err(CommitError::NothingToAmend { branch: owned(branch) });
        },
    };
    let parents = copy_ids(&old.parent_ids);
    let (cref, changes) = match staged {
        Some(s) => (s.catalog_ref, s.changes),
        None => (copy_ref(&old.catalog_ref), old.changes),
    };
    Ok(Commit::new(parents, owned(branch), cref, changes, owned(message)))
}

/// A plain commit onto an existing head is logged as `commit`; an amend
/// (whose new commit does not descend from the head it replaces) is
/// logged as `amend`.
pub proof fn law_commit_reflog_reasons(c: Commit, head: Seq<char>, amend: bool)
    requires
        c.action == CommitAction::Commit,
        !amend ==> strings_view(c.parent_ids@) == seq![head],
        amend ==> !strings_view(c.parent_ids@).contains(head),
    ensures
        !amend ==> reflog_reason_text(c.action, Some(head), strings_view(c.parent_ids@)) == "commit"@,
        amend ==> reflog_reason_text(c.action, Some(head), strings_view(c.parent_ids@)) == "amend"@,
{
    if !amend {
        assert(seq![head][0] == head);
        assert(seq![head].contains(head));
    }
}

} // verus!
