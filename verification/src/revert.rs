//! `anigit revert`: the safe undo. A new commit restores, for each field the
//! target commit set, the value that field had before the target (taken
//! from the target's own first-parent ancestry), skipping fields the target
//! was first to set and fields already back at that value.
use vstd::prelude::*;

use crate::model::{
    is_commit_id, metadata_keys_distinct, no_changes, ref_key, CatalogRef, Changes, Commit,
    CommitAction, MetaValue,
};
use crate::render::{field_name, field_value, field_value_text, or_unset, lines_view};
use crate::replay::{key_view, lookup, net_changes, replay, commit_key, EntryKey};
use crate::repo::short_id;
use crate::text::{owned, push_str, push_string};

verus! {

/// Field `i` is set in `c`.
pub open spec fn field_set(c: Changes, i: int) -> bool {
    if i == 0 {
        c.status is Some
    } else if i == 1 {
        c.episode_progress is Some
    } else if i == 2 {
        c.score is Some
    } else {
        c.rewatch_count is Some
    }
}

/// Field `i` holds the same value in `a` and `b`.
pub open spec fn field_same(a: Changes, b: Changes, i: int) -> bool {
    if i == 0 {
        a.status == b.status
    } else if i == 1 {
        a.episode_progress == b.episode_progress
    } else if i == 2 {
        a.score == b.score
    } else {
        a.rewatch_count == b.rewatch_count
    }
}

/// `dst` with field `i` taken from `src`.
pub open spec fn with_field(dst: Changes, src: Changes, i: int) -> Changes {
    if i == 0 {
        Changes { status: src.status, ..dst }
    } else if i == 1 {
        Changes { episode_progress: src.episode_progress, ..dst }
    } else if i == 2 {
        Changes { score: src.score, ..dst }
    } else {
        Changes { rewatch_count: src.rewatch_count, ..dst }
    }
}

pub(crate) fn is_set(c: &Changes, i: usize) -> (r: bool)
    requires
        i < 4,
    ensures
        r == field_set(*c, i as int),
{
    if i == 0 {
        c.status.is_some()
    } else if i == 1 {
        c.episode_progress.is_some()
    } else if i == 2 {
        c.score.is_some()
    } else {
        c.rewatch_count.is_some()
    }
}

fn same(a: &Changes, b: &Changes, i: usize) -> (r: bool)
    requires
        i < 4,
    ensures
        r == field_same(*a, *b, i as int),
{
    if i == 0 {
        a.status == b.status
    } else if i == 1 {
        a.episode_progress == b.episode_progress
    } else if i == 2 {
        a.score == b.score
    } else {
        a.rewatch_count == b.rewatch_count
    }
}

fn take_field(dst: &mut Changes, src: &Changes, i: usize)
    requires
        i < 4,
    ensures
        *final(dst) == with_field(*old(dst), *src, i as int),
{
    if i == 0 {
        dst.status = src.status;
    } else if i == 1 {
        dst.episode_progress = src.episode_progress;
    } else if i == 2 {
        dst.score = src.score;
    } else {
        dst.rewatch_count = src.rewatch_count;
    }
}

/// What happens to field `i` in a revert.
pub enum FieldFate {
    /// The target did not set it: nothing to revert.
    Untouched,
    /// The target was first to set it: it cannot be un-set.
    FirstSet,
    /// It is already back at its prior value.
    AlreadyBack,
    /// It is restored to its prior value.
    Restored,
}

/// The fate of field `i`, given what the target set, the field's values
/// before the target, and the branch's current state.
pub open spec fn fate(target: Changes, prior: Changes, current: Changes, i: int) -> FieldFate {
    if !field_set(target, i) {
        FieldFate::Untouched
    } else if !field_set(prior, i) {
        FieldFate::FirstSet
    } else if field_same(prior, current, i) {
        FieldFate::AlreadyBack
    } else {
        FieldFate::Restored
    }
}

/// The changes a revert records, over fields `0..n`: the prior value of
/// each field whose fate is to be restored.
pub open spec fn restored_changes(target: Changes, prior: Changes, current: Changes, n: int) -> Changes
    decreases n,
{
    if n <= 0 {
        no_changes()
    } else {
        let prev = restored_changes(target, prior, current, n - 1);
        if fate(target, prior, current, n - 1) is Restored {
            with_field(prev, prior, n - 1)
        } else {
            prev
        }
    }
}

/// Summary lines (`  name: current -> restored`) for fields `0..n`.
pub open spec fn summary_text(target: Changes, prior: Changes, current: Changes, n: int) -> Seq<Seq<char>>
    decreases n,
{
    if n <= 0 {
        Seq::empty()
    } else {
        let prev = summary_text(target, prior, current, n - 1);
        if fate(target, prior, current, n - 1) is Restored {
            prev.push("  "@ + field_name(n - 1) + ": "@ + or_unset(field_value(current, n - 1)) + " -> "@
                + field_value(prior, n - 1)->0)
        } else {
            prev
        }
    }
}

/// Explanatory notes for fields `0..n` that are skipped.
pub open spec fn notes_text(target_id: Seq<char>, target: Changes, prior: Changes, current: Changes, n: int) -> Seq<Seq<char>>
    decreases n,
{
    if n <= 0 {
        Seq::empty()
    } else {
        let prev = notes_text(target_id, target, prior, current, n - 1);
        match fate(target, prior, current, n - 1) {
            FieldFate::FirstSet => prev.push("  "@ + field_name(n - 1) + ": skipped — "@ + target_id
                + " was the first commit to ever set it, and append-only history has no way to un-set a field (that's reset's territory, deferred to v2)"@),
            FieldFate::AlreadyBack => prev.push("  "@ + field_name(n - 1) + ": already back at "@
                + field_value(prior, n - 1)->0 + " — nothing to change"@),
            _ => prev,
        }
    }
}

/// Why a revert is refused.
#[derive(Debug, Clone)]
pub enum RevertError {
    /// Which parent's side to revert to would be ambiguous.
    MergeCommit,
    /// The current branch has no commits to revert on.
    NoCommits { branch: String },
    /// No field would actually change; the notes say why for each field.
    NothingToRevert { target_id: String, notes: Vec<String> },
}

/// A revert ready to record: the new commit, what it restores, and notes on
/// the fields it leaves alone.
pub struct RevertPlan {
    pub commit: Commit,
    pub summary: Vec<String>,
    pub notes: Vec<String>,
}

/// The values fields had before the target: the replay of the target's own
/// ancestry for its entry (unset when the ancestry never touched it).
pub open spec fn prior_state(ancestry: Seq<Commit>, k: (Seq<char>, i64)) -> Changes {
    if replay(ancestry).contains_key(k) {
        replay(ancestry)[k]
    } else {
        no_changes()
    }
}

/// The branch's current state for the entry.
pub open spec fn current_state(history: Seq<Commit>, k: (Seq<char>, i64)) -> Changes {
    if replay(history).contains_key(k) {
        replay(history)[k]
    } else {
        no_changes()
    }
}

/// The revert message: `Revert "<message>" (<short id>)`.
pub open spec fn revert_message(target: Commit) -> Seq<char> {
    "Revert \""@ + target.message@ + "\" ("@ + target.id@.take(if target.id@.len() < 11 { target.id@.len() as int } else { 11 }) + ")"@
}

fn state_for(commits: &Vec<Commit>, key: &EntryKey) -> (c: Changes)
    ensures
        c == (if replay(commits@).contains_key(key_view(*key)) {
            replay(commits@)[key_view(*key)]
        } else {
            no_changes()
        }),
{
    let rows = net_changes(commits);
    match lookup(&rows, key) {
        Some(c) => c,
        None => Changes::empty(),
    }
}

/// Plan `anigit revert` of `target` on `branch`, whose head is `head` and
/// whose newest-first history is `history`; `ancestry` is the target's own
/// first-parent ancestry, newest first, starting at its parent. Merge
/// commits are refused; a branch without commits is refused; when no field
/// would change the revert is refused with the notes. Otherwise the new
/// commit chains onto `head`, is about the target's entry, records
/// `reverts = <target id>`, and restores each field's prior value.
pub fn plan_revert(
    target: &Commit,
    branch: &str,
    head: Option<String>,
    history: &Vec<Commit>,
    ancestry: &Vec<Commit>,
) -> (r: Result<RevertPlan, RevertError>)
    ensures
        (target.action == CommitAction::Merge || target.parent_ids@.len() >= 2) ==> r matches Err(RevertError::MergeCommit),
        !(target.action == CommitAction::Merge || target.parent_ids@.len() >= 2) && head is None
            ==> (r matches Err(RevertError::NoCommits { branch: b }) && b@ == branch@),
        ({
            let k = ref_key(target.catalog_ref);
            let prior = prior_state(ancestry@, k);
            let current = current_state(history@, k);
            let restored = restored_changes(target.changes, prior, current, 4);
            !(target.action == CommitAction::Merge || target.parent_ids@.len() >= 2) && head is Some ==> {
                &&& restored == no_changes() ==> (r matches Err(RevertError::NothingToRevert { target_id, notes })
                    && target_id@ == target.id@
                    && lines_view(notes@) == notes_text(target.id@, target.changes, prior, current, 4))
                &&& restored != no_changes() ==> (r matches Ok(plan) && {
                    &&& plan.commit.changes == restored
                    &&& ref_key(plan.commit.catalog_ref) == k
                    &&& plan.commit.parent_ids@.len() == 1
                    &&& plan.commit.parent_ids@[0]@ == head->0@
                    &&& plan.commit.branch@ == branch@
                    &&& plan.commit.action == CommitAction::Commit
                    &&& is_commit_id(plan.commit.id@)
                    &&& plan.commit.message@ == revert_message(*target)
                    &&& plan.commit.metadata@.len() == 1
                    &&& plan.commit.metadata@[0].0@ == "reverts"@
                    &&& plan.commit.metadata@[0].1 matches MetaValue::Text(t) && t@ == target.id@
                    &&& metadata_keys_distinct(plan.commit.metadata@)
                    &&& lines_view(plan.summary@) == summary_text(target.changes, prior, current, 4)
                    &&& lines_view(plan.notes@) == notes_text(target.id@, target.changes, prior, current, 4)
                })
            }
        }),
{
    if target.action == CommitAction::Merge || target.parent_ids.len() >= 2 {
        return Err(RevertError::MergeCommit);
    }
    let head = match head {
        Some(h) => h,
        None => {
            return Err(RevertError::NoCommits { branch: owned(branch) });
        },
    };
    let key: EntryKey = (target.catalog_ref.source.clone(), target.catalog_ref.id);
    let prior = state_for(ancestry, &key);
    let current = state_for(history, &key);
    let ghost k = ref_key(target.catalog_ref);
    assert(key_view(key) == k);
    let mut restored = Changes::empty();
    let mut summary: Vec<String> = Vec::new();
    let mut notes: Vec<String> = Vec::new();
    let mut i: usize = 0;
    while i < 4
        invariant
            i <= 4,
            restored == restored_changes(target.changes, prior, current, i as int),
            lines_view(summary@) == summary_text(target.changes, prior, current, i as int),
            lines_view(notes@) == notes_text(target.id@, target.changes, prior, current, i as int),
        decreases 4 - i,
    {
        let ghost s0 = summary@;
        let ghost n0 = notes@;
        if is_set(&target.changes, i) {
            let pv = field_value_text(&prior, i);
            match pv {
                None => {
                    let mut s = owned("  ");
                    push_str(&mut s, crate::render::field_name_str(i));
                    push_str(&mut s, ": skipped — ");
                    push_string(&mut s, &target.id);
                    push_str(&mut s, " was the first commit to ever set it, and append-only history has no way to un-set a field (that's reset's territory, deferred to v2)");
                    notes.push(s);
                    proof {
                        assert(!field_set(prior, i as int));
                        assert(lines_view(notes@) =~= lines_view(n0).push(s@));
                    }
                },
                Some(v) => {
                    if same(&prior, &current, i) {
                        let mut s = owned("  ");
                        push_str(&mut s, crate::render::field_name_str(i));
                        push_str(&mut s, ": already back at ");
                        push_string(&mut s, &v);
                        push_str(&mut s, " — nothing to change");
                        notes.push(s);
                        proof {
                            assert(lines_view(notes@) =~= lines_view(n0).push(s@));
                        }
                    } else {
                        take_field(&mut restored, &prior, i);
                        let cur = field_value_text(&current, i);
                        let mut s = owned("  ");
                        push_str(&mut s, crate::render::field_name_str(i));
                        push_str(&mut s, ": ");
                        match &cur {
                            Some(c) => push_string(&mut s, c),
                            None => push_str(&mut s, "(unset)"),
                        }
                        push_str(&mut s, " -> ");
                        push_string(&mut s, &v);
                        summary.push(s);
                        proof {
                            assert(s@ =~= "  "@ + field_name(i as int) + ": "@ + or_unset(field_value(current, i as int)) + " -> "@ + field_value(prior, i as int)->0);
                            assert(lines_view(summary@) =~= lines_view(s0).push(s@));
                        }
                    }
                },
            }
        }
        i = i + 1;
    }
    if restored.is_empty() {
        return Err(RevertError::NothingToRevert { target_id: owned(target.id.as_str()), notes });
    }
    let short = short_id(target.id.as_str());
    let mut message = owned("Revert \"");
    push_string(&mut message, &target.message);
    push_str(&mut message, "\" (");
    push_string(&mut message, &short);
    push_str(&mut message, ")");
    let mut parents: Vec<String> = Vec::new();
    parents.push(head);
    let cref = CatalogRef { source: owned(target.catalog_ref.source.as_str()), id: target.catalog_ref.id };
    let mut commit = Commit::new(parents, owned(branch), cref, restored, message);
    commit.metadata.push((owned("reverts"), MetaValue::Text(owned(target.id.as_str()))));
    proof {
        assert(message@ =~= revert_message(*target));
    }
    Ok(RevertPlan { commit, summary, notes })
}

/// Which fields the first `n` steps of a revert restore, and to what.
proof fn lemma_restored_fields(target: Changes, prior: Changes, current: Changes, n: int, i: int)
    requires
        0 <= i < 4,
        0 <= n <= 4,
    ensures
        i < n && fate(target, prior, current, i) is Restored ==> field_set(restored_changes(target, prior, current, n), i)
            && field_same(restored_changes(target, prior, current, n), prior, i),
        !(i < n && fate(target, prior, current, i) is Restored) ==> !field_set(restored_changes(target, prior, current, n), i),
    decreases n,
{
    if n > 0 {
        lemma_restored_fields(target, prior, current, n - 1, i);
    }
}

/// A revert undoes what its target set: recording the revert's changes on
/// top of the current state brings every restored field back to its value
/// before the target, and leaves every other field as it is now.
pub proof fn law_revert_restores_prior_values(target: Changes, prior: Changes, current: Changes, i: int)
    requires
        0 <= i < 4,
    ensures
        fate(target, prior, current, i) is Restored ==> field_same(
            crate::replay::overlay(current, restored_changes(target, prior, current, 4)),
            prior,
            i,
        ),
        !(fate(target, prior, current, i) is Restored) ==> field_same(
            crate::replay::overlay(current, restored_changes(target, prior, current, 4)),
            current,
            i,
        ),
{
    lemma_restored_fields(target, prior, current, 4, i);
}

/// A revert touches only what its target set, and only to take it back: a
/// field the revert records was set by the target, held a value before the
/// target that differs from its value now, and is recorded with that prior
/// value. Every such field is recorded.
pub proof fn law_revert_only_target_fields(target: Changes, prior: Changes, current: Changes, i: int)
    requires
        0 <= i < 4,
    ensures
        field_set(restored_changes(target, prior, current, 4), i) ==> {
            &&& field_set(target, i)
            &&& field_set(prior, i)
            &&& !field_same(prior, current, i)
            &&& field_same(restored_changes(target, prior, current, 4), prior, i)
        },
        field_set(target, i) && field_set(prior, i) && !field_same(prior, current, i) ==> field_set(
            restored_changes(target, prior, current, 4),
            i,
        ),
{
    lemma_restored_fields(target, prior, current, 4, i);
}

} // verus!
