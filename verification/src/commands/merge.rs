//! `anigit merge <branch>`: a three-way merge of per-entry state, allowed
//! only on shared repos. Against the state at the branches' common
//! ancestor, a field changed on one side only takes that side's value.
//! A field changed on both sides to different values is resolved by kind:
//! objective counts (episode progress, rewatch count) take the larger value,
//! since watching more is further along; subjective fields (status, score)
//! are conflicts that need a person's decision, so the merge stops.
use vstd::prelude::*;

use crate::model::{no_changes, ref_key, CatalogRef, Changes, Commit, CommitAction, RepoKind, WatchStatus};
use crate::replay::{
    commit_key, key_view, law_replay_distinct_commits, lemma_rows_map_at, lemma_rows_map_dom, lookup, net_changes,
    net_changes_from, overlay, replay, rows_distinct, rows_map, state_at, EntryKey, NetChanges,
};
use crate::text::{owned, push_str};

verus! {

// ---------------------------------------------------------------------------
// One field

/// The other side set the field to a new value that this side left alone.
pub open spec fn takes_theirs<T>(base: Option<T>, ours: Option<T>, theirs: Option<T>) -> bool {
    &&& theirs is Some
    &&& theirs != base
    &&& theirs != ours
    &&& (ours is None || ours == base)
}

/// Both sides set the field, each to its own new value.
pub open spec fn field_conflict<T>(base: Option<T>, ours: Option<T>, theirs: Option<T>) -> bool {
    &&& ours is Some
    &&& theirs is Some
    &&& ours != base
    &&& theirs != base
    &&& ours != theirs
}

/// A field without conflict: theirs where only they changed it, else ours.
pub open spec fn resolve<T>(base: Option<T>, ours: Option<T>, theirs: Option<T>) -> Option<T> {
    if takes_theirs(base, ours, theirs) {
        theirs
    } else {
        ours
    }
}

/// A count: like `resolve`, except that two different new values give the larger.
pub open spec fn resolve_count(base: Option<u32>, ours: Option<u32>, theirs: Option<u32>) -> Option<u32> {
    if field_conflict(base, ours, theirs) {
        if ours->0 >= theirs->0 {
            ours
        } else {
            theirs
        }
    } else {
        resolve(base, ours, theirs)
    }
}

// ---------------------------------------------------------------------------
// One entry

/// The merged state of one entry, from its state at the common ancestor and
/// on each side. A conflicting subjective field keeps our value here; the
/// merge as a whole is refused while any such conflict exists.
pub open spec fn merged_state(base: Changes, ours: Changes, theirs: Changes) -> Changes {
    Changes {
        status: resolve(base.status, ours.status, theirs.status),
        episode_progress: resolve_count(base.episode_progress, ours.episode_progress, theirs.episode_progress),
        score: resolve(base.score, ours.score, theirs.score),
        rewatch_count: resolve_count(base.rewatch_count, ours.rewatch_count, theirs.rewatch_count),
    }
}

/// The entry has a subjective field that both sides changed differently.
pub open spec fn entry_conflicted(base: Changes, ours: Changes, theirs: Changes) -> bool {
    field_conflict(base.status, ours.status, theirs.status) || field_conflict(base.score, ours.score, theirs.score)
}

/// What must be recorded on our side to reach `merged`: every field whose
/// merged value differs from ours.
pub open spec fn delta_to(ours: Changes, merged: Changes) -> Changes {
    Changes {
        status: if merged.status != ours.status { merged.status } else { None },
        episode_progress: if merged.episode_progress != ours.episode_progress {
            merged.episode_progress
        } else {
            None
        },
        score: if merged.score != ours.score { merged.score } else { None },
        rewatch_count: if merged.rewatch_count != ours.rewatch_count {
            merged.rewatch_count
        } else {
            None
        },
    }
}

fn same_status(a: Option<WatchStatus>, b: Option<WatchStatus>) -> (r: bool)
    ensures
        r == (a == b),
{
    match (a, b) {
        (Some(x), Some(y)) => x == y,
        (None, None) => true,
        _ => false,
    }
}

fn same_score(a: Option<u8>, b: Option<u8>) -> (r: bool)
    ensures
        r == (a == b),
{
    match (a, b) {
        (Some(x), Some(y)) => x == y,
        (None, None) => true,
        _ => false,
    }
}

fn same_count(a: Option<u32>, b: Option<u32>) -> (r: bool)
    ensures
        r == (a == b),
{
    match (a, b) {
        (Some(x), Some(y)) => x == y,
        (None, None) => true,
        _ => false,
    }
}

fn resolve_status(b: Option<WatchStatus>, o: Option<WatchStatus>, t: Option<WatchStatus>) -> (r: (Option<WatchStatus>, bool))
    ensures
        r.0 == resolve(b, o, t),
        r.1 == field_conflict(b, o, t),
{
    let tb = same_status(t, b);
    let to = same_status(t, o);
    let ob = same_status(o, b);
    let theirs = t.is_some() && !tb && !to && (o.is_none() || ob);
    let conflict = o.is_some() && t.is_some() && !ob && !tb && !to;
    (if theirs { t } else { o }, conflict)
}

fn resolve_score(b: Option<u8>, o: Option<u8>, t: Option<u8>) -> (r: (Option<u8>, bool))
    ensures
        r.0 == resolve(b, o, t),
        r.1 == field_conflict(b, o, t),
{
    let tb = same_score(t, b);
    let to = same_score(t, o);
    let ob = same_score(o, b);
    let theirs = t.is_some() && !tb && !to && (o.is_none() || ob);
    let conflict = o.is_some() && t.is_some() && !ob && !tb && !to;
    (if theirs { t } else { o }, conflict)
}

fn resolve_count_field(b: Option<u32>, o: Option<u32>, t: Option<u32>) -> (r: Option<u32>)
    ensures
        r == resolve_count(b, o, t),
{
    let tb = same_count(t, b);
    let to = same_count(t, o);
    let ob = same_count(o, b);
    match (o, t) {
        (Some(x), Some(y)) => {
            if !ob && !tb && !to {
                return if x >= y { o } else { t };
            }
        },
        _ => {},
    }
    if t.is_some() && !tb && !to && (o.is_none() || ob) { t } else { o }
}

/// Merge one entry: its merged state, and whether status and whether score
/// conflict.
pub fn merge_entry(base: &Changes, ours: &Changes, theirs: &Changes) -> (r: (Changes, bool, bool))
    ensures
        r.0 == merged_state(*base, *ours, *theirs),
        r.1 == field_conflict(base.status, ours.status, theirs.status),
        r.2 == field_conflict(base.score, ours.score, theirs.score),
{
    let (status, status_conflict) = resolve_status(base.status, ours.status, theirs.status);
    let (score, score_conflict) = resolve_score(base.score, ours.score, theirs.score);
    let merged = Changes {
        status,
        episode_progress: resolve_count_field(base.episode_progress, ours.episode_progress, theirs.episode_progress),
        score,
        rewatch_count: resolve_count_field(base.rewatch_count, ours.rewatch_count, theirs.rewatch_count),
    };
    (merged, status_conflict, score_conflict)
}

fn delta_between(ours: &Changes, merged: &Changes) -> (r: Changes)
    ensures
        r == delta_to(*ours, *merged),
{
    Changes {
        status: if same_status(merged.status, ours.status) { None } else { merged.status },
        episode_progress: if same_count(merged.episode_progress, ours.episode_progress) {
            None
        } else {
            merged.episode_progress
        },
        score: if same_score(merged.score, ours.score) { None } else { merged.score },
        rewatch_count: if same_count(merged.rewatch_count, ours.rewatch_count) {
            None
        } else {
            merged.rewatch_count
        },
    }
}

// ---------------------------------------------------------------------------
// Whole states

/// An entry's state in a net state, or no changes where it has none.
pub open spec fn state_of(m: Map<(Seq<char>, i64), Changes>, k: (Seq<char>, i64)) -> Changes {
    if m.contains_key(k) {
        m[k]
    } else {
        no_changes()
    }
}

/// The delta our side records for an entry of theirs whose state there is
/// `theirs`.
pub open spec fn entry_delta(
    base: Map<(Seq<char>, i64), Changes>,
    ours: Map<(Seq<char>, i64), Changes>,
    k: (Seq<char>, i64),
    theirs: Changes,
) -> Changes {
    delta_to(state_of(ours, k), merged_state(state_of(base, k), state_of(ours, k), theirs))
}

/// The deltas of a merge, in the order of their rows: one for each entry of
/// theirs whose merge changes something on our side.
pub open spec fn merge_deltas(
    base: Map<(Seq<char>, i64), Changes>,
    ours: Map<(Seq<char>, i64), Changes>,
    theirs: Seq<(EntryKey, Changes)>,
) -> Seq<((Seq<char>, i64), Changes)>
    decreases theirs.len(),
{
    if theirs.len() == 0 {
        Seq::empty()
    } else {
        let prev = merge_deltas(base, ours, theirs.drop_last());
        let k = key_view(theirs.last().0);
        let d = entry_delta(base, ours, k, theirs.last().1);
        if d == no_changes() {
            prev
        } else {
            prev.push((k, d))
        }
    }
}

/// The entries of theirs that conflict, in the order of their rows.
pub open spec fn conflicted_keys(
    base: Map<(Seq<char>, i64), Changes>,
    ours: Map<(Seq<char>, i64), Changes>,
    theirs: Seq<(EntryKey, Changes)>,
) -> Seq<(Seq<char>, i64)>
    decreases theirs.len(),
{
    if theirs.len() == 0 {
        Seq::empty()
    } else {
        let prev = conflicted_keys(base, ours, theirs.drop_last());
        let k = key_view(theirs.last().0);
        if entry_conflicted(state_of(base, k), state_of(ours, k), theirs.last().1) {
            prev.push(k)
        } else {
            prev
        }
    }
}

/// One entry that both sides changed in a subjective field.
#[derive(Debug, Clone)]
pub struct MergeConflict {
    /// The entry's catalog source and id.
    pub source: String,
    pub id: i64,
    /// Status conflicts.
    pub status: bool,
    /// Score conflicts.
    pub score: bool,
    /// The entry at the common ancestor, on our side, and on theirs.
    pub base: Changes,
    pub ours: Changes,
    pub theirs: Changes,
}

/// The keys of the rows of a delta list.
pub open spec fn delta_keys(rows: Seq<(EntryKey, Changes)>) -> Seq<((Seq<char>, i64), Changes)> {
    rows.map_values(|r: (EntryKey, Changes)| (key_view(r.0), r.1))
}

/// The keys of a conflict list.
pub open spec fn conflict_keys(cs: Seq<MergeConflict>) -> Seq<(Seq<char>, i64)> {
    cs.map_values(|c: MergeConflict| (c.source@, c.id))
}

fn state_in(rows: &NetChanges, k: &EntryKey) -> (r: Changes)
    requires
        rows_distinct(rows@),
    ensures
        r == state_of(rows_map(rows@), key_view(*k)),
{
    match lookup(rows, k) {
        Some(c) => c,
        None => Changes::empty(),
    }
}

fn copy_key(k: &EntryKey) -> (r: EntryKey)
    ensures
        key_view(r) == key_view(*k),
{
    (k.0.clone(), k.1)
}

/// Merge the net state `theirs` into `ours`, both descended from `base`.
/// Entries only we have stay as they are. With no conflict, the result is
/// the deltas to record on our side; otherwise every conflicting entry,
/// and nothing is recorded.
pub fn plan_merge(base: &NetChanges, ours: &NetChanges, theirs: &NetChanges) -> (r: Result<NetChanges, Vec<MergeConflict>>)
    requires
        rows_distinct(base@),
        rows_distinct(ours@),
    ensures
        r is Ok <==> conflicted_keys(rows_map(base@), rows_map(ours@), theirs@).len() == 0,
        r matches Ok(d) ==> delta_keys(d@) == merge_deltas(rows_map(base@), rows_map(ours@), theirs@),
        r matches Err(cs) ==> conflict_keys(cs@) == conflicted_keys(rows_map(base@), rows_map(ours@), theirs@),
        r matches Err(cs) ==> forall|i: int| 0 <= i < cs@.len() ==> {
            let c = #[trigger] cs@[i];
            let k = (c.source@, c.id);
            &&& c.base == state_of(rows_map(base@), k)
            &&& c.ours == state_of(rows_map(ours@), k)
            &&& entry_conflicted(c.base, c.ours, c.theirs)
            &&& c.status == field_conflict(c.base.status, c.ours.status, c.theirs.status)
            &&& c.score == field_conflict(c.base.score, c.ours.score, c.theirs.score)
        },
{
    let ghost bm = rows_map(base@);
    let ghost om = rows_map(ours@);
    let mut deltas: NetChanges = Vec::new();
    let mut conflicts: Vec<MergeConflict> = Vec::new();
    let mut i: usize = 0;
    while i < theirs.len()
        invariant
            i <= theirs@.len(),
            rows_distinct(base@),
            rows_distinct(ours@),
            bm == rows_map(base@),
            om == rows_map(ours@),
            delta_keys(deltas@) == merge_deltas(bm, om, theirs@.subrange(0, i as int)),
            conflict_keys(conflicts@) == conflicted_keys(bm, om, theirs@.subrange(0, i as int)),
            forall|j: int| 0 <= j < conflicts@.len() ==> {
                let c = #[trigger] conflicts@[j];
                let k = (c.source@, c.id);
                &&& c.base == state_of(bm, k)
                &&& c.ours == state_of(om, k)
                &&& entry_conflicted(c.base, c.ours, c.theirs)
                &&& c.status == field_conflict(c.base.status, c.ours.status, c.theirs.status)
                &&& c.score == field_conflict(c.base.score, c.ours.score, c.theirs.score)
            },
        decreases theirs@.len() - i,
    {
        let ghost prefix = theirs@.subrange(0, i as int);
        let ghost next = theirs@.subrange(0, i + 1);
        proof {
            assert(next.drop_last() =~= prefix);
            assert(next.last() == theirs@[i as int]);
        }
        let key = &theirs[i].0;
        let t = theirs[i].1;
        let b = state_in(base, key);
        let o = state_in(ours, key);
        let (merged, status_conflict, score_conflict) = merge_entry(&b, &o, &t);
        let ghost prev_d = deltas@;
        let ghost prev_c = conflicts@;
        if status_conflict || score_conflict {
            conflicts.push(MergeConflict {
                source: key.0.clone(),
                id: key.1,
                status: status_conflict,
                score: score_conflict,
                base: b,
                ours: o,
                theirs: t,
            });
            proof {
                assert(conflict_keys(conflicts@) =~= conflict_keys(prev_c).push(key_view(*key)));
            }
        } else {
            proof {
                assert(conflicts@ == prev_c);
            }
        }
        let d = delta_between(&o, &merged);
        if !d.is_empty() {
            deltas.push((copy_key(key), d));
            proof {
                assert(delta_keys(deltas@) =~= delta_keys(prev_d).push((key_view(*key), d)));
            }
        }
        i = i + 1;
    }
    proof {
        assert(theirs@.subrange(0, theirs@.len() as int) =~= theirs@);
        assert(conflict_keys(conflicts@).len() == conflicts@.len());
    }
    if conflicts.len() > 0 {
        Err(conflicts)
    } else {
        Ok(deltas)
    }
}

// ---------------------------------------------------------------------------
// Histories

/// The commit ids of a history.
pub open spec fn ids_of(history: Seq<Commit>) -> Seq<Seq<char>> {
    history.map_values(|c: Commit| c.id@)
}

/// The common ancestor of two newest-first histories: the first of our
/// commits that their history also holds.
pub open spec fn is_first_shared(ours: Seq<Commit>, theirs: Seq<Commit>, i: int) -> bool {
    &&& 0 <= i < ours.len()
    &&& ids_of(theirs).contains(ours[i].id@)
    &&& forall|j: int| 0 <= j < i ==> !ids_of(theirs).contains(#[trigger] ours[j].id@)
}

fn holds_id(history: &Vec<Commit>, id: &String) -> (r: bool)
    ensures
        r == ids_of(history@).contains(id@),
{
    let mut i: usize = 0;
    while i < history.len()
        invariant
            i <= history@.len(),
            forall|k: int| 0 <= k < i ==> history@[k].id@ != id@,
        decreases history@.len() - i,
    {
        if history[i].id == *id {
            assert(ids_of(history@)[i as int] == id@);
            return true;
        }
        i = i + 1;
    }
    proof {
        if ids_of(history@).contains(id@) {
            let k = choose|k: int| 0 <= k < ids_of(history@).len() && ids_of(history@)[k] == id@;
            assert(history@[k].id@ == id@);
        }
    }
    false
}

/// Index in `ours` of the common ancestor with `theirs`, if they share one.
pub fn common_ancestor(ours: &Vec<Commit>, theirs: &Vec<Commit>) -> (r: Option<usize>)
    ensures
        r matches Some(i) ==> is_first_shared(ours@, theirs@, i as int),
        r is None ==> forall|j: int| 0 <= j < ours@.len() ==> !ids_of(theirs@).contains(#[trigger] ours@[j].id@),
{
    let mut i: usize = 0;
    while i < ours.len()
        invariant
            i <= ours@.len(),
            forall|j: int| 0 <= j < i ==> !ids_of(theirs@).contains(#[trigger] ours@[j].id@),
        decreases ours@.len() - i,
    {
        if holds_id(theirs, &ours[i].id) {
            return Some(i);
        }
        i = i + 1;
    }
    None
}

/// Some entry of `theirs` conflicts.
pub open spec fn state_conflicts(
    base: Map<(Seq<char>, i64), Changes>,
    ours: Map<(Seq<char>, i64), Changes>,
    theirs: Map<(Seq<char>, i64), Changes>,
) -> bool {
    exists|k: (Seq<char>, i64)| theirs.contains_key(k) && #[trigger] entry_conflicted(state_of(base, k), state_of(ours, k), theirs[k])
}

proof fn lemma_no_conflicted_keys(
    base: Map<(Seq<char>, i64), Changes>,
    ours: Map<(Seq<char>, i64), Changes>,
    rows: Seq<(EntryKey, Changes)>,
)
    requires
        rows_distinct(rows),
    ensures
        conflicted_keys(base, ours, rows).len() == 0 <==> !state_conflicts(base, ours, rows_map(rows)),
    decreases rows.len(),
{
    let m = rows_map(rows);
    if conflicted_keys(base, ours, rows).len() == 0 {
        lemma_no_conflict_rows(base, ours, rows);
        assert forall|k: (Seq<char>, i64)| m.contains_key(k) implies !#[trigger] entry_conflicted(state_of(base, k), state_of(ours, k), m[k]) by {
            lemma_rows_map_dom(rows, k);
            let i = choose|i: int| 0 <= i < rows.len() && key_view(#[trigger] rows[i].0) == k;
            lemma_rows_map_at(rows, i);
        }
    } else {
        let i = lemma_conflicted_row(base, ours, rows);
        lemma_rows_map_at(rows, i);
        let k = key_view(rows[i].0);
        assert(m.contains_key(k) && entry_conflicted(state_of(base, k), state_of(ours, k), m[k]));
    }
}

proof fn lemma_no_conflict_rows(
    base: Map<(Seq<char>, i64), Changes>,
    ours: Map<(Seq<char>, i64), Changes>,
    rows: Seq<(EntryKey, Changes)>,
)
    requires
        conflicted_keys(base, ours, rows).len() == 0,
    ensures
        forall|i: int| 0 <= i < rows.len() ==> !entry_conflicted(
            state_of(base, key_view(#[trigger] rows[i].0)),
            state_of(ours, key_view(rows[i].0)),
            rows[i].1,
        ),
    decreases rows.len(),
{
    if rows.len() > 0 {
        let d = rows.drop_last();
        assert(conflicted_keys(base, ours, d).len() == 0);
        lemma_no_conflict_rows(base, ours, d);
        assert forall|i: int| 0 <= i < rows.len() implies !entry_conflicted(
            state_of(base, key_view(#[trigger] rows[i].0)),
            state_of(ours, key_view(rows[i].0)),
            rows[i].1,
        ) by {
            if i < rows.len() - 1 {
                assert(rows[i] == d[i]);
            }
        }
    }
}

proof fn lemma_conflicted_row(
    base: Map<(Seq<char>, i64), Changes>,
    ours: Map<(Seq<char>, i64), Changes>,
    rows: Seq<(EntryKey, Changes)>,
) -> (i: int)
    requires
        conflicted_keys(base, ours, rows).len() > 0,
    ensures
        0 <= i < rows.len(),
        entry_conflicted(state_of(base, key_view(rows[i].0)), state_of(ours, key_view(rows[i].0)), rows[i].1),
    decreases rows.len(),
{
    let d = rows.drop_last();
    let k = key_view(rows.last().0);
    if entry_conflicted(state_of(base, k), state_of(ours, k), rows.last().1) {
        (rows.len() - 1) as int
    } else {
        let j = lemma_conflicted_row(base, ours, d);
        assert(rows[j] == d[j]);
        j
    }
}

/// Why a merge cannot go ahead.
#[derive(Debug, Clone)]
pub enum MergeError {
    /// Single-user repos never merge; `anigit compare` shows the differences instead.
    SingleUserRepo,
    NoSuchBranch { name: String },
    /// Subjective fields changed differently on both sides.
    Conflicts(Vec<MergeConflict>),
}

/// The state at the common ancestor (none where there is none).
pub open spec fn base_history(ours: Seq<Commit>, theirs: Seq<Commit>) -> Seq<Commit> {
    if exists|i: int| is_first_shared(ours, theirs, i) {
        ours.subrange(choose|i: int| is_first_shared(ours, theirs, i), ours.len() as int)
    } else {
        Seq::empty()
    }
}

proof fn lemma_first_shared_unique(ours: Seq<Commit>, theirs: Seq<Commit>, i: int, j: int)
    requires
        is_first_shared(ours, theirs, i),
        is_first_shared(ours, theirs, j),
    ensures
        i == j,
{
    if i < j {
        assert(!ids_of(theirs).contains(ours[i].id@));
    }
    if j < i {
        assert(!ids_of(theirs).contains(ours[j].id@));
    }
}

/// `anigit merge <branch>` on the current branch, whose history is `ours`,
/// with `branch`'s history `theirs` (both newest first): refused on a
/// single-user repo and for a missing branch; otherwise the three-way
/// merge of both replayed states against the state at their common
/// ancestor, as `plan_merge` decides it.
pub fn run(branch: &str, kind: RepoKind, branch_exists: bool, ours: &Vec<Commit>, theirs: &Vec<Commit>) -> (r: Result<NetChanges, MergeError>)
    ensures
        kind == RepoKind::SingleUser ==> r matches Err(MergeError::SingleUserRepo),
        kind == RepoKind::Shared && !branch_exists ==> (r matches Err(MergeError::NoSuchBranch { name }) && name@ == branch@),
        kind == RepoKind::Shared && branch_exists ==> {
            let bm = replay(base_history(ours@, theirs@));
            let om = replay(ours@);
            let tm = replay(theirs@);
            &&& (r is Err ==> (r matches Err(MergeError::Conflicts(_))))
            &&& r is Ok <==> !state_conflicts(bm, om, tm)
            &&& r matches Ok(d) ==> exists|rows: Seq<(EntryKey, Changes)>|
                rows_map(rows) == tm && #[trigger] merge_deltas(bm, om, rows) == delta_keys(d@)
                && conflicted_keys(bm, om, rows).len() == 0
            &&& r matches Err(MergeError::Conflicts(cs)) ==> exists|rows: Seq<(EntryKey, Changes)>|
                rows_map(rows) == tm && #[trigger] conflicted_keys(bm, om, rows) == conflict_keys(cs@)
                && cs@.len() > 0
        },
{
    if kind == RepoKind::SingleUser {
        return Err(MergeError::SingleUserRepo);
    }
    if !branch_exists {
        return Err(MergeError::NoSuchBranch { name: owned(branch) });
    }
    let from = match common_ancestor(ours, theirs) {
        Some(i) => {
            proof {
                assert(is_first_shared(ours@, theirs@, i as int));
                let c = choose|j: int| is_first_shared(ours@, theirs@, j);
                lemma_first_shared_unique(ours@, theirs@, i as int, c);
            }
            i
        },
        None => {
            proof {
                assert(!exists|i: int| is_first_shared(ours@, theirs@, i));
                assert(ours@.subrange(ours@.len() as int, ours@.len() as int) =~= Seq::<Commit>::empty());
            }
            ours.len()
        },
    };
    let base_rows = net_changes_from(ours, from);
    let our_rows = net_changes(ours);
    let their_rows = net_changes(theirs);
    proof {
        assert(ours@.subrange(from as int, ours@.len() as int) == base_history(ours@, theirs@));
        lemma_no_conflicted_keys(rows_map(base_rows@), rows_map(our_rows@), their_rows@);
    }
    match plan_merge(&base_rows, &our_rows, &their_rows) {
        Ok(d) => Ok(d),
        Err(cs) => Err(MergeError::Conflicts(cs)),
    }
}

/// The message of a merge commit.
pub open spec fn merge_message(branch: Seq<char>) -> Seq<char> {
    "Merge branch '"@ + branch + "'"@
}

/// The commits that record a merge of `branch` into `current`: one per
/// delta, each a `Merge` commit on `current` for that entry. The first has
/// our head (if any) and their head as parents; each later one follows the
/// one before.
pub fn merge_commits(deltas: &NetChanges, current: &str, branch: &str, our_head: Option<String>, their_head: &str) -> (cs: Vec<Commit>)
    ensures
        cs@.len() == deltas@.len(),
        forall|i: int| 0 <= i < cs@.len() ==> {
            let c = #[trigger] cs@[i];
            &&& c.action == CommitAction::Merge
            &&& c.branch@ == current@
            &&& c.message@ == merge_message(branch@)
            &&& ref_key(c.catalog_ref) == key_view(deltas@[i].0)
            &&& c.changes == deltas@[i].1
            &&& crate::model::is_commit_id(c.id@)
        },
        cs@.len() > 0 ==> crate::repo::strings_view(cs@[0].parent_ids@) == match our_head {
            Some(h) => seq![h@, their_head@],
            None => seq![their_head@],
        },
        forall|i: int| 0 < i < cs@.len() ==> crate::repo::strings_view(#[trigger] cs@[i].parent_ids@) == seq![cs@[i - 1].id@],
{
    let mut cs: Vec<Commit> = Vec::new();
    let mut i: usize = 0;
    while i < deltas.len()
        invariant
            i <= deltas@.len(),
            cs@.len() == i,
            forall|j: int| 0 <= j < cs@.len() ==> {
                let c = #[trigger] cs@[j];
                &&& c.action == CommitAction::Merge
                &&& c.branch@ == current@
                &&& c.message@ == merge_message(branch@)
                &&& ref_key(c.catalog_ref) == key_view(deltas@[j].0)
                &&& c.changes == deltas@[j].1
                &&& crate::model::is_commit_id(c.id@)
            },
            cs@.len() > 0 ==> crate::repo::strings_view(cs@[0].parent_ids@) == match our_head {
                Some(h) => seq![h@, their_head@],
                None => seq![their_head@],
            },
            forall|j: int| 0 < j < cs@.len() ==> crate::repo::strings_view(#[trigger] cs@[j].parent_ids@) == seq![cs@[j - 1].id@],
        decreases deltas@.len() - i,
    {
        let mut parents: Vec<String> = Vec::new();
        if i == 0 {
            match &our_head {
                Some(h) => {
                    parents.push(h.clone());
                },
                None => {},
            }
            parents.push(owned(their_head));
            proof {
                if our_head is Some {
                    assert(crate::repo::strings_view(parents@) =~= seq![our_head->0@, their_head@]);
                } else {
                    assert(crate::repo::strings_view(parents@) =~= seq![their_head@]);
                }
            }
        } else {
            parents.push(cs[i - 1].id.clone());
            proof {
                assert(crate::repo::strings_view(parents@) =~= seq![cs@[i - 1].id@]);
            }
        }
        let ghost pv = crate::repo::strings_view(parents@);
        let mut message = owned("Merge branch '");
        push_str(&mut message, branch);
        push_str(&mut message, "'");
        proof {
            reveal_strlit("Merge branch '");
            reveal_strlit("'");
        }
        let k = &deltas[i].0;
        let cref = CatalogRef { source: k.0.clone(), id: k.1 };
        let mut c = Commit::new(parents, owned(current), cref, deltas[i].1, message);
        c.action = CommitAction::Merge;
        let ghost prev = cs@;
        cs.push(c);
        proof {
            assert(cs@[i as int] == c);
            assert forall|j: int| 0 <= j < i implies cs@[j] == prev[j] by {}
            assert(crate::repo::strings_view(cs@[i as int].parent_ids@) == pv);
            if i > 0 {
                assert(pv == seq![prev[i - 1].id@]);
            }
            assert forall|j: int| 0 < j < cs@.len() implies crate::repo::strings_view(
                #[trigger] cs@[j].parent_ids@,
            ) == seq![cs@[j - 1].id@] by {
                assert(cs@[j - 1] == prev[j - 1]);
                if j < i {
                    assert(cs@[j] == prev[j]);
                    assert(crate::repo::strings_view(prev[j].parent_ids@) == seq![prev[j - 1].id@]);
                } else {
                    assert(j == i);
                    assert(crate::repo::strings_view(cs@[j].parent_ids@) == pv);
                }
            }
        }
        i = i + 1;
    }
    cs
}

// ---------------------------------------------------------------------------
// Laws

/// Recording the merge delta of an entry on our side gives exactly the
/// merged state.
pub proof fn law_delta_reaches_merge(base: Changes, ours: Changes, theirs: Changes)
    ensures
        overlay(ours, delta_to(ours, merged_state(base, ours, theirs))) == merged_state(base, ours, theirs),
{
}

/// Merging a side that changed nothing since the ancestor changes nothing:
/// no conflict, and our state stays.
pub proof fn law_merge_unchanged_theirs(base: Changes, ours: Changes)
    ensures
        !entry_conflicted(base, ours, base),
        merged_state(base, ours, base) == ours,
        delta_to(ours, merged_state(base, ours, base)) == no_changes(),
{
}

/// When only they changed an entry since the ancestor, the merge takes
/// their state wherever they set a field (a fast-forward), without conflict.
pub proof fn law_merge_fast_forward(base: Changes, theirs: Changes)
    ensures
        !entry_conflicted(base, base, theirs),
        merged_state(base, base, theirs) == overlay(base, theirs),
{
}

/// Every field set in `base` is still set in `side`: what a history that
/// continues from `base` replays to, since a commit never unsets a field.
pub open spec fn extends(base: Changes, side: Changes) -> bool {
    &&& base.status is Some ==> side.status is Some
    &&& base.episode_progress is Some ==> side.episode_progress is Some
    &&& base.score is Some ==> side.score is Some
    &&& base.rewatch_count is Some ==> side.rewatch_count is Some
}

/// The merge does not depend on which side is ours: swapping the sides
/// gives the same conflicts, and, where there is none, the same state.
pub proof fn law_merge_symmetric(base: Changes, ours: Changes, theirs: Changes)
    requires
        extends(base, ours),
        extends(base, theirs),
    ensures
        entry_conflicted(base, ours, theirs) == entry_conflicted(base, theirs, ours),
        !entry_conflicted(base, ours, theirs) ==> merged_state(base, ours, theirs) == merged_state(base, theirs, ours),
{
}

/// A count never goes backwards in a merge: where both sides hold a value,
/// the merged one is at least each side's value, unless only one side
/// changed it since the ancestor.
pub proof fn law_counts_take_the_larger(base: Option<u32>, ours: Option<u32>, theirs: Option<u32>)
    requires
        field_conflict(base, ours, theirs),
    ensures
        resolve_count(base, ours, theirs) is Some,
        resolve_count(base, ours, theirs)->0 >= ours->0,
        resolve_count(base, ours, theirs)->0 >= theirs->0,
{
}

/// A merged field is always one side's value. Where both sides hold the same
/// value, that value is kept, even when both changed it the same way since
/// the ancestor: an agreed change is never rolled back. A change made on
/// one side only is taken.
pub proof fn law_field_merge_keeps_changes<T>(base: Option<T>, ours: Option<T>, theirs: Option<T>)
    ensures
        resolve(base, ours, theirs) == ours || resolve(base, ours, theirs) == theirs,
        ours == theirs ==> resolve(base, ours, theirs) == ours,
        ours is Some && ours != base && (theirs is None || theirs == base) ==> resolve(base, ours, theirs) == ours,
        theirs is Some && theirs != base && (ours is None || ours == base) ==> resolve(base, ours, theirs) == theirs,
{
}

/// A merged count is always one side's value; the same value on both sides
/// is kept; a change made on one side only is taken; and two different
/// changes give the larger.
pub proof fn law_count_merge_keeps_changes(base: Option<u32>, ours: Option<u32>, theirs: Option<u32>)
    ensures
        resolve_count(base, ours, theirs) == ours || resolve_count(base, ours, theirs) == theirs,
        ours == theirs ==> resolve_count(base, ours, theirs) == ours,
        ours is Some && ours != base && (theirs is None || theirs == base) ==> resolve_count(base, ours, theirs) == ours,
        theirs is Some && theirs != base && (ours is None || ours == base) ==> resolve_count(base, ours, theirs) == theirs,
        ours is Some && theirs is Some && ours != base && theirs != base && ours != theirs ==> resolve_count(
            base,
            ours,
            theirs,
        )->0 == if ours->0 >= theirs->0 { ours->0 } else { theirs->0 },
{
}

/// When both sides reached the same state for an entry, whatever the
/// ancestor held, the merge keeps that state, finds no conflict, and
/// records nothing for the entry.
pub proof fn law_merge_agreed_state(base: Changes, both: Changes)
    ensures
        merged_state(base, both, both) == both,
        !entry_conflicted(base, both, both),
        delta_to(both, merged_state(base, both, both)) == no_changes(),
{
}

/// Delta `d` is the non-empty entry delta of some row of theirs.
spec fn from_some_row(
    base: Map<(Seq<char>, i64), Changes>,
    ours: Map<(Seq<char>, i64), Changes>,
    rows: Seq<(EntryKey, Changes)>,
    d: ((Seq<char>, i64), Changes),
) -> bool {
    exists|i: int|
        0 <= i < rows.len() && key_view(#[trigger] rows[i].0) == d.0 && d.1 == entry_delta(base, ours, d.0, rows[i].1)
            && d.1 != no_changes()
}

/// Each delta of a merge comes from one row of theirs, is that row's
/// non-empty entry delta, and no two deltas share an entry.
proof fn lemma_merge_deltas_rows(
    base: Map<(Seq<char>, i64), Changes>,
    ours: Map<(Seq<char>, i64), Changes>,
    rows: Seq<(EntryKey, Changes)>,
)
    requires
        rows_distinct(rows),
    ensures
        forall|j: int| 0 <= j < merge_deltas(base, ours, rows).len() ==> from_some_row(base, ours, rows, #[trigger] merge_deltas(base, ours, rows)[j]),
        forall|i: int| 0 <= i < rows.len() && entry_delta(base, ours, key_view(rows[i].0), rows[i].1) != no_changes()
            ==> exists|j: int| 0 <= j < merge_deltas(base, ours, rows).len() && #[trigger] merge_deltas(base, ours, rows)[j].0
            == key_view(#[trigger] rows[i].0),
        forall|a: int, b: int| 0 <= a < b < merge_deltas(base, ours, rows).len() ==> (#[trigger] merge_deltas(base, ours, rows)[a]).0
            != (#[trigger] merge_deltas(base, ours, rows)[b]).0,
    decreases rows.len(),
{
    if rows.len() > 0 {
        let d = rows.drop_last();
        assert(rows_distinct(d)) by {
            assert forall|a: int, b: int| 0 <= a < d.len() && 0 <= b < d.len() && a != b implies key_view(#[trigger] d[a].0)
                != key_view(#[trigger] d[b].0) by {
                assert(d[a] == rows[a] && d[b] == rows[b]);
            }
        }
        lemma_merge_deltas_rows(base, ours, d);
        let prev = merge_deltas(base, ours, d);
        let all = merge_deltas(base, ours, rows);
        let last = rows.len() - 1;
        let k = key_view(rows[last].0);
        let dl = entry_delta(base, ours, k, rows[last].1);
        assert forall|j: int| 0 <= j < all.len() implies from_some_row(base, ours, rows, #[trigger] all[j]) by {
            if j < prev.len() {
                assert(all[j] == prev[j]);
                assert(from_some_row(base, ours, d, prev[j]));
                let i = choose|i: int|
                    0 <= i < d.len() && key_view(#[trigger] d[i].0) == prev[j].0 && prev[j].1 == entry_delta(base, ours, prev[j].0, d[i].1)
                        && prev[j].1 != no_changes();
                assert(d[i] == rows[i]);
            } else {
                assert(all[j] == (k, dl));
                assert(key_view(rows[last].0) == all[j].0);
            }
        }
        assert forall|i: int| 0 <= i < rows.len() && entry_delta(base, ours, key_view(rows[i].0), rows[i].1) != no_changes()
            implies exists|j: int| 0 <= j < all.len() && #[trigger] all[j].0 == key_view(#[trigger] rows[i].0) by {
            if i < last {
                assert(d[i] == rows[i]);
                let j = choose|j: int| 0 <= j < prev.len() && #[trigger] prev[j].0 == key_view(#[trigger] d[i].0);
                assert(all[j] == prev[j]);
            } else {
                assert(all[prev.len() as int] == (k, dl));
            }
        }
        assert forall|a: int, b: int| 0 <= a < b < all.len() implies (#[trigger] all[a]).0 != (#[trigger] all[b]).0 by {
            if b < prev.len() {
                assert(all[a] == prev[a] && all[b] == prev[b]);
            } else {
                assert(all[a] == prev[a]);
                assert(all[b] == (k, dl));
                assert(from_some_row(base, ours, d, prev[a]));
                let i = choose|i: int|
                    0 <= i < d.len() && key_view(#[trigger] d[i].0) == prev[a].0 && prev[a].1 == entry_delta(base, ours, prev[a].0, d[i].1)
                        && prev[a].1 != no_changes();
                assert(d[i] == rows[i]);
                assert(key_view(rows[i].0) != key_view(rows[last].0));
            }
        }
    }
}

/// The merged state equals ours exactly when the merge records nothing for
/// the entry.
proof fn lemma_empty_delta_keeps_ours(base: Changes, ours: Changes, theirs: Changes)
    requires
        delta_to(ours, merged_state(base, ours, theirs)) == no_changes(),
    ensures
        merged_state(base, ours, theirs) == ours,
{
}

/// A merge leaves the merged state behind: once the merge's deltas are
/// recorded on our history as commits, one per delta in order, every entry
/// of theirs holds the three-way merged state and every other entry keeps
/// ours.
pub proof fn law_merge_records_merged_state(
    base: Map<(Seq<char>, i64), Changes>,
    ours: Seq<Commit>,
    rows: Seq<(EntryKey, Changes)>,
    recorded: Seq<Commit>,
    k: (Seq<char>, i64),
)
    requires
        rows_distinct(rows),
        recorded.len() == merge_deltas(base, replay(ours), rows).len(),
        forall|i: int| 0 <= i < recorded.len() ==> commit_key(#[trigger] recorded[i]) == merge_deltas(base, replay(ours), rows)[i].0
            && recorded[i].changes == merge_deltas(base, replay(ours), rows)[i].1,
    ensures
        rows_map(rows).contains_key(k) ==> state_at(recorded.reverse() + ours, k) == merged_state(
            state_of(base, k),
            state_at(ours, k),
            rows_map(rows)[k],
        ),
        !rows_map(rows).contains_key(k) ==> state_at(recorded.reverse() + ours, k) == state_at(ours, k),
{
    let om = replay(ours);
    let ds = merge_deltas(base, om, rows);
    let rev = recorded.reverse();
    lemma_merge_deltas_rows(base, om, rows);
    assert forall|i: int, j: int| 0 <= i < j < rev.len() implies commit_key(#[trigger] rev[i]) != commit_key(#[trigger] rev[j]) by {
        let n = recorded.len();
        assert(rev[i] == recorded[n - 1 - i] && rev[j] == recorded[n - 1 - j]);
        assert(ds[n - 1 - j].0 != ds[n - 1 - i].0);
    }
    law_replay_distinct_commits(ours, rev, k);
    assert(state_of(om, k) == state_at(ours, k));
    if rows_map(rows).contains_key(k) {
        lemma_rows_map_dom(rows, k);
        let i = choose|i: int| 0 <= i < rows.len() && key_view(#[trigger] rows[i].0) == k;
        lemma_rows_map_at(rows, i);
        let t = rows[i].1;
        let dk = entry_delta(base, om, k, t);
        if dk != no_changes() {
            let j = choose|j: int| 0 <= j < ds.len() && #[trigger] ds[j].0 == key_view(#[trigger] rows[i].0);
            assert(from_some_row(base, om, rows, ds[j]));
            let i2 = choose|i2: int|
                0 <= i2 < rows.len() && key_view(#[trigger] rows[i2].0) == ds[j].0 && ds[j].1 == entry_delta(base, om, ds[j].0, rows[i2].1)
                    && ds[j].1 != no_changes();
            assert(i2 == i);
            let n = recorded.len();
            assert(rev[n - 1 - j] == recorded[j]);
            assert(commit_key(rev[n - 1 - j]) == k);
            law_delta_reaches_merge(state_of(base, k), state_at(ours, k), t);
        } else {
            assert forall|m: int| 0 <= m < rev.len() implies commit_key(#[trigger] rev[m]) != k by {
                let n = recorded.len();
                assert(rev[m] == recorded[n - 1 - m]);
                let jj = n - 1 - m;
                if ds[jj].0 == k {
                    assert(from_some_row(base, om, rows, ds[jj]));
                    let i2 = choose|i2: int|
                        0 <= i2 < rows.len() && key_view(#[trigger] rows[i2].0) == ds[jj].0 && ds[jj].1 == entry_delta(base, om, ds[jj].0, rows[i2].1)
                            && ds[jj].1 != no_changes();
                    assert(i2 == i);
                }
            }
            lemma_empty_delta_keeps_ours(state_of(base, k), state_at(ours, k), t);
        }
    } else {
        assert forall|m: int| 0 <= m < rev.len() implies commit_key(#[trigger] rev[m]) != k by {
            let n = recorded.len();
            assert(rev[m] == recorded[n - 1 - m]);
            let jj = n - 1 - m;
            if ds[jj].0 == k {
                assert(from_some_row(base, om, rows, ds[jj]));
                let i2 = choose|i2: int|
                    0 <= i2 < rows.len() && key_view(#[trigger] rows[i2].0) == ds[jj].0 && ds[jj].1 == entry_delta(base, om, ds[jj].0, rows[i2].1)
                        && ds[jj].1 != no_changes();
                lemma_rows_map_dom(rows, k);
            }
        }
    }
}

} // verus!
