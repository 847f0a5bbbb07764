//! Replaying history into current state. A commit list (newest first, as
//! history walks return it) folds into one `Changes` per catalog entry: for
//! every field, the most recent commit that set it wins.
use vstd::prelude::*;

use crate::model::{no_changes, ref_key, Changes, Commit, WatchStatus};

verus! {

/// Hashable stand-in for a catalog reference: `(source, id)`.
pub type EntryKey = (String, i64);

/// The value of an entry key.
pub open spec fn key_view(k: EntryKey) -> (Seq<char>, i64) {
    (k.0@, k.1)
}

/// Net state of every entry: one row per distinct key.
pub type NetChanges = Vec<(EntryKey, Changes)>;

/// `delta` applied on top of `base`: each field `delta` sets replaces `base`'s.
pub open spec fn overlay(base: Changes, delta: Changes) -> Changes {
    Changes {
        status: if delta.status is Some { delta.status } else { base.status },
        episode_progress: if delta.episode_progress is Some {
            delta.episode_progress
        } else {
            base.episode_progress
        },
        score: if delta.score is Some { delta.score } else { base.score },
        rewatch_count: if delta.rewatch_count is Some {
            delta.rewatch_count
        } else {
            base.rewatch_count
        },
    }
}

/// The key of the entry a commit is about.
pub open spec fn commit_key(c: Commit) -> (Seq<char>, i64) {
    ref_key(c.catalog_ref)
}

/// Replay of a newest-first commit list: the older commits are replayed
/// first, then the newest one is laid on top for its entry.
pub open spec fn replay(commits: Seq<Commit>) -> Map<(Seq<char>, i64), Changes>
    decreases commits.len(),
{
    if commits.len() == 0 {
        Map::empty()
    } else {
        let older = replay(commits.drop_first());
        let k = commit_key(commits[0]);
        let base = if older.contains_key(k) { older[k] } else { no_changes() };
        older.insert(k, overlay(base, commits[0].changes))
    }
}

/// The map a net-state row list stands for (later rows win, though rows
/// never repeat a key).
pub open spec fn rows_map(rows: Seq<(EntryKey, Changes)>) -> Map<(Seq<char>, i64), Changes>
    decreases rows.len(),
{
    if rows.len() == 0 {
        Map::empty()
    } else {
        rows_map(rows.drop_last()).insert(key_view(rows.last().0), rows.last().1)
    }
}

/// No key occurs in two rows.
pub open spec fn rows_distinct(rows: Seq<(EntryKey, Changes)>) -> bool {
    forall|i: int, j: int|
        0 <= i < rows.len() && 0 <= j < rows.len() && i != j ==> key_view(#[trigger] rows[i].0)
            != key_view(#[trigger] rows[j].0)
}

pub proof fn lemma_rows_map_dom(rows: Seq<(EntryKey, Changes)>, k: (Seq<char>, i64))
    ensures
        rows_map(rows).contains_key(k) <==> exists|i: int|
            0 <= i < rows.len() && key_view(#[trigger] rows[i].0) == k,
    decreases rows.len(),
{
    if rows.len() > 0 {
        lemma_rows_map_dom(rows.drop_last(), k);
        if rows_map(rows).contains_key(k) && key_view(rows.last().0) != k {
            let i = choose|i: int|
                0 <= i < rows.drop_last().len() && key_view(#[trigger] rows.drop_last()[i].0) == k;
            assert(rows[i] == rows.drop_last()[i]);
        }
        if exists|i: int| 0 <= i < rows.len() && key_view(#[trigger] rows[i].0) == k {
            let i = choose|i: int| 0 <= i < rows.len() && key_view(#[trigger] rows[i].0) == k;
            if i < rows.len() - 1 {
                assert(rows.drop_last()[i] == rows[i]);
            }
        }
    }
}

pub proof fn lemma_rows_map_at(rows: Seq<(EntryKey, Changes)>, i: int)
    requires
        rows_distinct(rows),
        0 <= i < rows.len(),
    ensures
        rows_map(rows).contains_key(key_view(rows[i].0)),
        rows_map(rows)[key_view(rows[i].0)] == rows[i].1,
    decreases rows.len(),
{
    if i < rows.len() - 1 {
        let d = rows.drop_last();
        assert(d[i] == rows[i]);
        assert(rows_distinct(d)) by {
            assert forall|a: int, b: int|
                0 <= a < d.len() && 0 <= b < d.len() && a != b implies key_view(#[trigger] d[a].0)
                != key_view(#[trigger] d[b].0) by {
                assert(d[a] == rows[a] && d[b] == rows[b]);
            }
        }
        lemma_rows_map_at(d, i);
        assert(key_view(rows[i].0) != key_view(rows[rows.len() - 1].0));
    }
}

proof fn lemma_rows_map_update(rows: Seq<(EntryKey, Changes)>, j: int, c: Changes)
    requires
        rows_distinct(rows),
        0 <= j < rows.len(),
    ensures
        rows_distinct(rows.update(j, (rows[j].0, c))),
        rows_map(rows.update(j, (rows[j].0, c))) == rows_map(rows).insert(key_view(rows[j].0), c),
{
    let u = rows.update(j, (rows[j].0, c));
    assert(rows_distinct(u)) by {
        assert forall|a: int, b: int|
            0 <= a < u.len() && 0 <= b < u.len() && a != b implies key_view(#[trigger] u[a].0)
            != key_view(#[trigger] u[b].0) by {
            assert(u[a].0 == rows[a].0 && u[b].0 == rows[b].0);
        }
    }
    let lhs = rows_map(u);
    let rhs = rows_map(rows).insert(key_view(rows[j].0), c);
    assert forall|k: (Seq<char>, i64)| lhs.contains_key(k) <==> rhs.contains_key(k) by {
        lemma_rows_map_dom(u, k);
        lemma_rows_map_dom(rows, k);
        if exists|i: int| 0 <= i < u.len() && key_view(#[trigger] u[i].0) == k {
            let i = choose|i: int| 0 <= i < u.len() && key_view(#[trigger] u[i].0) == k;
            assert(rows[i].0 == u[i].0);
        }
        if exists|i: int| 0 <= i < rows.len() && key_view(#[trigger] rows[i].0) == k {
            let i = choose|i: int| 0 <= i < rows.len() && key_view(#[trigger] rows[i].0) == k;
            assert(rows[i].0 == u[i].0);
        }
    }
    assert forall|k: (Seq<char>, i64)| lhs.contains_key(k) implies lhs[k] == rhs[k] by {
        lemma_rows_map_dom(u, k);
        let i = choose|i: int| 0 <= i < u.len() && key_view(#[trigger] u[i].0) == k;
        lemma_rows_map_at(u, i);
        if i != j {
            assert(u[i] == rows[i]);
            lemma_rows_map_at(rows, i);
        }
    }
    assert(lhs =~= rhs);
}

/// Position of the row for `k`, if any.
fn find_row(rows: &NetChanges, k: &EntryKey) -> (r: Option<usize>)
    ensures
        r matches Some(j) ==> j < rows@.len() && key_view(rows@[j as int].0) == key_view(*k),
        r is None ==> forall|i: int| 0 <= i < rows@.len() ==> key_view(#[trigger] rows@[i].0) != key_view(*k),
{
    let mut i: usize = 0;
    while i < rows.len()
        invariant
            i <= rows@.len(),
            forall|m: int| 0 <= m < i ==> key_view(#[trigger] rows@[m].0) != key_view(*k),
        decreases rows@.len() - i,
    {
        if rows[i].0.1 == k.1 && rows[i].0.0 == k.0 {
            return Some(i);
        }
        i = i + 1;
    }
    None
}

/// `delta` applied on top of `base`.
pub fn apply_delta(base: &Changes, delta: &Changes) -> (r: Changes)
    ensures
        r == overlay(*base, *delta),
{
    let mut r = *base;
    if delta.status.is_some() {
        r.status = delta.status;
    }
    if delta.episode_progress.is_some() {
        r.episode_progress = delta.episode_progress;
    }
    if delta.score.is_some() {
        r.score = delta.score;
    }
    if delta.rewatch_count.is_some() {
        r.rewatch_count = delta.rewatch_count;
    }
    r
}

/// Replay a newest-first commit list into net per-entry state: for each
/// field, the most recent commit that set it wins. Rows come in the order in
/// which their entry first appears going from oldest to newest.
pub fn net_changes(commits_newest_first: &Vec<Commit>) -> (rows: NetChanges)
    ensures
        rows_distinct(rows@),
        rows_map(rows@) == replay(commits_newest_first@),
{
    let rows = net_changes_from(commits_newest_first, 0);
    assert(commits_newest_first@.subrange(0, commits_newest_first@.len() as int) =~= commits_newest_first@);
    rows
}

/// Net state after the commits from index `from` on (newest first): the
/// history as it stood at commit `from`.
pub fn net_changes_from(commits_newest_first: &Vec<Commit>, from: usize) -> (rows: NetChanges)
    requires
        from <= commits_newest_first@.len(),
    ensures
        rows_distinct(rows@),
        rows_map(rows@) == replay(commits_newest_first@.subrange(from as int, commits_newest_first@.len() as int)),
{
    let commits = commits_newest_first;
    let mut rows: NetChanges = Vec::new();
    let mut i = commits.len();
    assert(commits@.subrange(i as int, commits@.len() as int).len() == 0);
    assert(rows_map(rows@) =~= replay(commits@.subrange(i as int, commits@.len() as int)));
    while i > from
        invariant
            from <= i <= commits@.len(),
            rows_distinct(rows@),
            rows_map(rows@) == replay(commits@.subrange(i as int, commits@.len() as int)),
        decreases i,
    {
        i = i - 1;
        let commit = &commits[i];
        let key: EntryKey = (commit.catalog_ref.source.clone(), commit.catalog_ref.id);
        let ghost prev = rows@;
        let ghost tail = commits@.subrange(i as int, commits@.len() as int);
        proof {
            assert(tail.drop_first() =~= commits@.subrange(i + 1, commits@.len() as int));
            assert(tail[0] == commits@[i as int]);
        }
        match find_row(&rows, &key) {
            Some(j) => {
                let base = rows[j].1;
                let next = apply_delta(&base, &commit.changes);
                let k: EntryKey = (rows[j].0.0.clone(), rows[j].0.1);
                rows.set(j, (k, next));
                proof {
                    lemma_rows_map_update(prev, j as int, next);
                    lemma_rows_map_at(prev, j as int);
                    assert(rows@ == prev.update(j as int, (prev[j as int].0, next)));
                }
            },
            None => {
                let base = Changes::empty();
                let next = apply_delta(&base, &commit.changes);
                rows.push((key, next));
                proof {
                    assert(rows@.drop_last() == prev);
                    lemma_rows_map_dom(prev, key_view(key));
                    assert(rows_distinct(rows@)) by {
                        assert forall|a: int, b: int|
                            0 <= a < rows@.len() && 0 <= b < rows@.len() && a != b implies key_view(
                            #[trigger] rows@[a].0,
                        ) != key_view(#[trigger] rows@[b].0) by {
                            if a < prev.len() {
                                assert(rows@[a] == prev[a]);
                            }
                            if b < prev.len() {
                                assert(rows@[b] == prev[b]);
                            }
                        }
                    }
                }
            },
        }
    }
    rows
}

/// Row for `k` in a net state, if any.
pub fn lookup(rows: &NetChanges, k: &EntryKey) -> (r: Option<Changes>)
    requires
        rows_distinct(rows@),
    ensures
        r is Some == rows_map(rows@).contains_key(key_view(*k)),
        r matches Some(c) ==> c == rows_map(rows@)[key_view(*k)],
{
    proof {
        lemma_rows_map_dom(rows@, key_view(*k));
    }
    match find_row(rows, k) {
        Some(j) => {
            proof {
                lemma_rows_map_at(rows@, j as int);
            }
            Some(rows[j].1)
        },
        None => None,
    }
}

// ---------------------------------------------------------------------------
// Laws of replay
// ---------------------------------------------------------------------------

/// The status the newest commit for `k` that sets one gives, if any.
pub open spec fn newest_status(commits: Seq<Commit>, k: (Seq<char>, i64)) -> Option<WatchStatus>
    decreases commits.len(),
{
    if commits.len() == 0 {
        None
    } else if commit_key(commits[0]) == k && commits[0].changes.status is Some {
        commits[0].changes.status
    } else {
        newest_status(commits.drop_first(), k)
    }
}

/// The episode progress the newest commit for `k` that sets one gives, if any.
pub open spec fn newest_episode(commits: Seq<Commit>, k: (Seq<char>, i64)) -> Option<u32>
    decreases commits.len(),
{
    if commits.len() == 0 {
        None
    } else if commit_key(commits[0]) == k && commits[0].changes.episode_progress is Some {
        commits[0].changes.episode_progress
    } else {
        newest_episode(commits.drop_first(), k)
    }
}

/// The score the newest commit for `k` that sets one gives, if any.
pub open spec fn newest_score(commits: Seq<Commit>, k: (Seq<char>, i64)) -> Option<u8>
    decreases commits.len(),
{
    if commits.len() == 0 {
        None
    } else if commit_key(commits[0]) == k && commits[0].changes.score is Some {
        commits[0].changes.score
    } else {
        newest_score(commits.drop_first(), k)
    }
}

/// The rewatch count the newest commit for `k` that sets one gives, if any.
pub open spec fn newest_rewatch(commits: Seq<Commit>, k: (Seq<char>, i64)) -> Option<u32>
    decreases commits.len(),
{
    if commits.len() == 0 {
        None
    } else if commit_key(commits[0]) == k && commits[0].changes.rewatch_count is Some {
        commits[0].changes.rewatch_count
    } else {
        newest_rewatch(commits.drop_first(), k)
    }
}

/// Some commit in the list is about `k`.
pub open spec fn touches(commits: Seq<Commit>, k: (Seq<char>, i64)) -> bool {
    exists|i: int| 0 <= i < commits.len() && commit_key(#[trigger] commits[i]) == k
}

/// Last-set-wins: replaying a history yields a row exactly for the entries
/// some commit is about, and in each row every field holds the value of the
/// newest commit for that entry that set the field (unset if none did).
pub proof fn law_replay_is_last_set_wins(commits: Seq<Commit>, k: (Seq<char>, i64))
    ensures
        replay(commits).contains_key(k) == touches(commits, k),
        replay(commits).contains_key(k) ==> replay(commits)[k] == (Changes {
            status: newest_status(commits, k),
            episode_progress: newest_episode(commits, k),
            score: newest_score(commits, k),
            rewatch_count: newest_rewatch(commits, k),
        }),
    decreases commits.len(),
{
    if commits.len() > 0 {
        let rest = commits.drop_first();
        law_replay_is_last_set_wins(rest, k);
        if touches(rest, k) {
            let i = choose|i: int| 0 <= i < rest.len() && commit_key(#[trigger] rest[i]) == k;
            assert(commits[i + 1] == rest[i]);
        }
        if touches(commits, k) && commit_key(commits[0]) != k {
            let i = choose|i: int| 0 <= i < commits.len() && commit_key(#[trigger] commits[i]) == k;
            assert(rest[i - 1] == commits[i]);
        }
        if commit_key(commits[0]) == k {
            assert(touches(commits, k)) by {
                assert(commit_key(commits[0]) == k);
            }
            if !touches(rest, k) {
                assert(newest_status(rest, k) is None) by {
                    lemma_untouched_fields_unset(rest, k);
                }
                lemma_untouched_fields_unset(rest, k);
            }
        }
    }
}

proof fn lemma_untouched_fields_unset(commits: Seq<Commit>, k: (Seq<char>, i64))
    requires
        !touches(commits, k),
    ensures
        newest_status(commits, k) is None,
        newest_episode(commits, k) is None,
        newest_score(commits, k) is None,
        newest_rewatch(commits, k) is None,
    decreases commits.len(),
{
    if commits.len() > 0 {
        let rest = commits.drop_first();
        assert(!touches(rest, k)) by {
            if touches(rest, k) {
                let i = choose|i: int| 0 <= i < rest.len() && commit_key(#[trigger] rest[i]) == k;
                assert(commits[i + 1] == rest[i]);
            }
        }
        assert(commit_key(commits[0]) != k) by {
            if commit_key(commits[0]) == k {
                assert(touches(commits, k));
            }
        }
        lemma_untouched_fields_unset(rest, k);
    }
}

/// Recording a new commit changes the replayed state only for that commit's
/// entry, and there by laying the commit's changes over the previous state.
pub proof fn law_replay_new_commit(history: Seq<Commit>, c: Commit, k: (Seq<char>, i64))
    ensures
        k != commit_key(c) ==> (replay(seq![c] + history).contains_key(k) == replay(
            history,
        ).contains_key(k) && (replay(history).contains_key(k) ==> replay(seq![c] + history)[k]
            == replay(history)[k])),
        replay(seq![c] + history).contains_key(commit_key(c)),
        replay(seq![c] + history)[commit_key(c)] == overlay(
            if replay(history).contains_key(commit_key(c)) {
                replay(history)[commit_key(c)]
            } else {
                no_changes()
            },
            c.changes,
        ),
{
    let s = seq![c] + history;
    assert(s.drop_first() =~= history);
    assert(s[0] == c);
}

/// The replayed state of entry `k`, or no changes where history never touched it.
pub open spec fn state_at(commits: Seq<Commit>, k: (Seq<char>, i64)) -> Changes {
    if replay(commits).contains_key(k) {
        replay(commits)[k]
    } else {
        no_changes()
    }
}

/// Recording commits about distinct entries, one after another (`new` is
/// newest first, like a history walk): each of those entries ends up with
/// its commit's changes laid over its state before, and every other entry
/// keeps its state.
pub proof fn law_replay_distinct_commits(history: Seq<Commit>, new: Seq<Commit>, k: (Seq<char>, i64))
    requires
        forall|i: int, j: int| 0 <= i < j < new.len() ==> commit_key(#[trigger] new[i]) != commit_key(#[trigger] new[j]),
    ensures
        forall|i: int| 0 <= i < new.len() && commit_key(#[trigger] new[i]) == k ==> {
            &&& replay(new + history).contains_key(k)
            &&& replay(new + history)[k] == overlay(state_at(history, k), new[i].changes)
        },
        (forall|i: int| 0 <= i < new.len() ==> commit_key(#[trigger] new[i]) != k) ==> {
            &&& replay(new + history).contains_key(k) == replay(history).contains_key(k)
            &&& state_at(new + history, k) == state_at(history, k)
        },
    decreases new.len(),
{
    if new.len() > 0 {
        let rest = new.drop_first();
        assert forall|i: int, j: int| 0 <= i < j < rest.len() implies commit_key(#[trigger] rest[i]) != commit_key(
            #[trigger] rest[j],
        ) by {
            assert(rest[i] == new[i + 1] && rest[j] == new[j + 1]);
        }
        law_replay_distinct_commits(history, rest, k);
        assert(new + history =~= seq![new[0]] + (rest + history));
        law_replay_new_commit(rest + history, new[0], k);
        if commit_key(new[0]) == k {
            assert forall|i: int| 0 <= i < rest.len() implies commit_key(#[trigger] rest[i]) != k by {
                assert(rest[i] == new[i + 1]);
            }
            assert forall|i: int| 0 <= i < new.len() && commit_key(#[trigger] new[i]) == k implies i == 0 by {}
        } else {
            assert forall|i: int| 0 <= i < new.len() && commit_key(#[trigger] new[i]) == k implies {
                &&& replay(new + history).contains_key(k)
                &&& replay(new + history)[k] == overlay(state_at(history, k), new[i].changes)
            } by {
                assert(rest[i - 1] == new[i]);
            }
            if forall|i: int| 0 <= i < new.len() ==> commit_key(#[trigger] new[i]) != k {
                assert forall|i: int| 0 <= i < rest.len() implies commit_key(#[trigger] rest[i]) != k by {
                    assert(rest[i] == new[i + 1]);
                }
            }
        }
    } else {
        assert(new + history =~= history);
    }
}

} // verus!
