use anigit::commands::blame::{blame_field, blame_heading, blame_line};
use anigit::commands::commit::{run as commit_run, CommitError};
use anigit::commands::log::{log_lines, reflog_line};
use anigit::commands::merge::{common_ancestor, merge_commits, merge_entry, plan_merge, run as merge_run, MergeError};
use anigit::model::{CatalogRef, Changes, Commit, CommitAction, MetaValue, RepoKind, StagedEntry, WatchStatus};
use anigit::replay::{lookup, net_changes, net_changes_from};
use anigit::repo::ReflogEntry;
use anigit::revert::{plan_revert, RevertError};
use anigit::commands::blame::sort_candidates;
use anigit::catalog::{AiringStatus, CatalogEntry};

fn anilist(id: i64) -> CatalogRef {
    CatalogRef { source: "anilist".to_string(), id }
}

fn changes(status: Option<WatchStatus>, episode: Option<u32>, score: Option<u8>, rewatch: Option<u32>) -> Changes {
    Changes { status, episode_progress: episode, score, rewatch_count: rewatch }
}

fn commit(parent: Option<&Commit>, id: i64, c: Changes, msg: &str) -> Commit {
    let parents = match parent {
        Some(p) => vec![p.id.clone()],
        None => Vec::new(),
    };
    Commit::new(parents, "main".to_string(), anilist(id), c, msg.to_string())
}

fn key(id: i64) -> (String, i64) {
    ("anilist".to_string(), id)
}

#[test]
fn replay_keeps_the_newest_value_of_each_field() {
    let c1 = commit(None, 30, changes(Some(WatchStatus::Watching), Some(3), None, None), "start");
    let c2 = commit(Some(&c1), 30, changes(None, Some(7), Some(8), None), "more");
    let c3 = commit(Some(&c2), 5, changes(Some(WatchStatus::Planning), None, None, None), "plan");
    let history = vec![c3, c2, c1];
    let rows = net_changes(&history);
    assert_eq!(rows.len(), 2);
    assert_eq!(
        lookup(&rows, &key(30)),
        Some(changes(Some(WatchStatus::Watching), Some(7), Some(8), None))
    );
    assert_eq!(lookup(&rows, &key(5)), Some(changes(Some(WatchStatus::Planning), None, None, None)));
    assert_eq!(lookup(&rows, &key(99)), None);
    let before_newest = net_changes_from(&history, 1);
    assert_eq!(before_newest.len(), 1);
    assert_eq!(lookup(&before_newest, &key(5)), None);
}

#[test]
fn commit_needs_something_staged_and_chains_onto_the_head() {
    let staged = StagedEntry {
        catalog_ref: anilist(30),
        anime_title: "Cowboy Bebop".to_string(),
        changes: changes(Some(WatchStatus::Watching), Some(1), None, None),
    };
    assert_eq!(
        commit_run(None, "main", Some("c_x".into()), None, "m", false).unwrap_err(),
        CommitError::NothingStaged
    );
    let c = commit_run(Some(staged.clone()), "main", Some("c_head".into()), None, "first", false).unwrap();
    assert_eq!(c.parent_ids, vec!["c_head".to_string()]);
    assert_eq!(c.branch, "main");
    assert_eq!(c.message, "first");
    assert_eq!(c.changes, staged.changes);
    assert_eq!(c.action, CommitAction::Commit);
    assert!(c.id.starts_with("c_") && c.id.len() == 34);
    let root = commit_run(Some(staged), "main", None, None, "root", false).unwrap();
    assert!(root.parent_ids.is_empty());
}

#[test]
fn amend_takes_the_heads_place() {
    let base = commit(None, 30, changes(Some(WatchStatus::Watching), None, None, None), "base");
    let head = commit(Some(&base), 30, changes(None, Some(4), None, None), "typo");
    assert_eq!(
        commit_run(None, "dev", None, None, "x", true).unwrap_err(),
        CommitError::NothingToAmend { branch: "dev".to_string() }
    );
    let amended = commit_run(None, "main", Some(head.id.clone()), Some(head.clone()), "fixed", true).unwrap();
    assert_eq!(amended.parent_ids, vec![base.id.clone()]);
    assert_eq!(amended.changes, head.changes);
    assert_eq!(amended.message, "fixed");
    assert_ne!(amended.id, head.id);
}

#[test]
fn counts_take_the_larger_value_and_one_sided_changes_win() {
    let base = changes(Some(WatchStatus::Watching), Some(3), Some(7), None);
    let ours = changes(Some(WatchStatus::Watching), Some(5), Some(7), None);
    let theirs = changes(Some(WatchStatus::Watching), Some(9), Some(8), Some(1));
    let (merged, status_conflict, score_conflict) = merge_entry(&base, &ours, &theirs);
    assert!(!status_conflict && !score_conflict);
    assert_eq!(merged, changes(Some(WatchStatus::Watching), Some(9), Some(8), Some(1)));
    let smaller = changes(Some(WatchStatus::Watching), Some(4), Some(7), None);
    let (merged, _, _) = merge_entry(&base, &ours, &smaller);
    assert_eq!(merged.episode_progress, Some(5));
}

#[test]
fn subjective_fields_changed_on_both_sides_conflict() {
    let base = changes(Some(WatchStatus::Watching), None, Some(7), None);
    let ours = changes(Some(WatchStatus::Completed), None, Some(9), None);
    let theirs = changes(Some(WatchStatus::Dropped), None, Some(9), None);
    let (_, status_conflict, score_conflict) = merge_entry(&base, &ours, &theirs);
    assert!(status_conflict);
    assert!(!score_conflict);
}

#[test]
fn merge_is_refused_on_single_user_repos_and_missing_branches() {
    assert!(matches!(merge_run("dev", RepoKind::SingleUser, true, &Vec::new(), &Vec::new()), Err(MergeError::SingleUserRepo)));
    match merge_run("dev", RepoKind::Shared, false, &Vec::new(), &Vec::new()) {
        Err(MergeError::NoSuchBranch { name }) => assert_eq!(name, "dev"),
        other => panic!("unexpected {other:?}"),
    }
}

#[test]
fn merge_brings_over_what_the_other_branch_changed() {
    let root = commit(None, 30, changes(Some(WatchStatus::Watching), Some(2), None, None), "root");
    let ours1 = commit(Some(&root), 30, changes(None, Some(4), None, None), "ours");
    let theirs1 = commit(Some(&root), 30, changes(None, Some(6), Some(9), None), "theirs");
    let theirs2 = commit(Some(&theirs1), 5, changes(Some(WatchStatus::Planning), None, None, None), "new show");
    let ours = vec![ours1.clone(), root.clone()];
    let theirs = vec![theirs2.clone(), theirs1.clone(), root.clone()];
    assert_eq!(common_ancestor(&ours, &theirs), Some(1));
    let deltas = merge_run("dev", RepoKind::Shared, true, &ours, &theirs).unwrap();
    assert_eq!(deltas.len(), 2);
    assert_eq!(lookup(&deltas, &key(30)), Some(changes(None, Some(6), Some(9), None)));
    assert_eq!(lookup(&deltas, &key(5)), Some(changes(Some(WatchStatus::Planning), None, None, None)));

    let commits = merge_commits(&deltas, "main", "dev", Some(ours1.id.clone()), &theirs2.id);
    assert_eq!(commits.len(), 2);
    assert_eq!(commits[0].parent_ids, vec![ours1.id.clone(), theirs2.id.clone()]);
    assert_eq!(commits[1].parent_ids, vec![commits[0].id.clone()]);
    assert!(commits.iter().all(|c| c.action == CommitAction::Merge && c.message == "Merge branch 'dev'" && c.branch == "main"));
}

#[test]
fn merging_an_already_merged_branch_records_nothing() {
    let root = commit(None, 30, changes(Some(WatchStatus::Watching), Some(2), None, None), "root");
    let ours1 = commit(Some(&root), 30, changes(None, Some(4), None, None), "ours");
    let ours = vec![ours1, root.clone()];
    let theirs = vec![root];
    assert!(merge_run("dev", RepoKind::Shared, true, &ours, &theirs).unwrap().is_empty());
}

#[test]
fn merge_conflicts_list_every_conflicting_entry() {
    let root = commit(None, 30, changes(Some(WatchStatus::Watching), None, Some(5), None), "root");
    let ours1 = commit(Some(&root), 30, changes(Some(WatchStatus::Completed), None, None, None), "done");
    let theirs1 = commit(Some(&root), 30, changes(Some(WatchStatus::Dropped), None, None, None), "dropped");
    let ours = vec![ours1, root.clone()];
    let theirs = vec![theirs1, root];
    match merge_run("dev", RepoKind::Shared, true, &ours, &theirs) {
        Err(MergeError::Conflicts(cs)) => {
            assert_eq!(cs.len(), 1);
            assert_eq!((cs[0].source.as_str(), cs[0].id), ("anilist", 30));
            assert!(cs[0].status && !cs[0].score);
            assert_eq!(cs[0].ours.status, Some(WatchStatus::Completed));
            assert_eq!(cs[0].theirs.status, Some(WatchStatus::Dropped));
        }
        other => panic!("unexpected {other:?}"),
    }
    let base = net_changes(&Vec::new());
    let ours_rows = vec![(key(1), changes(None, Some(3), None, None))];
    let theirs_rows = vec![(key(1), changes(None, Some(2), None, None))];
    let deltas = plan_merge(&base, &ours_rows, &theirs_rows).unwrap();
    assert!(deltas.is_empty());
}

#[test]
fn revert_restores_prior_values_and_refuses_merges() {
    let c1 = commit(None, 30, changes(Some(WatchStatus::Watching), Some(3), None, None), "start");
    let c2 = commit(Some(&c1), 30, changes(Some(WatchStatus::Dropped), None, None, None), "oops");
    let history = vec![c2.clone(), c1.clone()];
    let ancestry = vec![c1.clone()];
    let plan = plan_revert(&c2, "main", Some(c2.id.clone()), &history, &ancestry).ok().unwrap();
    assert_eq!(plan.commit.changes, changes(Some(WatchStatus::Watching), None, None, None));
    assert_eq!(plan.commit.parent_ids, vec![c2.id.clone()]);
    assert_eq!(plan.commit.message, format!("Revert \"oops\" ({})", &c2.id[..11]));
    assert_eq!(plan.commit.metadata, vec![("reverts".to_string(), MetaValue::Text(c2.id.clone()))]);
    assert_eq!(plan.summary, vec!["  status: dropped -> watching".to_string()]);

    let mut merge = c2.clone();
    merge.action = CommitAction::Merge;
    assert!(matches!(plan_revert(&merge, "main", Some(c2.id.clone()), &history, &ancestry), Err(RevertError::MergeCommit)));
    assert!(matches!(
        plan_revert(&c2, "main", None, &history, &ancestry),
        Err(RevertError::NoCommits { .. })
    ));
    match plan_revert(&c1, "main", Some(c2.id.clone()), &history, &Vec::new()) {
        Err(RevertError::NothingToRevert { target_id, notes }) => {
            assert_eq!(target_id, c1.id);
            assert_eq!(notes.len(), 2);
            assert!(notes[0].starts_with("  status: skipped"));
        }
        _ => panic!("expected nothing to revert"),
    }
}

#[test]
fn blame_finds_the_newest_commit_setting_each_field() {
    let c1 = commit(None, 30, changes(Some(WatchStatus::Watching), Some(3), None, None), "start");
    let c2 = commit(Some(&c1), 7, changes(None, Some(9), None, None), "other show");
    let c3 = commit(Some(&c2), 30, changes(None, Some(5), None, None), "more");
    let history = vec![c3.clone(), c2, c1.clone()];
    assert_eq!(blame_field(&history, &key(30), 0), Some(2));
    assert_eq!(blame_field(&history, &key(30), 1), Some(0));
    assert_eq!(blame_field(&history, &key(30), 2), None);
    assert_eq!(
        blame_line(1, Some(&c3)),
        format!("  episode_progress: 5  ({} {} \"more\")", &c3.id[..11], c3.timestamp)
    );
    assert_eq!(blame_line(2, None), "  score: never set for this anime");
    assert_eq!(blame_line(0, Some(&c1)), format!("  status: watching  ({} {} \"start\")", &c1.id[..11], c1.timestamp));
    assert_eq!(blame_heading("Cowboy Bebop", 1, "main"), "Blame for 'Cowboy Bebop' (anilist/1) on branch main:");
}

#[test]
fn log_lines_follow_the_chosen_layout() {
    let mut c = commit(None, 30, changes(None, Some(1), None, None), "hello");
    c.timestamp = "2026-01-01T00:00:00+00:00".to_string();
    let short = c.id[..11].to_string();
    assert_eq!(log_lines(&c, true, false), vec![format!("{short} hello")]);
    assert_eq!(
        log_lines(&c, false, false),
        vec![
            format!("commit {}", c.id),
            "Date:   2026-01-01T00:00:00+00:00".to_string(),
            String::new(),
            "    hello".to_string(),
            String::new(),
        ]
    );
    c.parent_ids = vec!["c_a".into(), "c_b".into()];
    assert_eq!(log_lines(&c, true, true), vec![format!("* {short} hello"), "|\\".to_string()]);
    assert_eq!(
        log_lines(&c, false, true),
        vec![
            format!("* commit {} (merge)", c.id),
            "|\\".to_string(),
            "| Date:   2026-01-01T00:00:00+00:00".to_string(),
            "| ".to_string(),
            "|     hello".to_string(),
            "| ".to_string(),
        ]
    );
}

#[test]
fn reflog_lines_show_the_move() {
    let e = ReflogEntry {
        branch: "main".into(),
        old_id: Some("c_0123456789abcdef".into()),
        new_id: "c_fedcba9876543210".into(),
        timestamp: "2026-01-01T00:00:00+00:00".into(),
        reason: "commit".into(),
    };
    assert_eq!(
        reflog_line(&e, 0),
        "c_fedcba987 main@{0}: commit: was c_012345678  (2026-01-01T00:00:00+00:00)"
    );
    let first = ReflogEntry { old_id: None, ..e };
    assert_eq!(
        reflog_line(&first, 12),
        "c_fedcba987 main@{12}: commit: first commit on branch  (2026-01-01T00:00:00+00:00)"
    );
}

#[test]
fn blame_candidates_sort_case_insensitively_and_stably() {
    let e = |id: i64, t: &str| CatalogEntry {
        id,
        title_romaji: Some(t.to_string()),
        title_english: None,
        format: None,
        episodes: None,
        description: None,
        status: AiringStatus::Finished,
        start_date: None,
        end_date: None,
        genres: Vec::new(),
        tags: Vec::new(),
        last_updated: String::new(),
    };
    let sorted = sort_candidates(vec![e(1, "beta"), e(2, "Alpha"), e(3, "BETA"), e(4, "alpha zero")]);
    assert_eq!(sorted.iter().map(|c| c.id).collect::<Vec<_>>(), vec![2, 4, 1, 3]);
}

#[test]
fn after_a_merge_the_branch_replays_to_the_merged_state() {
    let root = commit(None, 30, changes(Some(WatchStatus::Watching), Some(2), Some(6), None), "root");
    let ours1 = commit(Some(&root), 30, changes(None, Some(4), None, None), "ours");
    let ours2 = commit(Some(&ours1), 8, changes(Some(WatchStatus::Completed), None, None, None), "mine only");
    let theirs1 = commit(Some(&root), 30, changes(None, Some(3), Some(9), Some(1)), "theirs");
    let ours = vec![ours2.clone(), ours1.clone(), root.clone()];
    let theirs = vec![theirs1.clone(), root.clone()];
    let deltas = merge_run("dev", RepoKind::Shared, true, &ours, &theirs).unwrap();
    let recorded = merge_commits(&deltas, "main", "dev", Some(ours2.id.clone()), &theirs1.id);
    let mut after: Vec<Commit> = recorded.into_iter().rev().collect();
    after.extend(ours);
    let state = net_changes(&after);
    assert_eq!(lookup(&state, &key(30)), Some(changes(Some(WatchStatus::Watching), Some(4), Some(9), Some(1))));
    assert_eq!(lookup(&state, &key(8)), Some(changes(Some(WatchStatus::Completed), None, None, None)));
}

#[test]
fn commits_from_a_newer_format_are_refused() {
    let mut c = commit(None, 1, changes(None, Some(1), None, None), "x");
    assert!(anigit::repo::check_schema(c.clone()).is_ok());
    c.schema_version = 2;
    let id = c.id.clone();
    assert_eq!(
        anigit::repo::check_schema(c).err(),
        Some(anigit::repo::RepoError::NewerSchema { id, schema_version: 2 })
    );
}

#[test]
fn the_reflog_reason_follows_how_the_head_moved() {
    let base = commit(None, 1, changes(None, Some(1), None, None), "base");
    let next = commit(Some(&base), 1, changes(None, Some(2), None, None), "next");
    assert_eq!(anigit::repo::reflog_reason(&next, &Some(base.id.clone())), "commit");
    assert_eq!(anigit::repo::reflog_reason(&next, &Some("c_other".into())), "amend");
    assert_eq!(anigit::repo::reflog_reason(&base, &None), "commit");
    let mut merged = next.clone();
    merged.action = CommitAction::Merge;
    assert_eq!(anigit::repo::reflog_reason(&merged, &Some("c_other".into())), "merge");
}
