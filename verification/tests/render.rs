use anigit::catalog::{AiringStatus, CatalogEntry};
use anigit::model::{CatalogRef, Changes, WatchStatus};
use anigit::order::{dedup_sorted, sort_keys};
use anigit::render::{changes_lines, compare_entry_lines, compare_keys, comparison_lines, diff_lines, display_name, field_line};

fn c(status: Option<WatchStatus>, episode: Option<u32>, score: Option<u8>, rewatch: Option<u32>) -> Changes {
    Changes { status, episode_progress: episode, score, rewatch_count: rewatch }
}

fn anilist(id: i64) -> CatalogRef {
    CatalogRef { source: "anilist".into(), id }
}

#[test]
fn changes_lines_list_the_set_fields_in_order() {
    assert_eq!(
        changes_lines(&c(Some(WatchStatus::Completed), Some(24), None, Some(2))),
        vec!["status: completed", "episode_progress: 24", "rewatch_count: 2"]
    );
    assert!(changes_lines(&Changes::default()).is_empty());
}

#[test]
fn diff_shows_only_differing_fields() {
    assert_eq!(field_line("score", Some("7".into()), Some("7".into())), None);
    assert_eq!(field_line("score", None, Some("7".into())), Some("  score: (unset) -> 7".to_string()));
    let from = c(Some(WatchStatus::Watching), Some(3), None, None);
    let to = c(Some(WatchStatus::Watching), Some(4), Some(9), None);
    assert_eq!(
        diff_lines(&anilist(1), &from, &anilist(1), &to),
        vec!["  episode_progress: 3 -> 4", "  score: (unset) -> 9"]
    );
    assert_eq!(diff_lines(&anilist(1), &from, &anilist(1), &from), vec!["No changes."]);
    assert_eq!(
        diff_lines(&anilist(1), &from, &anilist(2), &from),
        vec!["anime: anilist/1 -> anilist/2"]
    );
}

#[test]
fn comparison_rows_mark_differences() {
    let mine = c(Some(WatchStatus::Watching), None, Some(8), None);
    let theirs = c(Some(WatchStatus::Watching), None, Some(6), None);
    assert_eq!(
        comparison_lines("yours", "theirs", &mine, &theirs),
        vec![
            "    status: yours=watching theirs=watching",
            "    score: yours=8 theirs=6  << differs",
        ]
    );
    assert_eq!(compare_entry_lines("x", Some(mine), Some(mine)), vec!["= x — identical"]);
    assert_eq!(
        compare_entry_lines("x", None, Some(theirs)),
        vec![
            "> x — only in theirs",
            "    status: yours=(unset) theirs=watching  << differs",
            "    score: yours=(unset) theirs=6  << differs",
        ]
    );
    assert_eq!(compare_entry_lines("x", Some(mine), Some(theirs))[0], "~ x");
    assert_eq!(compare_entry_lines("x", Some(mine), None)[0], "< x — only in yours");
}

#[test]
fn entries_are_named_after_their_catalog_title() {
    let e = CatalogEntry {
        id: 1,
        title_romaji: Some("Kaubooi Bibappu".into()),
        title_english: Some("Cowboy Bebop".into()),
        format: None,
        episodes: None,
        description: None,
        status: AiringStatus::Finished,
        start_date: None,
        end_date: None,
        genres: Vec::new(),
        tags: Vec::new(),
        last_updated: String::new(),
    };
    assert_eq!(display_name(Some(&e), &("anilist".into(), 1)), "'Cowboy Bebop' (anilist/1)");
    assert_eq!(display_name(None, &("anilist".into(), 1)), "anilist/1");
    assert_eq!(display_name(Some(&e), &("mal".into(), 1)), "mal/1");
    assert_eq!(display_name(None, &("anilist".into(), -3)), "anilist/-3");
}

#[test]
fn compare_walks_every_key_once_in_order() {
    let mine = vec![(("anilist".to_string(), 5), Changes::default()), (("anilist".to_string(), 1), Changes::default())];
    let theirs = vec![(("anilist".to_string(), 1), Changes::default()), (("mal".to_string(), 2), Changes::default())];
    assert_eq!(
        compare_keys(&mine, &theirs),
        vec![("anilist".to_string(), 1), ("anilist".to_string(), 5), ("mal".to_string(), 2)]
    );
    let sorted = sort_keys(vec![("b".to_string(), 1), ("a".to_string(), 2), ("a".to_string(), 1), ("a".to_string(), 2)]);
    assert_eq!(sorted, vec![("a".to_string(), 1), ("a".to_string(), 2), ("a".to_string(), 2), ("b".to_string(), 1)]);
    assert_eq!(dedup_sorted(sorted), vec![("a".to_string(), 1), ("a".to_string(), 2), ("b".to_string(), 1)]);
}
