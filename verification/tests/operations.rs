use anigit::catalog::{AiringStatus, CatalogEntry};
use anigit::cli::{apply_config_action, ConfigAction, KindArg, VisibilityArg};
use anigit::commands::branch::{checkout, create_branch, create_tag, delete_branch, Checkout, DeleteError, NewBranch, TagError};
use anigit::commands::clone_fork::{check_destination, check_source, copies_entry, destination_for, CloneError};
use anigit::commands::remote;
use anigit::model::{CatalogRef, Changes, Commit, RepoConfig, RepoKind, Visibility, WatchStatus};
use anigit::order::{dedup_sorted, sort_keys};
use anigit::replay::net_changes;
use anigit::repo::{branch_from_head, parse_ref, short_id, validate_ref_name, DiscoverStep, Repo, RepoError};
use anigit::tree::{leaf_content, plan_tree};

#[test]
fn ref_names_that_could_escape_are_refused() {
    assert!(validate_ref_name("feature", "branch").is_ok());
    for bad in ["", ".", "..", "a/b", "a\\b", "two words", "tab\there"] {
        assert_eq!(
            validate_ref_name(bad, "branch"),
            Err(RepoError::InvalidRefName { kind: "branch".into(), name: bad.into() })
        );
    }
    assert_eq!(parse_ref("  c_abc\n"), Some("c_abc".to_string()));
    assert_eq!(parse_ref(" \n"), None);
    assert_eq!(branch_from_head("main\n"), "main");
    assert_eq!(short_id("c_0123456789abcdef"), "c_012345678");
    assert_eq!(short_id("c_1"), "c_1");
}

#[test]
fn branches_are_created_from_the_current_head() {
    match create_branch("dev", false, Some("c_h".into())) {
        Ok(NewBranch::At(h)) => assert_eq!(h, "c_h"),
        other => panic!("unexpected {other:?}"),
    }
    assert!(matches!(create_branch("dev", false, None), Ok(NewBranch::Empty)));
    assert_eq!(
        create_branch("dev", true, None).err(),
        Some(RepoError::BranchExists { name: "dev".into() })
    );
    assert!(matches!(create_branch("a b", false, None), Err(RepoError::InvalidRefName { .. })));
    assert_eq!(checkout("dev", true, "dev"), Ok(Checkout::AlreadyOn));
    assert_eq!(checkout("dev", true, "main"), Ok(Checkout::Switch));
    assert_eq!(checkout("nope", false, "main"), Err(RepoError::NoSuchBranch { name: "nope".into() }));
}

#[test]
fn tags_mark_the_head_and_are_never_overwritten() {
    assert_eq!(create_tag("v1", "main", Some("c_h".into()), false), Ok("c_h".to_string()));
    assert_eq!(create_tag("v1", "main", None, false), Err(TagError::NoCommits { branch: "main".into() }));
    assert_eq!(
        create_tag("v1", "main", Some("c_h".into()), true),
        Err(TagError::Repo(RepoError::TagExists { name: "v1".into() }))
    );
}

#[test]
fn deleting_a_branch_keeps_history_reachable_unless_forced() {
    let ids = vec!["c_1".to_string(), "c_2".to_string()];
    let others = vec![vec!["c_2".to_string()], vec!["c_1".to_string(), "c_0".to_string()]];
    assert_eq!(delete_branch("dev", true, "main", &ids, &others, false), Ok(()));
    let lonely = vec![vec!["c_2".to_string()]];
    assert_eq!(
        delete_branch("dev", true, "main", &ids, &lonely, false),
        Err(DeleteError::NotFullyMerged { name: "dev".into() })
    );
    assert_eq!(delete_branch("dev", true, "main", &ids, &lonely, true), Ok(()));
    assert_eq!(
        delete_branch("main", true, "main", &ids, &others, true),
        Err(DeleteError::CurrentBranch { name: "main".into() })
    );
    assert_eq!(
        delete_branch("gone", false, "main", &ids, &others, false),
        Err(DeleteError::NoSuchBranch { name: "gone".into() })
    );
}

#[test]
fn clone_accepts_local_repositories_only() {
    assert_eq!(check_source("https://example.com/list", true), Err(CloneError::RemoteUnsupported));
    assert_eq!(check_source("../friend", false), Err(CloneError::NotARepo { url: "../friend".into() }));
    assert_eq!(check_source("../friend", true), Ok(()));
    assert_eq!(destination_for("../friend", Some("mine"), Some("friend")), Ok("mine".to_string()));
    assert_eq!(destination_for("../friend", None, Some("friend")), Ok("friend".to_string()));
    assert_eq!(destination_for("/", None, None), Err(CloneError::NoDestinationName { url: "/".into() }));
    assert_eq!(check_destination("mine", true), Err(CloneError::DestinationExists { dest: "mine".into() }));
    assert_eq!(check_destination("mine", false), Ok(()));
    assert!(!copies_entry("STAGED", ".anigit"));
    assert!(copies_entry("STAGED", "objects"));
    assert!(copies_entry("HEAD", ".anigit"));
}

#[test]
fn remote_actions_are_not_available_yet() {
    assert!(matches!(remote::add("origin", "x"), Err(remote::RemoteError::NotYetImplemented { action: "add" })));
    assert!(matches!(remote::remove("origin"), Err(remote::RemoteError::NotYetImplemented { action: "remove" })));
    assert!(matches!(remote::list(), Err(remote::RemoteError::NotYetImplemented { action: "list" })));
}

#[test]
fn config_actions_change_one_setting() {
    let (c, save) = apply_config_action(RepoConfig::default(), &ConfigAction::SetKind { kind: KindArg::Shared });
    assert!(save);
    assert_eq!(c.repo_kind, RepoKind::Shared);
    assert_eq!(c.visibility, Visibility::Private);
    let (c, save) = apply_config_action(c, &ConfigAction::SetVisibility { visibility: VisibilityArg::PublicViewOnly });
    assert!(save);
    assert_eq!(c.visibility, Visibility::PublicViewOnly);
    assert_eq!(c.repo_kind, RepoKind::Shared);
    let (c, save) = apply_config_action(c, &ConfigAction::Show);
    assert!(!save);
    assert_eq!(c.owner, "local-user");
    let forked = c.with_fork_provenance("../friend");
    assert_eq!(forked.forked_from.unwrap().source, "../friend");
}

fn catalog_entry(id: i64, title: &str, episodes: Option<u32>) -> CatalogEntry {
    CatalogEntry {
        id,
        title_romaji: Some(title.to_string()),
        title_english: None,
        format: None,
        episodes,
        description: None,
        status: AiringStatus::Finished,
        start_date: None,
        end_date: None,
        genres: Vec::new(),
        tags: Vec::new(),
        last_updated: String::new(),
    }
}

#[test]
fn the_tree_has_one_leaf_per_episode_under_the_status_folder() {
    let key30 = ("anilist".to_string(), 30i64);
    let key7 = ("anilist".to_string(), 7i64);
    let key8 = ("anilist".to_string(), 8i64);
    let state = vec![
        (key30.clone(), Changes { status: Some(WatchStatus::Watching), episode_progress: Some(3), score: None, rewatch_count: None }),
        (key7.clone(), Changes { status: Some(WatchStatus::Planning), episode_progress: None, score: None, rewatch_count: None }),
        (key8.clone(), Changes { status: Some(WatchStatus::Watching), episode_progress: Some(1), score: None, rewatch_count: None }),
    ];
    let keys = vec![key7.clone(), key8.clone(), key30.clone()];
    let found = vec![None, Some(catalog_entry(8, "Fate/Zero", None)), Some(catalog_entry(30, "Fate/Zero", Some(25)))];
    let plan = plan_tree(&state, &keys, &found);
    assert_eq!(plan.len(), 3);
    assert_eq!((plan[0].label.as_str(), plan[0].folder.as_str()), ("planning", "anilist-7"));
    assert!(plan[0].leaves.is_empty());
    assert_eq!((plan[1].label.as_str(), plan[1].folder.as_str()), ("watching", "Fate-Zero"));
    assert_eq!(plan[2].folder, "Fate-Zero (anilist-30)");
    assert_eq!(plan[2].leaves.len(), 3);
    assert_eq!(plan[2].leaves[1], leaf_content("Fate/Zero", 2, Some(25), &key30));
    assert_eq!(
        leaf_content("Fate/Zero", 2, Some(25), &key30),
        "# auto-generated by anigit — do not edit; deleted and rebuilt on every commit\nanime: Fate/Zero\nepisode: 2 of 25\ncatalog: anilist/30\n"
    );
}

#[test]
fn repository_files_sit_under_the_anigit_directory() {
    assert_eq!(Repo::candidate("/home/me/list"), "/home/me/list/.anigit");
    let repo = Repo { root: "/home/me/list/.anigit".to_string() };
    assert_eq!(repo.head_path(), "/home/me/list/.anigit/HEAD");
    assert_eq!(repo.staged_path(), "/home/me/list/.anigit/STAGED");
    assert_eq!(repo.reflog_path(), "/home/me/list/.anigit/logs/HEAD");
    assert_eq!(repo.branch_ref_path("dev"), "/home/me/list/.anigit/refs/branches/dev");
    assert_eq!(repo.tags_dir(), "/home/me/list/.anigit/refs/tags");
    assert_eq!(repo.commit_path("c_1"), "/home/me/list/.anigit/objects/commits/c_1.json");
}

#[test]
fn discovery_walks_up_until_a_repository_or_the_root() {
    match Repo::discover("/home/me/list", true) {
        DiscoverStep::Found(repo) => assert_eq!(repo.root, "/home/me/list/.anigit"),
        _ => panic!("expected the repository"),
    }
    match Repo::discover("/home/me/list", false) {
        DiscoverStep::Up(parent) => assert_eq!(parent, "/home/me"),
        _ => panic!("expected the parent"),
    }
    assert!(matches!(Repo::discover("/", false), DiscoverStep::NotARepo));
}

#[test]
fn the_tree_plan_is_rebuilt_from_the_replayed_state() {
    let c = |parents: Vec<String>, id: i64, status: WatchStatus, progress: Option<u32>, msg: &str| {
        Commit::new(
            parents,
            "main".to_string(),
            CatalogRef { source: "anilist".to_string(), id },
            Changes { status: Some(status), episode_progress: progress, score: None, rewatch_count: None },
            msg.to_string(),
        )
    };
    let c1 = c(Vec::new(), 30, WatchStatus::Watching, Some(3), "start");
    let c2 = c(vec![c1.id.clone()], 21519, WatchStatus::Planning, None, "plan");
    let plan_for = |history: &Vec<Commit>| {
        let state = net_changes(history);
        let keys = dedup_sorted(sort_keys(state.iter().map(|(k, _)| k.clone()).collect()));
        let found = vec![None; keys.len()];
        plan_tree(&state, &keys, &found)
    };
    let plan = plan_for(&vec![c2.clone(), c1.clone()]);
    assert_eq!(plan.len(), 2);
    assert_eq!((plan[0].label.as_str(), plan[0].leaves.len()), ("watching", 3));
    assert!(plan[0].leaves.iter().all(|l| l.contains("auto-generated") && l.contains("anilist/30")));
    assert_eq!((plan[1].label.as_str(), plan[1].leaves.len()), ("planning", 0));
    let c3 = c(vec![c2.id.clone()], 30, WatchStatus::Completed, Some(5), "done");
    let plan = plan_for(&vec![c3, c2, c1]);
    assert_eq!((plan[0].label.as_str(), plan[0].leaves.len()), ("completed", 5));
    assert!(plan.iter().all(|p| p.label != "watching"));
}

#[test]
fn a_suffixed_name_that_is_taken_is_suffixed_again() {
    let keys: Vec<(String, i64)> = (1..=3).map(|id| ("anilist".to_string(), id)).collect();
    let state: Vec<_> = keys
        .iter()
        .map(|k| (k.clone(), Changes { status: Some(WatchStatus::Watching), episode_progress: None, score: None, rewatch_count: None }))
        .collect();
    let found = vec![
        Some(catalog_entry(1, "A", None)),
        Some(catalog_entry(2, "A (anilist-3)", None)),
        Some(catalog_entry(3, "A", None)),
    ];
    let plan = plan_tree(&state, &keys, &found);
    let folders: Vec<&str> = plan.iter().map(|p| p.folder.as_str()).collect();
    assert_eq!(folders, vec!["A", "A (anilist-3)", "A (anilist-3) (anilist-3)"]);
}
