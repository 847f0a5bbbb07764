use anigit::sync::{check_delta_schema, checkpoint_to_load, classify_op, locate, plan_sync, summary_line, up_to_date_line, CheckpointRef, DeltaOp, DeltaRef, Location, Manifest, SyncError, SyncPlan};

fn delta(run: u64) -> DeltaRef {
    DeltaRef { run, file: format!("delta-{run}.json"), generated_at: String::new(), changed_count: 1 }
}

fn checkpoint(run: u64) -> CheckpointRef {
    CheckpointRef { run, file: format!("checkpoint-{run}.json"), generated_at: String::new() }
}

fn manifest(latest_run: u64, checkpoints: Vec<CheckpointRef>, deltas: Vec<DeltaRef>) -> Manifest {
    Manifest { schema_version: 1, latest_run, checkpoint_interval: 10, checkpoints, deltas }
}

#[test]
fn an_up_to_date_catalog_needs_nothing() {
    match plan_sync(&manifest(5, vec![], vec![]), 5) {
        Ok(SyncPlan::UpToDate { last_synced, latest_run }) => assert_eq!((last_synced, latest_run), (5, 5)),
        other => panic!("unexpected {other:?}"),
    }
}

#[test]
fn newer_manifests_are_refused() {
    let mut m = manifest(5, vec![], vec![]);
    m.schema_version = 2;
    assert!(matches!(plan_sync(&m, 0), Err(SyncError::NewerSchema { schema_version: 2 })));
    assert_eq!(check_delta_schema(2), Err(SyncError::NewerSchema { schema_version: 2 }));
    assert_eq!(check_delta_schema(1), Ok(()));
}

#[test]
fn the_newest_checkpoint_is_loaded_then_the_deltas_after_it_in_run_order() {
    let m = manifest(
        13,
        vec![checkpoint(0), checkpoint(10)],
        vec![delta(13), delta(9), delta(11), delta(12), delta(10)],
    );
    match plan_sync(&m, 4) {
        Ok(SyncPlan::Sync { checkpoint, from_run, deltas, latest_run }) => {
            assert_eq!(checkpoint.unwrap().run, 10);
            assert_eq!(from_run, 10);
            assert_eq!(latest_run, 13);
            assert_eq!(deltas.iter().map(|d| d.run).collect::<Vec<_>>(), vec![11, 12, 13]);
        }
        other => panic!("unexpected {other:?}"),
    }
}

#[test]
fn without_a_newer_checkpoint_the_deltas_start_after_the_last_sync() {
    let m = manifest(12, vec![checkpoint(10)], vec![delta(11), delta(12)]);
    match plan_sync(&m, 10) {
        Ok(SyncPlan::Sync { checkpoint, from_run, deltas, .. }) => {
            assert!(checkpoint.is_none());
            assert_eq!(from_run, 10);
            assert_eq!(deltas.len(), 2);
        }
        other => panic!("unexpected {other:?}"),
    }
}

#[test]
fn a_gap_in_the_chain_refuses_the_sync() {
    let m = manifest(13, vec![], vec![delta(11), delta(13)]);
    assert_eq!(
        plan_sync(&m, 10).err(),
        Some(SyncError::MissingDelta { expected: 12, found: 13 })
    );
    let short = manifest(13, vec![], vec![delta(11), delta(12)]);
    assert_eq!(
        plan_sync(&short, 10).err(),
        Some(SyncError::BrokenChain { count: 2, from_run: 10, latest_run: 13 })
    );
}

#[test]
fn delta_operations_are_insert_or_update() {
    assert_eq!(classify_op("insert", 3), Ok(DeltaOp::Insert));
    assert_eq!(classify_op("update", 3), Ok(DeltaOp::Update));
    assert_eq!(classify_op("delete", 3), Err(SyncError::UnsupportedOp { op: "delete".into(), run: 3 }));
}

#[test]
fn sources_are_urls_or_directories() {
    assert_eq!(
        locate("https://example.com/anime/", "index.json"),
        Location::Remote { url: "https://example.com/anime/index.json".into() }
    );
    assert_eq!(
        locate("http://host//", "deltas/delta-011.json"),
        Location::Remote { url: "http://host/deltas/delta-011.json".into() }
    );
    assert_eq!(
        locate("file:///srv/anime", "index.json"),
        Location::Local { path: "/srv/anime/index.json".into() }
    );
    assert_eq!(locate("served", "index.json"), Location::Local { path: "served/index.json".into() });
}

#[test]
fn reports_say_what_the_sync_did() {
    assert_eq!(up_to_date_line(7, 7), "Already up to date (synced to run 7, latest is run 7).");
    assert_eq!(
        summary_line(13, true, 2, 5, 3, 0),
        "Synced to run 13 (via checkpoint): 2 inserted, 5 updated across 3 delta(s), after a full checkpoint load."
    );
    assert_eq!(
        summary_line(13, false, 0, 1, 1, 4),
        "Synced to run 13 (deltas only): 0 inserted, 1 updated across 1 delta(s), 4 skipped (missing rows)."
    );
}

#[test]
fn the_checkpoint_to_load_is_the_newest_past_the_last_sync() {
    let m = manifest(20, vec![checkpoint(10), checkpoint(15), checkpoint(5)], vec![]);
    assert_eq!(checkpoint_to_load(&m, 4).map(|c| c.run), Some(15));
    assert_eq!(checkpoint_to_load(&m, 15).map(|c| c.run), None);
    let mut tie = checkpoint(15);
    tie.file = "second.sqlite".into();
    let m = manifest(20, vec![checkpoint(15), tie], vec![]);
    assert_eq!(checkpoint_to_load(&m, 0).map(|c| c.file), Some("second.sqlite".to_string()));
}

#[test]
fn the_first_gap_is_reported_before_a_wrong_count() {
    let m = manifest(15, vec![], vec![delta(14), delta(11), delta(11)]);
    assert_eq!(
        plan_sync(&m, 10).err(),
        Some(SyncError::MissingDelta { expected: 12, found: 11 })
    );
}

#[test]
fn a_checkpoint_past_the_latest_run_breaks_the_chain() {
    let m = manifest(12, vec![checkpoint(20)], vec![delta(11), delta(12)]);
    assert_eq!(
        plan_sync(&m, 10).err(),
        Some(SyncError::BrokenChain { count: 0, from_run: 20, latest_run: 12 })
    );
}
