use anigit::catalog::{catalog_path, check_insert_fields, column_for_field, insert_statement, update_statement, is_stale, is_stale_at, resolve_by_name, AiringStatus, CatalogEntry, CatalogError};
use chrono::{Duration, Utc};

fn entry(status: AiringStatus, last_updated: String) -> CatalogEntry {
    CatalogEntry {
        id: 1,
        title_romaji: Some("test".into()),
        title_english: None,
        format: None,
        episodes: None,
        description: None,
        status,
        start_date: None,
        end_date: None,
        genres: Vec::new(),
        tags: Vec::new(),
        last_updated,
    }
}

#[test]
fn stale_only_when_releasing_and_older_than_six_days() {
    let old = (Utc::now() - Duration::days(7)).to_rfc3339();
    let fresh = (Utc::now() - Duration::days(1)).to_rfc3339();

    assert!(is_stale(&entry(AiringStatus::Releasing, old.clone())));
    assert!(!is_stale(&entry(AiringStatus::Releasing, fresh)));
    assert!(!is_stale(&entry(AiringStatus::Finished, old)));
    assert!(is_stale(&entry(AiringStatus::Releasing, "garbage".into())));
}

#[test]
fn inserted_rows_need_a_title_and_a_status() {
    let names = |v: &[&str]| v.iter().map(|s| s.to_string()).collect::<Vec<_>>();
    assert_eq!(check_insert_fields(4, &names(&["status", "title", "episodes"])), Ok(()));
    assert_eq!(
        check_insert_fields(4, &names(&["episodes"])),
        Err(CatalogError::MissingField { id: 4, field: "title".into() })
    );
    assert_eq!(
        check_insert_fields(4, &names(&["title"])),
        Err(CatalogError::MissingField { id: 4, field: "status".into() })
    );
    assert_eq!(column_for_field("genres"), Ok("genres_json"));
    assert_eq!(column_for_field("studio"), Err(CatalogError::UnknownField { field: "studio".into() }));
}

#[test]
fn the_first_match_wins_and_none_is_an_error() {
    let matches = vec![entry(AiringStatus::Finished, String::new()), entry(AiringStatus::Releasing, String::new())];
    let (first, count) = resolve_by_name(matches, "x").unwrap();
    assert_eq!((first.status, count), (AiringStatus::Finished, 2));
    assert_eq!(resolve_by_name(Vec::new(), "x").err(), Some(CatalogError::NoMatch { name: "x".into() }));
    assert_eq!(catalog_path("/c.sqlite".into(), true), Ok("/c.sqlite".to_string()));
    assert_eq!(catalog_path("/c.sqlite".into(), false), Err(CatalogError::NotFound { path: "/c.sqlite".into() }));
}

#[test]
fn staleness_is_measured_against_the_given_instant() {
    let day: i64 = 86_400;
    let releasing = entry(AiringStatus::Releasing, String::new());
    assert!(!is_stale_at(&releasing, Some((0, 0)), (6 * day, 0)));
    assert!(is_stale_at(&releasing, Some((0, 0)), (6 * day, 1)));
    assert!(is_stale_at(&releasing, None, (0, 0)));
    assert!(!is_stale_at(&entry(AiringStatus::NotYetReleased, String::new()), None, (0, 0)));
}

#[test]
fn delta_changes_become_parameterized_statements() {
    let names = |v: &[&str]| v.iter().map(|s| s.to_string()).collect::<Vec<_>>();
    assert_eq!(
        insert_statement(&names(&["genres", "status", "title"])),
        Ok("INSERT INTO anime (id, last_updated, genres_json, status, title) VALUES (?1, ?2, ?3, ?4, ?5)".to_string())
    );
    assert_eq!(
        update_statement(&names(&["episodes", "end_date"])),
        Ok("UPDATE anime SET last_updated = ?1, episodes = ?2, end_date = ?3 WHERE id = ?4".to_string())
    );
    assert_eq!(
        update_statement(&names(&[])),
        Ok("UPDATE anime SET last_updated = ?1 WHERE id = ?2".to_string())
    );
    assert_eq!(
        insert_statement(&names(&["title", "studio", "rating"])),
        Err(CatalogError::UnknownField { field: "studio".into() })
    );
}
