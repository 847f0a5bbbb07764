use anigit::catalog::{AiringStatus, CatalogEntry};
use anigit::input::{KeyCode, KeyEvent, KeyModifiers, MouseEvent, MouseEventKind, Rect};
use anigit::search::{compute_regions, Action, BlameSearchScreen, Regions};

fn entry(id: i64, romaji: &str, english: Option<&str>) -> CatalogEntry {
    CatalogEntry {
        id,
        title_romaji: Some(romaji.to_string()),
        title_english: english.map(str::to_string),
        format: Some("TV".into()),
        episodes: None,
        description: None,
        status: AiringStatus::Finished,
        start_date: Some("2019-01-12".into()),
        end_date: None,
        genres: Vec::new(),
        tags: Vec::new(),
        last_updated: "2026-07-06T00:00:00+00:00".into(),
    }
}

fn tracked_candidates() -> Vec<CatalogEntry> {
    vec![
        entry(1, "Cowboy Bebop", None),
        entry(
            2,
            "Mushoku Tensei: Isekai Ittara Honki Dasu",
            Some("Mushoku Tensei: Jobless Reincarnation"),
        ),
        entry(3, "Kaguya-sama wa Kokurasetai", Some("Kaguya-sama: Love is War")),
    ]
}

fn key(code: KeyCode) -> KeyEvent {
    KeyEvent::new(code, KeyModifiers::none())
}

fn type_and_filter(screen: &mut BlameSearchScreen, text: &str) {
    for c in text.chars() {
        if screen.handle_key(key(KeyCode::Char(c))) == Action::QueryChanged {
            screen.refilter();
        }
    }
}

fn click(screen: &mut BlameSearchScreen, regions: &Regions, rect: Rect) -> Action {
    screen.handle_mouse(
        MouseEvent { kind: MouseEventKind::LeftDown, column: rect.x, row: rect.y },
        regions,
    )
}

#[test]
fn starts_with_all_candidates_visible() {
    let screen = BlameSearchScreen::new(tracked_candidates());
    assert_eq!(screen.results.len(), 3);
    assert_eq!(screen.selected_entry().unwrap().id, 1);
}

#[test]
fn typing_filters_case_insensitively() {
    let mut screen = BlameSearchScreen::new(tracked_candidates());
    type_and_filter(&mut screen, "BEBOP");
    assert_eq!(screen.results.len(), 1);
    assert_eq!(screen.selected_entry().unwrap().display_title(), "Cowboy Bebop");
}

#[test]
fn filter_matches_both_title_fields() {
    let mut screen = BlameSearchScreen::new(tracked_candidates());
    type_and_filter(&mut screen, "kokurasetai");
    assert_eq!(screen.results.len(), 1);
    assert_eq!(
        screen.selected_entry().unwrap().display_title(),
        "Kaguya-sama: Love is War"
    );
}

#[test]
fn backspace_widens_the_filter_again() {
    let mut screen = BlameSearchScreen::new(tracked_candidates());
    type_and_filter(&mut screen, "kaguyaz");
    assert!(screen.results.is_empty());
    assert_eq!(screen.handle_key(key(KeyCode::Backspace)), Action::QueryChanged);
    screen.refilter();
    assert_eq!(screen.results.len(), 1);
    screen.query.clear();
    assert_eq!(screen.handle_key(key(KeyCode::Backspace)), Action::Nothing);
}

#[test]
fn blame_search_arrows_move_highlight_and_clamp() {
    let mut screen = BlameSearchScreen::new(tracked_candidates());
    assert_eq!(screen.highlighted, 0);
    screen.handle_key(key(KeyCode::Up));
    assert_eq!(screen.highlighted, 0);
    screen.handle_key(key(KeyCode::Down));
    screen.handle_key(key(KeyCode::Down));
    screen.handle_key(key(KeyCode::Down));
    assert_eq!(screen.highlighted, 2);
}

#[test]
fn blame_search_enter_selects_highlighted_entry() {
    let mut screen = BlameSearchScreen::new(tracked_candidates());
    screen.handle_key(key(KeyCode::Down));
    assert_eq!(screen.handle_key(key(KeyCode::Enter)), Action::Selected);
    assert_eq!(
        screen.selected_entry().unwrap().display_title(),
        "Mushoku Tensei: Jobless Reincarnation"
    );
}

#[test]
fn blame_search_enter_on_empty_results_does_nothing_and_esc_cancels() {
    let mut screen = BlameSearchScreen::new(tracked_candidates());
    type_and_filter(&mut screen, "no such anime");
    assert!(screen.results.is_empty());
    assert_eq!(screen.handle_key(key(KeyCode::Enter)), Action::Nothing);
    assert!(screen.selected_entry().is_none());
    assert_eq!(screen.handle_key(key(KeyCode::Esc)), Action::Cancelled);
}

#[test]
fn refilter_resets_highlight() {
    let mut screen = BlameSearchScreen::new(tracked_candidates());
    screen.handle_key(key(KeyCode::Down));
    assert_eq!(screen.highlighted, 1);
    type_and_filter(&mut screen, "kaguya");
    assert_eq!(screen.highlighted, 0);
}

#[test]
fn blame_search_mouse_click_highlights_then_confirms() {
    let mut screen = BlameSearchScreen::new(tracked_candidates());
    let regions = compute_regions(Rect::new(0, 0, 80, 24), screen.results.len());
    assert_eq!(click(&mut screen, &regions, regions.result_rows[2]), Action::Nothing);
    assert_eq!(screen.highlighted, 2);
    assert_eq!(click(&mut screen, &regions, regions.result_rows[2]), Action::Selected);
}

#[test]
fn blame_search_layout_is_horizontally_centered() {
    let r = compute_regions(Rect::new(0, 0, 200, 24), 3);
    assert_eq!(r.input.width, 70);
    assert_eq!(r.input.x, (200 - 70) / 2);
    assert!(r.result_rows.iter().all(|row| row.x == r.input.x));
    let narrow = compute_regions(Rect::new(0, 0, 40, 24), 3);
    assert_eq!((narrow.input.x, narrow.input.width), (0, 40));
}

#[test]
fn blame_search_scroll_window_follows_highlight() {
    let mut screen = BlameSearchScreen::new(
        (0..20).map(|i| entry(i, &format!("Show {i}"), None)).collect(),
    );
    for _ in 0..12 {
        screen.handle_key(key(KeyCode::Down));
    }
    screen.clamp_scroll(5);
    assert_eq!(screen.highlighted, 12);
    assert_eq!(screen.scroll, 8);
    let regions = compute_regions(Rect::new(0, 0, 80, 9), screen.results.len());
    assert_eq!(regions.max_rows, 5);
    assert_eq!(click(&mut screen, &regions, regions.result_rows[0]), Action::Nothing);
    assert_eq!(screen.highlighted, 8);
}

#[test]
fn entry_at_row_accounts_for_the_scroll_offset() {
    let mut screen = BlameSearchScreen::new(
        (0..10).map(|i| entry(i, &format!("Show {i}"), None)).collect(),
    );
    for _ in 0..6 {
        screen.handle_key(key(KeyCode::Down));
    }
    screen.clamp_scroll(3);
    assert_eq!(screen.scroll, 4);
    assert_eq!(screen.entry_at_row(0).unwrap().id, 4);
    assert_eq!(screen.entry_at_row(2).unwrap().id, 6);
    assert!(screen.entry_at_row(6).is_none());
}
