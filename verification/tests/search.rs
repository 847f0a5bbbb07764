use anigit::catalog::{AiringStatus, CatalogEntry};
use anigit::input::{KeyCode, KeyEvent, KeyModifiers, MouseEvent, MouseEventKind, Rect};
use anigit::search::{compute_regions, truncate, Action, Regions, SearchScreen};
use anigit::search::{blame_notice, query_line, search_notice, year_of};

fn entry(id: i64, title: &str) -> CatalogEntry {
    CatalogEntry {
        id,
        title_romaji: Some(title.to_string()),
        title_english: None,
        format: Some("TV".into()),
        episodes: None,
        description: None,
        status: AiringStatus::Finished,
        start_date: Some("2019-01-12".into()),
        end_date: None,
        genres: Vec::new(),
        tags: Vec::new(),
        last_updated: "2026-07-06T00:00:00+00:00".into(),
    }
}

fn kaguya_results() -> Vec<CatalogEntry> {
    vec![
        entry(1, "Kaguya-sama: Love is War"),
        entry(2, "Kaguya-sama: Love is War Season 2"),
        entry(3, "Kaguya-sama: Love is War -Ultra Romantic-"),
    ]
}

fn key(code: KeyCode) -> KeyEvent {
    KeyEvent::new(code, KeyModifiers::none())
}

fn click(screen: &mut SearchScreen, regions: &Regions, rect: Rect) -> Action {
    screen.handle_mouse(
        MouseEvent { kind: MouseEventKind::LeftDown, column: rect.x, row: rect.y },
        regions,
    )
}

#[test]
fn typing_updates_query_and_requests_requery() {
    let mut screen = SearchScreen::new();
    assert_eq!(screen.handle_key(key(KeyCode::Char('k'))), Action::QueryChanged);
    assert_eq!(screen.handle_key(key(KeyCode::Char('a'))), Action::QueryChanged);
    assert_eq!(screen.query, "ka");
    assert_eq!(screen.handle_key(key(KeyCode::Backspace)), Action::QueryChanged);
    assert_eq!(screen.query, "k");
    screen.query.clear();
    assert_eq!(screen.handle_key(key(KeyCode::Backspace)), Action::Nothing);
}

#[test]
fn search_arrows_move_highlight_and_clamp() {
    let mut screen = SearchScreen::new();
    screen.set_results(kaguya_results());
    assert_eq!(screen.highlighted, 0);
    screen.handle_key(key(KeyCode::Up));
    assert_eq!(screen.highlighted, 0);
    screen.handle_key(key(KeyCode::Down));
    screen.handle_key(key(KeyCode::Down));
    screen.handle_key(key(KeyCode::Down));
    assert_eq!(screen.highlighted, 2);
}

#[test]
fn search_enter_selects_highlighted_entry() {
    let mut screen = SearchScreen::new();
    screen.set_results(kaguya_results());
    screen.handle_key(key(KeyCode::Down));
    assert_eq!(screen.handle_key(key(KeyCode::Enter)), Action::Selected);
    assert_eq!(
        screen.selected_entry().unwrap().display_title(),
        "Kaguya-sama: Love is War Season 2"
    );
}

#[test]
fn search_enter_on_empty_results_does_nothing_and_esc_cancels() {
    let mut screen = SearchScreen::new();
    screen.set_results(Vec::new());
    assert_eq!(screen.handle_key(key(KeyCode::Enter)), Action::Nothing);
    assert!(screen.selected_entry().is_none());
    assert_eq!(screen.handle_key(key(KeyCode::Esc)), Action::Cancelled);
}

#[test]
fn new_results_reset_highlight() {
    let mut screen = SearchScreen::new();
    screen.set_results(kaguya_results());
    screen.handle_key(key(KeyCode::Down));
    assert_eq!(screen.highlighted, 1);
    screen.set_results(vec![entry(9, "Something Else")]);
    assert_eq!(screen.highlighted, 0);
}

#[test]
fn search_mouse_click_highlights_then_confirms() {
    let mut screen = SearchScreen::new();
    screen.set_results(kaguya_results());
    let regions = compute_regions(Rect::new(0, 0, 80, 24), screen.results.len());
    assert_eq!(click(&mut screen, &regions, regions.result_rows[2]), Action::Nothing);
    assert_eq!(screen.highlighted, 2);
    assert_eq!(click(&mut screen, &regions, regions.result_rows[2]), Action::Selected);
}

#[test]
fn search_layout_is_horizontally_centered() {
    let r = compute_regions(Rect::new(0, 0, 200, 24), 3);
    assert_eq!(r.input.width, 70);
    assert_eq!(r.input.x, (200 - 70) / 2);
    assert!(r.result_rows.iter().all(|row| row.x == r.input.x));
    let narrow = compute_regions(Rect::new(0, 0, 40, 24), 3);
    assert_eq!((narrow.input.x, narrow.input.width), (0, 40));
}

#[test]
fn search_scroll_window_follows_highlight() {
    let mut screen = SearchScreen::new();
    screen.set_results((0..20).map(|i| entry(i, &format!("Show {i}"))).collect());
    for _ in 0..12 {
        screen.handle_key(key(KeyCode::Down));
    }
    screen.clamp_scroll(5);
    assert_eq!(screen.highlighted, 12);
    assert_eq!(screen.scroll, 8);
    let regions = compute_regions(Rect::new(0, 0, 80, 9), screen.results.len());
    assert_eq!(regions.max_rows, 5);
    assert_eq!(click(&mut screen, &regions, regions.result_rows[0]), Action::Nothing);
    assert_eq!(screen.highlighted, 8);
}

#[test]
fn scroll_wheel_moves_the_highlight_and_clicks_outside_rows_do_nothing() {
    let mut screen = SearchScreen::new();
    screen.set_results(kaguya_results());
    let regions = compute_regions(Rect::new(0, 0, 80, 24), screen.results.len());
    let wheel = |kind| MouseEvent { kind, column: 0, row: 0 };
    assert_eq!(screen.handle_mouse(wheel(MouseEventKind::ScrollDown), &regions), Action::Nothing);
    assert_eq!(screen.highlighted, 1);
    assert_eq!(screen.handle_mouse(wheel(MouseEventKind::ScrollUp), &regions), Action::Nothing);
    assert_eq!(screen.highlighted, 0);
    let outside = MouseEvent { kind: MouseEventKind::LeftDown, column: 79, row: 23 };
    assert_eq!(screen.handle_mouse(outside, &regions), Action::Nothing);
    assert_eq!(screen.highlighted, 0);
}

#[test]
fn truncate_marks_cut_titles_with_an_ellipsis() {
    assert_eq!(truncate("Cowboy Bebop", 44), "Cowboy Bebop");
    assert_eq!(truncate("abcdef", 6), "abcdef");
    assert_eq!(truncate("abcdefg", 6), "abcde…");
    assert_eq!(truncate("abc", 0), "…");
}

#[test]
fn result_rows_pad_the_title_and_format_and_show_the_year() {
    let e = entry(1, "Cowboy Bebop");
    let line = anigit::search::result_line(&e, true);
    assert_eq!(line, format!("▶ {:<44} {:<7} {}", "Cowboy Bebop", "TV", "2019"));
    let mut bare = entry(2, "A");
    bare.format = None;
    bare.start_date = None;
    assert_eq!(anigit::search::result_line(&bare, false), format!("  {:<44} {:<7} -", "A", "-"));
    let long = "x".repeat(50);
    let row = anigit::search::result_line(&entry(3, &long), false);
    assert_eq!(row, format!("  {}… TV      2019", "x".repeat(43)));
}

#[test]
fn the_year_is_the_first_four_bytes_when_they_end_a_character() {
    assert_eq!(year_of("2019-01-12"), "2019");
    assert_eq!(year_of("201"), "201");
    assert_eq!(year_of("é2-x"), "é2-");
    assert_eq!(year_of("aé€"), "aé€");
    assert_eq!("é2-x".get(..4), Some("é2-"));
    assert_eq!("aé€".get(..4), None);
}

#[test]
fn notices_explain_an_empty_result_list() {
    assert_eq!(search_notice(""), "The catalog is empty — run `anigit refresh` first.");
    assert_eq!(search_notice("zz"), "No matches for 'zz' — try different wording.");
    assert_eq!(
        blame_notice("zz"),
        "No tracked anime matches 'zz' — blame only searches anime in this repo's history."
    );
    assert_eq!(query_line("kag"), "> kag_");
}
