use anigit::form::{compute_regions, AddForm, FormRegions, Mode, Outcome, EPISODE, EPISODE_MAX, SCORE, SCORE_MAX, STATUS};
use anigit::input::{KeyCode, KeyEvent, KeyModifiers, MouseEvent, MouseEventKind, Rect};
use anigit::model::{Changes, WatchStatus};
use anigit::form::{dropdown_option, label_line};

fn key(code: KeyCode) -> KeyEvent {
    KeyEvent::new(code, KeyModifiers::none())
}

fn press(form: &mut AddForm, codes: &[KeyCode]) -> Option<Outcome> {
    let mut outcome = None;
    for code in codes {
        outcome = form.handle_key(key(*code));
    }
    outcome
}

fn click(form: &mut AddForm, regions: &FormRegions, rect: Rect) -> Option<Outcome> {
    form.handle_mouse(
        MouseEvent { kind: MouseEventKind::LeftDown, column: rect.x, row: rect.y },
        regions,
    )
}

#[test]
fn prepopulates_from_existing_state() {
    let existing = Changes {
        status: Some(WatchStatus::Watching),
        episode_progress: Some(12),
        score: Some(8),
        rewatch_count: None,
    };
    let form = AddForm::new("NGE", Some(existing), None);
    assert_eq!(form.status, Some(WatchStatus::Watching));
    assert_eq!(form.episode, Some(12));
    assert_eq!(form.score, Some(8));
    assert_eq!(form.rewatch, None);
    assert_eq!(form.changes(), Changes::default());
}

#[test]
fn dropdown_open_navigate_select() {
    let mut form = AddForm::new("x", None, None);
    assert_eq!(form.focus, STATUS);
    press(&mut form, &[KeyCode::Enter]);
    assert_eq!(form.mode, Mode::Dropdown { highlighted: 0 });
    press(&mut form, &[KeyCode::Down]);
    assert_eq!(form.mode, Mode::Dropdown { highlighted: 1 });
    press(&mut form, &[KeyCode::Enter]);
    assert_eq!(form.mode, Mode::Nav);
    assert_eq!(form.status, Some(WatchStatus::Watching));
}

#[test]
fn dropdown_esc_closes_without_change() {
    let mut form = AddForm::new("x", None, None);
    press(&mut form, &[KeyCode::Enter, KeyCode::Down, KeyCode::Esc]);
    assert_eq!(form.mode, Mode::Nav);
    assert_eq!(form.status, None);
}

#[test]
fn spinner_activate_adjust_confirm() {
    let mut form = AddForm::new("x", None, None);
    press(&mut form, &[KeyCode::Down]);
    assert_eq!(form.focus, EPISODE);
    press(&mut form, &[KeyCode::Enter]);
    assert_eq!(form.mode, Mode::Spinner);
    assert_eq!(form.episode, Some(0));
    press(&mut form, &[KeyCode::Up, KeyCode::Up, KeyCode::Up]);
    assert_eq!(form.episode, Some(3));
    press(&mut form, &[KeyCode::Enter]);
    assert_eq!(form.mode, Mode::Nav);
}

#[test]
fn spinner_bounds_clamp() {
    let mut form = AddForm::new("x", None, None);
    form.focus = SCORE;
    press(&mut form, &[KeyCode::Enter, KeyCode::Down, KeyCode::Down]);
    assert_eq!(form.score, Some(0));
    for _ in 0..15 {
        press(&mut form, &[KeyCode::Up]);
    }
    assert_eq!(form.score, Some(SCORE_MAX));
}

#[test]
fn clear_and_cancel() {
    let existing = Changes { status: Some(WatchStatus::Completed), ..Default::default() };
    let mut form = AddForm::new("x", Some(existing), None);
    press(&mut form, &[KeyCode::Delete]);
    assert_eq!(form.status, None);
    assert_eq!(press(&mut form, &[KeyCode::Esc]), Some(Outcome::Cancel));
}

#[test]
fn changes_reports_only_deltas_from_baseline() {
    let existing = Changes {
        status: Some(WatchStatus::Watching),
        episode_progress: Some(12),
        score: Some(8),
        rewatch_count: None,
    };
    let mut form = AddForm::new("x", Some(existing), None);
    form.focus = SCORE;
    press(&mut form, &[KeyCode::Enter, KeyCode::Up, KeyCode::Enter]);
    let changes = form.changes();
    assert_eq!(changes.score, Some(9));
    assert_eq!(changes.status, None);
    assert_eq!(changes.episode_progress, None);
    assert_eq!(changes.rewatch_count, None);
}

#[test]
fn mouse_spinner_buttons_and_save() {
    let mut form = AddForm::new("x", None, None);
    let regions = compute_regions(Rect::new(0, 0, 60, 20), false);
    click(&mut form, &regions, regions.inc[EPISODE].unwrap());
    click(&mut form, &regions, regions.inc[EPISODE].unwrap());
    assert_eq!(form.focus, EPISODE);
    assert_eq!(form.episode, Some(2));
    click(&mut form, &regions, regions.dec[EPISODE].unwrap());
    assert_eq!(form.episode, Some(1));
    assert_eq!(click(&mut form, &regions, regions.save), Some(Outcome::Submit));
}

#[test]
fn mouse_dropdown_flow() {
    let mut form = AddForm::new("x", None, None);
    let closed = compute_regions(Rect::new(0, 0, 60, 20), false);
    click(&mut form, &closed, closed.rows[STATUS]);
    assert!(form.dropdown_open());
    let open = compute_regions(Rect::new(0, 0, 60, 20), true);
    click(&mut form, &open, open.dropdown_items[2]);
    assert_eq!(form.status, Some(WatchStatus::Completed));
    assert_eq!(form.mode, Mode::Nav);
}

#[test]
fn episode_spinner_clamps_to_real_episode_count() {
    let mut form = AddForm::new("x", None, Some(24));
    form.focus = EPISODE;
    press(&mut form, &[KeyCode::Enter]);
    for _ in 0..30 {
        press(&mut form, &[KeyCode::Up]);
    }
    assert_eq!(form.episode, Some(24));
    let mut movie = AddForm::new("x", None, Some(1));
    movie.focus = EPISODE;
    press(&mut movie, &[KeyCode::Enter, KeyCode::Up, KeyCode::Up, KeyCode::Up]);
    assert_eq!(movie.episode, Some(1));
}

#[test]
fn unknown_episode_count_falls_back_to_safety_ceiling() {
    let mut form = AddForm::new("x", None, None);
    form.focus = EPISODE;
    form.episode = Some(EPISODE_MAX - 1);
    press(&mut form, &[KeyCode::Enter, KeyCode::Up, KeyCode::Up, KeyCode::Up]);
    assert_eq!(form.episode, Some(EPISODE_MAX));
}

#[test]
fn form_is_centered_in_large_areas() {
    let r = compute_regions(Rect::new(0, 0, 200, 50), false);
    assert_eq!(r.block.width, 58);
    assert_eq!(r.block.x, (200 - 58) / 2);
    assert_eq!(r.block.y, (50 - 9) / 2);
    let tiny = compute_regions(Rect::new(0, 0, 20, 5), false);
    assert_eq!((tiny.block.x, tiny.block.y), (0, 0));
    assert_eq!(tiny.block.width, 20);
    assert!(r.rows[0].x > 0 && r.rows[0].x >= r.block.x);
}

#[test]
fn full_synthetic_session() {
    let mut form = AddForm::new("Solo Leveling", None, None);
    let outcome = press(
        &mut form,
        &[
            KeyCode::Enter,
            KeyCode::Down,
            KeyCode::Enter,
            KeyCode::Down,
            KeyCode::Enter,
            KeyCode::Up, KeyCode::Up, KeyCode::Up, KeyCode::Up,
            KeyCode::Up, KeyCode::Up, KeyCode::Up, KeyCode::Up,
            KeyCode::Up, KeyCode::Up, KeyCode::Up, KeyCode::Up,
            KeyCode::Enter,
            KeyCode::Down,
            KeyCode::Enter,
            KeyCode::Up, KeyCode::Up, KeyCode::Up, KeyCode::Up,
            KeyCode::Up, KeyCode::Up, KeyCode::Up, KeyCode::Up,
            KeyCode::Enter,
            KeyCode::Down,
            KeyCode::Down,
            KeyCode::Enter,
        ],
    );
    assert_eq!(outcome, Some(Outcome::Submit));
    let changes = form.changes();
    assert_eq!(changes.status, Some(WatchStatus::Watching));
    assert_eq!(changes.episode_progress, Some(12));
    assert_eq!(changes.score, Some(8));
    assert_eq!(changes.rewatch_count, None);
}

#[test]
fn untouched_form_submits_no_changes() {
    let existing = Changes {
        status: Some(WatchStatus::Planning),
        episode_progress: None,
        score: Some(3),
        rewatch_count: Some(1),
    };
    let mut form = AddForm::new("x", Some(existing), None);
    let outcome = press(&mut form, &[KeyCode::Down, KeyCode::Down, KeyCode::Down, KeyCode::Down, KeyCode::Enter]);
    assert_eq!(outcome, Some(Outcome::Submit));
    assert!(form.changes().is_empty());
}

#[test]
fn form_rows_render_labels_values_and_hints() {
    assert_eq!(label_line(STATUS, true), format!("› {:<18}", "Status"));
    assert_eq!(label_line(EPISODE, false), format!("  {:<18}", "Episode progress"));
    let mut form = AddForm::new("x", None, Some(24));
    assert_eq!(form.status_value(), "(unset) ▾");
    assert_eq!(form.spinner_value(EPISODE), format!(" {:^11} ", "(unset)"));
    form.episode = Some(12);
    form.score = Some(8);
    form.status = Some(WatchStatus::Watching);
    assert_eq!(form.status_value(), "watching ▾");
    assert_eq!(form.spinner_value(EPISODE), format!(" {:^11} ", "12/24"));
    assert_eq!(form.spinner_value(SCORE), format!(" {:^11} ", "8"));
    assert_eq!(form.hint(), "↑/↓ move · Enter edit · ←/→ step · Del clear · Ctrl+S/Save submit · Esc cancel");
    form.mode = Mode::Spinner;
    assert_eq!(form.hint(), "↑/↓ adjust · Enter done");
    assert_eq!(dropdown_option(WatchStatus::Completed), format!(" {:<15}", "completed"));
}
