//! The `anigit add` edit form: a dropdown for the watch status, steppers for
//! the numeric fields, and a Save button, driven by keys and mouse clicks.
//! The form only collects the fields that differ from the state it opened
//! with; the commit message comes later from `anigit commit -m`.
use vstd::prelude::*;

use crate::input::{
    rect, rect_contains, KeyCode, KeyEvent, MouseEvent, MouseEventKind, Rect,
};
use crate::model::{no_changes, Changes, WatchStatus};
use crate::search::{padded, push_padded};
use crate::text::{decimal, owned, push_decimal, push_str, push_string, string_push};

verus! {

/// Focus positions, top to bottom.
pub const STATUS: usize = 0;
pub const EPISODE: usize = 1;
pub const SCORE: usize = 2;
pub const REWATCH: usize = 3;
pub const SAVE: usize = 4;
pub const FOCUS_COUNT: usize = 5;

/// Scores run 0 to 10.
pub const SCORE_MAX: u8 = 10;
/// Episode progress never exceeds this, whatever the show's length.
pub const EPISODE_MAX: u32 = 99_999;
pub const REWATCH_MAX: u32 = 9_999;

/// What the form is doing with keys right now.
#[derive(Debug, Clone, Copy, PartialEq, Eq, Structural)]
pub enum Mode {
    /// Moving focus between fields.
    Nav,
    /// The status dropdown is open with one option highlighted.
    Dropdown { highlighted: usize },
    /// A numeric field is being stepped.
    Spinner,
}

/// How a session ended.
#[derive(Debug, Clone, Copy, PartialEq, Eq, Structural)]
pub enum Outcome {
    Submit,
    Cancel,
}

/// The dropdown's options, in display order.
pub open spec fn status_option(i: int) -> WatchStatus {
    if i == 0 {
        WatchStatus::Planning
    } else if i == 1 {
        WatchStatus::Watching
    } else if i == 2 {
        WatchStatus::Completed
    } else {
        WatchStatus::Dropped
    }
}

/// Position of `s` among the dropdown's options.
pub open spec fn option_index(s: WatchStatus) -> usize {
    match s {
        WatchStatus::Planning => 0,
        WatchStatus::Watching => 1,
        WatchStatus::Completed => 2,
        WatchStatus::Dropped => 3,
    }
}

/// The fixed option list of the status dropdown: planning, watching,
/// completed, dropped.
pub fn status_options() -> (v: Vec<WatchStatus>)
    ensures
        v@.len() == 4,
        forall|i: int| 0 <= i < 4 ==> v@[i] == status_option(i),
{
    vec![WatchStatus::Planning, WatchStatus::Watching, WatchStatus::Completed, WatchStatus::Dropped]
}

/// The snake_case name of a watch status, as the on-disk JSON spells it.
pub open spec fn status_text(s: WatchStatus) -> Seq<char> {
    match s {
        WatchStatus::Dropped => "dropped"@,
        WatchStatus::Planning => "planning"@,
        WatchStatus::Watching => "watching"@,
        WatchStatus::Completed => "completed"@,
    }
}

/// The snake_case name of a watch status.
pub fn status_name(status: WatchStatus) -> (r: &'static str)
    ensures
        r@ == status_text(status),
{
    match status {
        WatchStatus::Dropped => "dropped",
        WatchStatus::Planning => "planning",
        WatchStatus::Watching => "watching",
        WatchStatus::Completed => "completed",
    }
}

/// `v` clamped into `lo..=hi`.
pub open spec fn clamp(v: int, lo: int, hi: int) -> int {
    if v < lo {
        lo
    } else if v > hi {
        hi
    } else {
        v
    }
}

/// The value an unset field counts as when stepped.
pub open spec fn or_zero(v: Option<u32>) -> int {
    match v {
        Some(x) => x as int,
        None => 0,
    }
}

/// The form's state.
#[derive(Debug, Clone)]
pub struct AddForm {
    pub title: String,
    pub status: Option<WatchStatus>,
    pub episode: Option<u32>,
    pub score: Option<u8>,
    pub rewatch: Option<u32>,
    pub focus: usize,
    pub mode: Mode,
    /// The show's real episode count, capping the episode stepper when known.
    pub episode_max: Option<u32>,
    /// The state the form opened with; only differences from it are staged.
    pub baseline: Changes,
}

/// Result of a completed add session: the changes to stage.
pub struct AddMenuResult {
    pub changes: Changes,
}

/// `v` when it differs from `base`, else unset.
pub open spec fn if_changed<T>(v: Option<T>, base: Option<T>) -> Option<T> {
    if v != base { v } else { None }
}

impl AddForm {
    /// Focus is on a field and an open dropdown highlights one of its options.
    pub open spec fn wf(self) -> bool {
        &&& self.focus < FOCUS_COUNT
        &&& self.mode matches Mode::Dropdown { highlighted } ==> highlighted < 4
    }

    /// The highest episode progress the stepper allows.
    pub open spec fn episode_cap(self) -> int {
        match self.episode_max {
            Some(m) => if m < EPISODE_MAX { m as int } else { EPISODE_MAX as int },
            None => EPISODE_MAX as int,
        }
    }

    /// Stepping the focused field by `delta` stays within `i64`.
    pub open spec fn bump_fits(self, delta: i64) -> bool {
        let cur = if self.focus == EPISODE {
            or_zero(self.episode)
        } else if self.focus == REWATCH {
            or_zero(self.rewatch)
        } else if self.focus == SCORE {
            match self.score {
                Some(s) => s as int,
                None => 0,
            }
        } else {
            0
        };
        i64::MIN <= cur + delta <= i64::MAX
    }

    /// The form after stepping its focused numeric field by `delta`, clamped
    /// to the field's bounds; an unset field counts as 0.
    pub open spec fn bumped(self, delta: int) -> AddForm {
        if self.focus == EPISODE {
            AddForm {
                episode: Some(clamp(or_zero(self.episode) + delta, 0, self.episode_cap()) as u32),
                ..self
            }
        } else if self.focus == REWATCH {
            AddForm {
                rewatch: Some(clamp(or_zero(self.rewatch) + delta, 0, REWATCH_MAX as int) as u32),
                ..self
            }
        } else if self.focus == SCORE {
            AddForm {
                score: Some(
                    clamp(
                        match self.score {
                            Some(s) => s as int,
                            None => 0,
                        } + delta,
                        0,
                        SCORE_MAX as int,
                    ) as u8,
                ),
                ..self
            }
        } else {
            self
        }
    }

    /// The form after unsetting its focused field.
    pub open spec fn cleared(self) -> AddForm {
        if self.focus == STATUS {
            AddForm { status: None, ..self }
        } else if self.focus == EPISODE {
            AddForm { episode: None, ..self }
        } else if self.focus == SCORE {
            AddForm { score: None, ..self }
        } else if self.focus == REWATCH {
            AddForm { rewatch: None, ..self }
        } else {
            self
        }
    }

    /// The form with the dropdown open on the current status (or the first option).
    pub open spec fn with_dropdown(self) -> AddForm {
        AddForm {
            mode: Mode::Dropdown {
                highlighted: match self.status {
                    Some(s) => option_index(s),
                    None => 0,
                },
            },
            ..self
        }
    }

    /// The delta to stage: each field whose value differs from the opening state.
    pub open spec fn spec_changes(self) -> Changes {
        Changes {
            status: if_changed(self.status, self.baseline.status),
            episode_progress: if_changed(self.episode, self.baseline.episode_progress),
            score: if_changed(self.score, self.baseline.score),
            rewatch_count: if_changed(self.rewatch, self.baseline.rewatch_count),
        }
    }

    /// Response to one key press: the next form and, when the session ends, how.
    pub open spec fn on_key(self, key: KeyEvent) -> (AddForm, Option<Outcome>) {
        match self.mode {
            Mode::Dropdown { highlighted } => match key.code {
                KeyCode::Up => (
                    AddForm {
                        mode: Mode::Dropdown {
                            highlighted: if highlighted == 0 {
                                3
                            } else {
                                (highlighted - 1) as usize
                            },
                        },
                        ..self
                    },
                    None,
                ),
                KeyCode::Down => (
                    AddForm {
                        mode: Mode::Dropdown { highlighted: ((highlighted + 1) % 4) as usize },
                        ..self
                    },
                    None,
                ),
                KeyCode::Enter => (
                    AddForm {
                        status: Some(status_option(highlighted as int)),
                        mode: Mode::Nav,
                        ..self
                    },
                    None,
                ),
                KeyCode::Esc => (AddForm { mode: Mode::Nav, ..self }, None),
                _ => (self, None),
            },
            Mode::Spinner => match key.code {
                KeyCode::Up | KeyCode::Right => (self.bumped(1), None),
                KeyCode::Char(c) => if c == '+' {
                    (self.bumped(1), None)
                } else if c == '-' {
                    (self.bumped(-1), None)
                } else {
                    (self, None)
                },
                KeyCode::Down | KeyCode::Left => (self.bumped(-1), None),
                KeyCode::Enter | KeyCode::Esc => (AddForm { mode: Mode::Nav, ..self }, None),
                _ => (self, None),
            },
            Mode::Nav => if key.code == KeyCode::Char('s') && key.modifiers.control {
                (self, Some(Outcome::Submit))
            } else {
                match key.code {
                    KeyCode::Up | KeyCode::BackTab => (
                        AddForm {
                            focus: if self.focus == 0 {
                                (FOCUS_COUNT - 1) as usize
                            } else {
                                (self.focus - 1) as usize
                            },
                            ..self
                        },
                        None,
                    ),
                    KeyCode::Down | KeyCode::Tab => (
                        AddForm { focus: ((self.focus + 1) % FOCUS_COUNT as int) as usize, ..self },
                        None,
                    ),
                    KeyCode::Left => (self.bumped(-1), None),
                    KeyCode::Right => (self.bumped(1), None),
                    KeyCode::Enter => if self.focus == STATUS {
                        (self.with_dropdown(), None)
                    } else if self.focus == EPISODE || self.focus == SCORE || self.focus
                        == REWATCH {
                        (AddForm { mode: Mode::Spinner, ..self.bumped(0) }, None)
                    } else if self.focus == SAVE {
                        (self, Some(Outcome::Submit))
                    } else {
                        (self, None)
                    },
                    KeyCode::Delete | KeyCode::Backspace => (self.cleared(), None),
                    KeyCode::Esc => (self, Some(Outcome::Cancel)),
                    _ => (self, None),
                }
            },
        }
    }

    /// Response to one mouse event over the given layout.
    pub open spec fn on_mouse(self, mouse: MouseEvent, regions: FormRegions) -> (
        AddForm,
        Option<Outcome>,
    ) {
        let col = mouse.column;
        let row = mouse.row;
        if mouse.kind != MouseEventKind::LeftDown {
            (self, None)
        } else if self.mode is Dropdown {
            let hit = first_hit(regions.dropdown_items@, col, row);
            (
                AddForm {
                    status: if hit < regions.dropdown_items@.len() {
                        Some(status_option(hit))
                    } else {
                        self.status
                    },
                    mode: Mode::Nav,
                    ..self
                },
                None,
            )
        } else if button_hit(regions.dec@[1], col, row) {
            (AddForm { focus: EPISODE, ..self }.bumped(-1), None)
        } else if button_hit(regions.inc@[1], col, row) {
            (AddForm { focus: EPISODE, ..self }.bumped(1), None)
        } else if button_hit(regions.dec@[2], col, row) {
            (AddForm { focus: SCORE, ..self }.bumped(-1), None)
        } else if button_hit(regions.inc@[2], col, row) {
            (AddForm { focus: SCORE, ..self }.bumped(1), None)
        } else if button_hit(regions.dec@[3], col, row) {
            (AddForm { focus: REWATCH, ..self }.bumped(-1), None)
        } else if button_hit(regions.inc@[3], col, row) {
            (AddForm { focus: REWATCH, ..self }.bumped(1), None)
        } else if rect_contains(regions.save, col, row) {
            (self, Some(Outcome::Submit))
        } else {
            let field = first_hit(regions.rows@, col, row);
            if field < regions.rows@.len() {
                let focused = AddForm { focus: field as usize, mode: Mode::Nav, ..self };
                if field == STATUS {
                    (focused.with_dropdown(), None)
                } else {
                    (focused, None)
                }
            } else {
                (self, None)
            }
        }
    }
}

/// A stepper button that exists and covers the cell.
pub open spec fn button_hit(r: Option<Rect>, col: u16, row: u16) -> bool {
    r matches Some(b) && rect_contains(b, col, row)
}

/// Index of the first rectangle covering the cell, or the length if none does.
pub open spec fn first_hit(rects: Seq<Rect>, col: u16, row: u16) -> int
    decreases rects.len(),
{
    if rects.len() == 0 {
        0
    } else if rect_contains(rects[0], col, row) {
        0
    } else {
        1 + first_hit(rects.drop_first(), col, row)
    }
}

proof fn lemma_first_hit_bounds(rects: Seq<Rect>, col: u16, row: u16)
    ensures
        0 <= first_hit(rects, col, row) <= rects.len(),
        first_hit(rects, col, row) < rects.len() ==> rect_contains(
            rects[first_hit(rects, col, row)],
            col,
            row,
        ),
        forall|i: int|
            0 <= i < first_hit(rects, col, row) ==> !rect_contains(#[trigger] rects[i], col, row),
    decreases rects.len(),
{
    if rects.len() > 0 && !rect_contains(rects[0], col, row) {
        lemma_first_hit_bounds(rects.drop_first(), col, row);
        assert forall|i: int| 0 <= i < first_hit(rects, col, row) implies !rect_contains(
            #[trigger] rects[i],
            col,
            row,
        ) by {
            if i > 0 {
                assert(rects[i] == rects.drop_first()[i - 1]);
            }
        }
    }
}

/// Index of the first rectangle covering `(col, row)`, or the length if none does.
pub fn hit_index(rects: &Vec<Rect>, col: u16, row: u16) -> (r: usize)
    ensures
        r == first_hit(rects@, col, row),
{
    let mut i: usize = 0;
    proof {
        lemma_first_hit_bounds(rects@, col, row);
    }
    while i < rects.len()
        invariant
            i <= rects@.len(),
            first_hit(rects@, col, row) >= i,
            forall|k: int| 0 <= k < i ==> !rect_contains(#[trigger] rects@[k], col, row),
        decreases rects@.len() - i,
    {
        if rects[i].contains(col, row) {
            proof {
                lemma_first_hit_from(rects@, col, row, i as int);
            }
            return i;
        }
        i = i + 1;
        proof {
            lemma_first_hit_from(rects@, col, row, i as int);
        }
    }
    proof {
        lemma_first_hit_from(rects@, col, row, i as int);
    }
    i
}

proof fn lemma_first_hit_from(rects: Seq<Rect>, col: u16, row: u16, i: int)
    requires
        0 <= i <= rects.len(),
        forall|k: int| 0 <= k < i ==> !rect_contains(#[trigger] rects[k], col, row),
    ensures
        i < rects.len() && rect_contains(rects[i], col, row) ==> first_hit(rects, col, row) == i,
        i == rects.len() ==> first_hit(rects, col, row) == i,
        first_hit(rects, col, row) >= i,
    decreases i,
{
    lemma_first_hit_bounds(rects, col, row);
    if i > 0 {
        let d = rects.drop_first();
        assert(!rect_contains(rects[0], col, row));
        assert forall|k: int| 0 <= k < i - 1 implies !rect_contains(#[trigger] d[k], col, row) by {
            assert(d[k] == rects[k + 1]);
        }
        lemma_first_hit_from(d, col, row, i - 1);
        assert(first_hit(rects, col, row) == 1 + first_hit(d, col, row));
        if i < rects.len() {
            assert(d[i - 1] == rects[i]);
        }
    }
}

impl AddForm {
    /// A form opened on `existing` state (or blank), focused on the status field.
    pub fn new(title: &str, existing: Option<Changes>, episode_max: Option<u32>) -> (f: AddForm)
        ensures
            f.wf(),
            f.title@ == title@,
            f.baseline == (match existing {
                Some(c) => c,
                None => no_changes(),
            }),
            f.status == f.baseline.status,
            f.episode == f.baseline.episode_progress,
            f.score == f.baseline.score,
            f.rewatch == f.baseline.rewatch_count,
            f.focus == STATUS,
            f.mode == Mode::Nav,
            f.episode_max == episode_max,
    {
        let baseline = match existing {
            Some(c) => c,
            None => Changes::empty(),
        };
        AddForm {
            title: owned(title),
            status: baseline.status,
            episode: baseline.episode_progress,
            score: baseline.score,
            rewatch: baseline.rewatch_count,
            focus: STATUS,
            mode: Mode::Nav,
            episode_max,
            baseline,
        }
    }

    /// The delta to stage: only fields that differ from the opening state.
    /// Clearing a previously set field records nothing.
    pub fn changes(&self) -> (c: Changes)
        ensures
            c == self.spec_changes(),
    {
        let b = &self.baseline;
        Changes {
            status: if self.status != b.status {
                self.status
            } else {
                None
            },
            episode_progress: if self.episode != b.episode_progress {
                self.episode
            } else {
                None
            },
            score: if self.score != b.score {
                self.score
            } else {
                None
            },
            rewatch_count: if self.rewatch != b.rewatch_count {
                self.rewatch
            } else {
                None
            },
        }
    }

    /// The status dropdown is open.
    pub fn dropdown_open(&self) -> (b: bool)
        ensures
            b == self.mode is Dropdown,
    {
        match self.mode {
            Mode::Dropdown { .. } => true,
            _ => false,
        }
    }

    /// Step the focused numeric field by `delta`, clamping to its bounds;
    /// stepping an unset field starts it at 0.
    pub fn bump(&mut self, delta: i64)
        requires
            old(self).bump_fits(delta),
        ensures
            *final(self) == old(self).bumped(delta as int),
    {
        if self.focus == EPISODE {
            let cap = match self.episode_max {
                Some(m) => if m < EPISODE_MAX {
                    m
                } else {
                    EPISODE_MAX
                },
                None => EPISODE_MAX,
            };
            let cur: i64 = match self.episode {
                Some(v) => v as i64,
                None => 0,
            };
            let next = cur + delta;
            let v: u32 = if next < 0 {
                0
            } else if next > cap as i64 {
                cap
            } else {
                next as u32
            };
            self.episode = Some(v);
        } else if self.focus == REWATCH {
            let cur: i64 = match self.rewatch {
                Some(v) => v as i64,
                None => 0,
            };
            let next = cur + delta;
            let v: u32 = if next < 0 {
                0
            } else if next > REWATCH_MAX as i64 {
                REWATCH_MAX
            } else {
                next as u32
            };
            self.rewatch = Some(v);
        } else if self.focus == SCORE {
            let cur: i64 = match self.score {
                Some(v) => v as i64,
                None => 0,
            };
            let next = cur + delta;
            let v: u8 = if next < 0 {
                0
            } else if next > SCORE_MAX as i64 {
                SCORE_MAX
            } else {
                next as u8
            };
            self.score = Some(v);
        }
    }

    /// Unset the focused field.
    pub fn clear_focused(&mut self)
        ensures
            *final(self) == old(self).cleared(),
    {
        if self.focus == STATUS {
            self.status = None;
        } else if self.focus == EPISODE {
            self.episode = None;
        } else if self.focus == SCORE {
            self.score = None;
        } else if self.focus == REWATCH {
            self.rewatch = None;
        }
    }

    /// Open the status dropdown, highlighting the current status (or the first option).
    pub fn open_dropdown(&mut self)
        ensures
            *final(self) == old(self).with_dropdown(),
    {
        let highlighted: usize = match self.status {
            Some(WatchStatus::Planning) => 0,
            Some(WatchStatus::Watching) => 1,
            Some(WatchStatus::Completed) => 2,
            Some(WatchStatus::Dropped) => 3,
            None => 0,
        };
        self.mode = Mode::Dropdown { highlighted };
    }

    /// Apply one key press; returns how the session ended, if it did.
    pub fn handle_key(&mut self, key: KeyEvent) -> (r: Option<Outcome>)
        requires
            old(self).wf(),
        ensures
            (*final(self), r) == old(self).on_key(key),
            final(self).wf(),
    {
        match self.mode {
            Mode::Dropdown { highlighted } => {
                match key.code {
                    KeyCode::Up => {
                        self.mode = Mode::Dropdown {
                            highlighted: if highlighted == 0 {
                                3
                            } else {
                                highlighted - 1
                            },
                        };
                    },
                    KeyCode::Down => {
                        self.mode = Mode::Dropdown { highlighted: (highlighted + 1) % 4 };
                    },
                    KeyCode::Enter => {
                        let options = status_options();
                        self.status = Some(options[highlighted]);
                        self.mode = Mode::Nav;
                    },
                    KeyCode::Esc => {
                        self.mode = Mode::Nav;
                    },
                    _ => {},
                }
            },
            Mode::Spinner => {
                match key.code {
                    KeyCode::Up | KeyCode::Right => self.bump(1),
                    KeyCode::Char(c) => {
                        if c == '+' {
                            self.bump(1);
                        } else if c == '-' {
                            self.bump(-1);
                        }
                    },
                    KeyCode::Down | KeyCode::Left => self.bump(-1),
                    KeyCode::Enter | KeyCode::Esc => {
                        self.mode = Mode::Nav;
                    },
                    _ => {},
                }
            },
            Mode::Nav => {
                if key.code == KeyCode::Char('s') && key.modifiers.control {
                    return Some(Outcome::Submit);
                }
                match key.code {
                    KeyCode::Up | KeyCode::BackTab => {
                        self.focus = if self.focus == 0 {
                            FOCUS_COUNT - 1
                        } else {
                            self.focus - 1
                        };
                    },
                    KeyCode::Down | KeyCode::Tab => {
                        self.focus = (self.focus + 1) % FOCUS_COUNT;
                    },
                    KeyCode::Left => self.bump(-1),
                    KeyCode::Right => self.bump(1),
                    KeyCode::Enter => {
                        if self.focus == STATUS {
                            self.open_dropdown();
                        } else if self.focus == EPISODE || self.focus == SCORE || self.focus
                            == REWATCH {
                            self.bump(0);
                            self.mode = Mode::Spinner;
                        } else if self.focus == SAVE {
                            return Some(Outcome::Submit);
                        }
                    },
                    KeyCode::Delete | KeyCode::Backspace => self.clear_focused(),
                    KeyCode::Esc => {
                        return Some(Outcome::Cancel);
                    },
                    _ => {},
                }
            },
        }
        None
    }

    /// Apply one mouse event over the layout `regions`; returns how the
    /// session ended, if it did.
    pub fn handle_mouse(&mut self, mouse: MouseEvent, regions: &FormRegions) -> (r: Option<Outcome>)
        requires
            old(self).wf(),
            regions.well_shaped(),
        ensures
            (*final(self), r) == old(self).on_mouse(mouse, *regions),
            final(self).wf(),
    {
        if mouse.kind != MouseEventKind::LeftDown {
            return None;
        }
        let col = mouse.column;
        let row = mouse.row;
        if self.dropdown_open() {
            let hit = hit_index(&regions.dropdown_items, col, row);
            if hit < regions.dropdown_items.len() {
                let options = status_options();
                self.status = Some(options[hit]);
            }
            self.mode = Mode::Nav;
            return None;
        }
        let fields: [usize; 3] = [EPISODE, SCORE, REWATCH];
        let mut n: usize = 0;
        while n < 3
            invariant
                n <= 3,
                fields@ == seq![EPISODE, SCORE, REWATCH],
                regions.well_shaped(),
                *self == *old(self),
                !(self.mode is Dropdown),
                mouse.kind == MouseEventKind::LeftDown,
                col == mouse.column,
                row == mouse.row,
                forall|f: int|
                    1 <= f < n + 1 ==> !button_hit(regions.dec@[f], col, row) && !button_hit(
                        regions.inc@[f],
                        col,
                        row,
                    ),
            decreases 3 - n,
        {
            let field = fields[n];
            if let Some(r) = regions.dec[field] {
                if r.contains(col, row) {
                    self.focus = field;
                    self.bump(-1);
                    return None;
                }
            }
            if let Some(r) = regions.inc[field] {
                if r.contains(col, row) {
                    self.focus = field;
                    self.bump(1);
                    return None;
                }
            }
            n = n + 1;
        }
        if regions.save.contains(col, row) {
            return Some(Outcome::Submit);
        }
        let field = hit_index(&regions.rows, col, row);
        if field < regions.rows.len() {
            self.focus = field;
            self.mode = Mode::Nav;
            if field == STATUS {
                self.open_dropdown();
            }
        }
        None
    }
}

/// Every key press keeps the form well formed, keeps the score within
/// 0..=10, and keeps episode progress and the rewatch count within their
/// ceilings once they are.
pub proof fn law_key_keeps_bounds(f: AddForm, key: KeyEvent)
    requires
        f.wf(),
        f.score matches Some(s) ==> s <= SCORE_MAX,
        f.episode matches Some(e) ==> e <= f.episode_cap(),
        f.rewatch matches Some(r) ==> r <= REWATCH_MAX,
    ensures
        f.on_key(key).0.wf(),
        f.on_key(key).0.score matches Some(s) ==> s <= SCORE_MAX,
        f.on_key(key).0.episode matches Some(e) ==> e <= f.episode_cap(),
        f.on_key(key).0.rewatch matches Some(r) ==> r <= REWATCH_MAX,
        f.on_key(key).0.baseline == f.baseline,
        f.on_key(key).0.episode_max == f.episode_max,
{
}

/// A form opened on existing state and submitted untouched stages nothing:
/// only what actually changed is ever recorded.
pub proof fn law_untouched_form_stages_nothing(
    title: Seq<char>,
    existing: Option<Changes>,
    f: AddForm,
)
    requires
        f.baseline == (match existing {
            Some(c) => c,
            None => no_changes(),
        }),
        f.status == f.baseline.status,
        f.episode == f.baseline.episode_progress,
        f.score == f.baseline.score,
        f.rewatch == f.baseline.rewatch_count,
    ensures
        f.spec_changes() == no_changes(),
{
}

/// A staged field is always the form's current value, and differs from the
/// opening value; an unstaged field either still holds the opening value or
/// was cleared.
pub proof fn law_changes_are_exact_deltas(f: AddForm)
    ensures
        f.spec_changes().status is Some ==> f.spec_changes().status == f.status && f.status
            != f.baseline.status,
        f.spec_changes().status is None ==> f.status == f.baseline.status || f.status is None,
        f.spec_changes().episode_progress is Some ==> f.spec_changes().episode_progress
            == f.episode && f.episode != f.baseline.episode_progress,
        f.spec_changes().episode_progress is None ==> f.episode == f.baseline.episode_progress
            || f.episode is None,
        f.spec_changes().score is Some ==> f.spec_changes().score == f.score && f.score
            != f.baseline.score,
        f.spec_changes().score is None ==> f.score == f.baseline.score || f.score is None,
        f.spec_changes().rewatch_count is Some ==> f.spec_changes().rewatch_count == f.rewatch
            && f.rewatch != f.baseline.rewatch_count,
        f.spec_changes().rewatch_count is None ==> f.rewatch == f.baseline.rewatch_count
            || f.rewatch is None,
{
}

// ---------------------------------------------------------------------------
// Layout
// ---------------------------------------------------------------------------

/// Column, relative to the form's inner area, where field values start.
pub const VALUE_COL: u16 = 20;
/// Offset of the `[+]` button from the value column.
pub const INC_OFF: u16 = 16;
pub const BTN_W: u16 = 3;
pub const DROPDOWN_W: u16 = 16;
pub const FORM_W: u16 = 58;
pub const FORM_H: u16 = 9;

/// Where each part of the form sits on screen, shared by drawing and mouse
/// hit-testing.
#[derive(Debug, Clone)]
pub struct FormRegions {
    pub block: Rect,
    /// One row per field, top to bottom.
    pub rows: Vec<Rect>,
    /// The `[-]` / `[+]` buttons of the numeric fields (none for the status).
    pub dec: Vec<Option<Rect>>,
    pub inc: Vec<Option<Rect>>,
    pub save: Rect,
    pub footer: Rect,
    /// One rectangle per dropdown option while the dropdown is open.
    pub dropdown_items: Vec<Rect>,
}

impl FormRegions {
    /// Four rows and four button slots; at most four dropdown options.
    pub open spec fn well_shaped(self) -> bool {
        &&& self.rows@.len() == 4
        &&& self.dec@.len() == 4
        &&& self.inc@.len() == 4
        &&& self.dropdown_items@.len() <= 4
    }
}

/// The form's bordered block: 58 by 9 cells (or the whole area if smaller),
/// centered in `area`.
pub open spec fn form_block(area: Rect) -> Rect {
    let w = if area.width < FORM_W { area.width } else { FORM_W };
    let h = if area.height < FORM_H { area.height } else { FORM_H };
    rect(
        (area.x + (area.width - w) / 2) as u16,
        (area.y + (area.height - h) / 2) as u16,
        w,
        h,
    )
}

/// The block's interior, one cell in from each border.
pub open spec fn form_inner(block: Rect) -> Rect {
    rect(
        (block.x + 1) as u16,
        (block.y + 1) as u16,
        (if block.width < 2 { 0 } else { block.width - 2 }) as u16,
        (if block.height < 2 { 0 } else { block.height - 2 }) as u16,
    )
}

/// Every coordinate the layout of `area` computes stays within `u16`.
pub open spec fn form_layout_fits(area: Rect) -> bool {
    let block = form_block(area);
    &&& area.x + (area.width - (if area.width < FORM_W { area.width } else { FORM_W })) / 2
        <= u16::MAX
    &&& area.y + (area.height - (if area.height < FORM_H { area.height } else { FORM_H })) / 2
        <= u16::MAX
    &&& block.x + 1 + VALUE_COL + INC_OFF <= u16::MAX
    &&& block.y + 1 + 5 <= u16::MAX
    &&& block.y + block.height <= u16::MAX
}

/// Field row `i` (0..4) of the form inside `area`.
pub open spec fn form_row(area: Rect, i: int) -> Rect {
    let inner = form_inner(form_block(area));
    rect(inner.x, (inner.y + i) as u16, inner.width, 1)
}

/// First column of the field values.
pub open spec fn form_value_x(area: Rect) -> u16 {
    (form_inner(form_block(area)).x + VALUE_COL) as u16
}

/// The `[-]` button of numeric field `i`.
pub open spec fn form_dec(area: Rect, i: int) -> Rect {
    rect(form_value_x(area), form_row(area, i).y, BTN_W, 1)
}

/// The `[+]` button of numeric field `i`.
pub open spec fn form_inc(area: Rect, i: int) -> Rect {
    rect((form_value_x(area) + INC_OFF) as u16, form_row(area, i).y, BTN_W, 1)
}

/// The rectangle of dropdown option `i`, just below the status row.
pub open spec fn form_dropdown_item(area: Rect, i: int) -> Rect {
    rect(form_value_x(area), (form_row(area, STATUS as int).y + 1 + i) as u16, DROPDOWN_W, 1)
}

/// Layout of the form inside `area`: the centered block, one row per field,
/// stepper buttons for the numeric fields, the Save button two rows below
/// the last field, a one-line footer under the block, and (while the
/// dropdown is open) one rectangle per status option.
pub fn compute_regions(area: Rect, dropdown_open: bool) -> (r: FormRegions)
    requires
        form_layout_fits(area),
    ensures
        r.well_shaped(),
        r.block == form_block(area),
        forall|i: int| 0 <= i < 4 ==> r.rows@[i] == form_row(area, i),
        r.dec@[0] is None && r.inc@[0] is None,
        forall|i: int| 1 <= i < 4 ==> r.dec@[i] == Some(form_dec(area, i)),
        forall|i: int| 1 <= i < 4 ==> r.inc@[i] == Some(form_inc(area, i)),
        r.save == rect(form_value_x(area), (form_inner(form_block(area)).y + 5) as u16, 8, 1),
        r.footer == rect(
            r.block.x,
            (r.block.y + r.block.height) as u16,
            (if area.width >= r.block.x - area.x { area.width - (r.block.x - area.x) } else { 0 }) as u16,
            1,
        ),
        dropdown_open ==> r.dropdown_items@.len() == 4,
        !dropdown_open ==> r.dropdown_items@.len() == 0,
        forall|i: int| 0 <= i < r.dropdown_items@.len() ==> r.dropdown_items@[i] == form_dropdown_item(area, i),
{
    let width = if area.width < FORM_W { area.width } else { FORM_W };
    let height = if area.height < FORM_H { area.height } else { FORM_H };
    let block = Rect::new(
        area.x + (area.width - width) / 2,
        area.y + (area.height - height) / 2,
        width,
        height,
    );
    let inner = Rect::new(
        block.x + 1,
        block.y + 1,
        block.width.saturating_sub(2),
        block.height.saturating_sub(2),
    );
    let value_x = inner.x + VALUE_COL;
    let row0 = Rect::new(inner.x, inner.y, inner.width, 1);
    let row1 = Rect::new(inner.x, inner.y + 1, inner.width, 1);
    let row2 = Rect::new(inner.x, inner.y + 2, inner.width, 1);
    let row3 = Rect::new(inner.x, inner.y + 3, inner.width, 1);
    let dec = vec![
        None,
        Some(Rect::new(value_x, row1.y, BTN_W, 1)),
        Some(Rect::new(value_x, row2.y, BTN_W, 1)),
        Some(Rect::new(value_x, row3.y, BTN_W, 1)),
    ];
    let inc = vec![
        None,
        Some(Rect::new(value_x + INC_OFF, row1.y, BTN_W, 1)),
        Some(Rect::new(value_x + INC_OFF, row2.y, BTN_W, 1)),
        Some(Rect::new(value_x + INC_OFF, row3.y, BTN_W, 1)),
    ];
    let mut dropdown_items: Vec<Rect> = Vec::new();
    if dropdown_open {
        let mut i: u16 = 0;
        while i < 4
            invariant
                i <= 4,
                form_layout_fits(area),
                row0 == form_row(area, 0),
                value_x == form_value_x(area),
                dropdown_items@.len() == i,
                forall|k: int| 0 <= k < i ==> dropdown_items@[k] == form_dropdown_item(area, k),
            decreases 4 - i,
        {
            dropdown_items.push(Rect::new(value_x, row0.y + 1 + i, DROPDOWN_W, 1));
            i = i + 1;
        }
    }
    FormRegions {
        block,
        rows: vec![row0, row1, row2, row3],
        dec,
        inc,
        save: Rect::new(value_x, inner.y + 5, 8, 1),
        footer: Rect::new(block.x, block.y + block.height, area.width.saturating_sub(block.x - area.x), 1),
        dropdown_items,
    }
}

// ---------------------------------------------------------------------------
// Text
// ---------------------------------------------------------------------------

/// Width the numeric values are centered in: `99999/99999` fits exactly.
pub const VAL_W: usize = 11;

/// The label of field `field`.
pub open spec fn field_label(field: int) -> Seq<char> {
    if field == STATUS {
        "Status"@
    } else if field == EPISODE {
        "Episode progress"@
    } else if field == SCORE {
        "Score (0-10)"@
    } else {
        "Rewatch count"@
    }
}

/// The left part of a field row: a marker on the focused field and the
/// label padded to 18 characters.
pub open spec fn label_text(field: int, focused: bool) -> Seq<char> {
    (if focused { "› "@ } else { "  "@ }) + padded(field_label(field), 18)
}

/// Render the left part of field row `field`.
pub fn label_line(field: usize, focused: bool) -> (r: String)
    requires
        field < 4,
    ensures
        r@ == label_text(field as int, focused),
{
    proof {
        reveal_strlit("› ");
        reveal_strlit("  ");
    }
    let mut s = owned(if focused { "› " } else { "  " });
    let label = if field == STATUS {
        "Status"
    } else if field == EPISODE {
        "Episode progress"
    } else if field == SCORE {
        "Score (0-10)"
    } else {
        "Rewatch count"
    };
    push_padded(&mut s, label, 18);
    s
}

/// `s` centered in `width` characters, the odd space going to the right.
pub open spec fn centered(s: Seq<char>, width: int) -> Seq<char> {
    if s.len() >= width {
        s
    } else {
        let pad = width - s.len();
        Seq::new((pad / 2) as nat, |i: int| ' ') + s + Seq::new((pad - pad / 2) as nat, |i: int| ' ')
    }
}

fn push_spaces(out: &mut String, n: usize)
    ensures
        final(out)@ == old(out)@ + Seq::new(n as nat, |i: int| ' '),
{
    let ghost start = out@;
    let mut k: usize = 0;
    while k < n
        invariant
            k <= n,
            out@ == start + Seq::new(k as nat, |i: int| ' '),
        decreases n - k,
    {
        string_push(out, ' ');
        proof {
            assert(out@ =~= start + Seq::new((k + 1) as nat, |i: int| ' '));
        }
        k = k + 1;
    }
}

/// The value shown in the status row.
pub open spec fn status_value_text(status: Option<WatchStatus>) -> Seq<char> {
    (match status {
        Some(s) => status_text(s),
        None => "(unset)"@,
    }) + " ▾"@
}

/// The value a numeric field shows: the episode with its real cap when
/// known (`12/24`), else the number alone.
pub open spec fn number_text(f: AddForm, field: int) -> Option<Seq<char>> {
    if field == EPISODE {
        match f.episode {
            Some(v) => Some(match f.episode_max {
                Some(max) => decimal(v as nat) + "/"@ + decimal(max as nat),
                None => decimal(v as nat),
            }),
            None => None,
        }
    } else if field == SCORE {
        match f.score {
            Some(v) => Some(decimal(v as nat)),
            None => None,
        }
    } else {
        match f.rewatch {
            Some(v) => Some(decimal(v as nat)),
            None => None,
        }
    }
}

/// The value cell between a numeric field's buttons.
pub open spec fn spinner_value_text(f: AddForm, field: int) -> Seq<char> {
    " "@ + centered(
        match number_text(f, field) {
            Some(t) => t,
            None => "(unset)"@,
        },
        VAL_W as int,
    ) + " "@
}

/// The hint line for each mode.
pub open spec fn hint_text(mode: Mode) -> Seq<char> {
    match mode {
        Mode::Nav => "↑/↓ move · Enter edit · ←/→ step · Del clear · Ctrl+S/Save submit · Esc cancel"@,
        Mode::Dropdown { .. } => "↑/↓ choose · Enter select · Esc close"@,
        Mode::Spinner => "↑/↓ adjust · Enter done"@,
    }
}

/// One option of the open status dropdown.
pub open spec fn dropdown_option_text(s: WatchStatus) -> Seq<char> {
    " "@ + padded(status_text(s), DROPDOWN_W - 1)
}

/// Render one option of the open status dropdown.
pub fn dropdown_option(s: WatchStatus) -> (r: String)
    ensures
        r@ == dropdown_option_text(s),
{
    proof {
        reveal_strlit(" ");
    }
    let mut out = owned(" ");
    push_padded(&mut out, status_name(s), 15);
    out
}

impl AddForm {
    /// Render the status row's value.
    pub fn status_value(&self) -> (r: String)
        ensures
            r@ == status_value_text(self.status),
    {
        proof {
            reveal_strlit("(unset)");
            reveal_strlit(" ▾");
        }
        let mut s = match self.status {
            Some(st) => owned(status_name(st)),
            None => owned("(unset)"),
        };
        push_str(&mut s, " ▾");
        s
    }

    /// Render the value cell of numeric field `field`.
    pub fn spinner_value(&self, field: usize) -> (r: String)
        requires
            1 <= field < 4,
        ensures
            r@ == spinner_value_text(*self, field as int),
    {
        proof {
            reveal_strlit("(unset)");
            reveal_strlit("/");
            reveal_strlit(" ");
        }
        let mut value = String::new();
        let set = if field == EPISODE {
            match self.episode {
                Some(v) => {
                    push_decimal(&mut value, v as u64);
                    match self.episode_max {
                        Some(max) => {
                            push_str(&mut value, "/");
                            push_decimal(&mut value, max as u64);
                        },
                        None => {},
                    }
                    true
                },
                None => false,
            }
        } else if field == SCORE {
            match self.score {
                Some(v) => {
                    push_decimal(&mut value, v as u64);
                    true
                },
                None => false,
            }
        } else {
            match self.rewatch {
                Some(v) => {
                    push_decimal(&mut value, v as u64);
                    true
                },
                None => false,
            }
        };
        if !set {
            value = owned("(unset)");
        }
        proof {
            assert(Some(value@) == number_text(*self, field as int) || (number_text(*self, field as int) is None && value@ == "(unset)"@));
        }
        let n = crate::text::chars_of(value.as_str()).len();
        let mut out = owned(" ");
        if n >= VAL_W {
            push_string(&mut out, &value);
        } else {
            let pad = VAL_W - n;
            push_spaces(&mut out, pad / 2);
            push_string(&mut out, &value);
            push_spaces(&mut out, pad - pad / 2);
        }
        push_str(&mut out, " ");
        proof {
            let t = match number_text(*self, field as int) {
                Some(t) => t,
                None => "(unset)"@,
            };
            assert(t == value@);
            assert(out@ =~= " "@ + centered(t, VAL_W as int) + " "@);
        }
        out
    }

    /// Render the hint line for the form's mode.
    pub fn hint(&self) -> (r: &'static str)
        ensures
            r@ == hint_text(self.mode),
    {
        match self.mode {
            Mode::Nav => "↑/↓ move · Enter edit · ←/→ step · Del clear · Ctrl+S/Save submit · Esc cancel",
            Mode::Dropdown { .. } => "↑/↓ choose · Enter select · Esc close",
            Mode::Spinner => "↑/↓ adjust · Enter done",
        }
    }
}

} // verus!
