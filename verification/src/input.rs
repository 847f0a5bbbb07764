//! Terminal geometry and input events, as plain values the screens' state
//! machines read: rectangles in cell coordinates, key presses, mouse presses.
use vstd::prelude::*;

verus! {

/// A rectangle of terminal cells: top-left corner plus size. `new` keeps the
/// far edges within the coordinate range, the way the terminal library does.
#[derive(Debug, Clone, Copy, PartialEq, Eq, Structural)]
pub struct Rect {
    pub x: u16,
    pub y: u16,
    pub width: u16,
    pub height: u16,
}

/// The rectangle `Rect::new(x, y, width, height)` builds: size cut down so
/// that the right and bottom edges stay representable.
pub open spec fn rect(x: u16, y: u16, width: u16, height: u16) -> Rect {
    Rect {
        x,
        y,
        width: if width > u16::MAX - x { (u16::MAX - x) as u16 } else { width },
        height: if height > u16::MAX - y { (u16::MAX - y) as u16 } else { height },
    }
}

/// First column right of `r` (saturating at the end of the range).
pub open spec fn rect_right(r: Rect) -> int {
    if r.x + r.width > u16::MAX { u16::MAX as int } else { r.x + r.width }
}

/// First row below `r` (saturating at the end of the range).
pub open spec fn rect_bottom(r: Rect) -> int {
    if r.y + r.height > u16::MAX { u16::MAX as int } else { r.y + r.height }
}

/// The cell `(col, row)` lies inside `r`.
pub open spec fn rect_contains(r: Rect, col: u16, row: u16) -> bool {
    r.x <= col && col < rect_right(r) && r.y <= row && row < rect_bottom(r)
}

impl Rect {
    pub fn new(x: u16, y: u16, width: u16, height: u16) -> (r: Rect)
        ensures
            r == rect(x, y, width, height),
    {
        let max_width = u16::MAX - x;
        let max_height = u16::MAX - y;
        Rect {
            x,
            y,
            width: if width > max_width { max_width } else { width },
            height: if height > max_height { max_height } else { height },
        }
    }

    /// The cell `(col, row)` lies inside this rectangle (edges saturate at
    /// the end of the coordinate range).
    pub fn contains(&self, col: u16, row: u16) -> (b: bool)
        ensures
            b == rect_contains(*self, col, row),
    {
        let right = self.x.saturating_add(self.width);
        let bottom = self.y.saturating_add(self.height);
        col >= self.x && col < right && row >= self.y && row < bottom
    }
}

/// A key, as far as the screens tell keys apart.
#[derive(Debug, Clone, Copy, PartialEq, Eq, Structural)]
pub enum KeyCode {
    Char(char),
    Enter,
    Esc,
    Up,
    Down,
    Left,
    Right,
    Tab,
    BackTab,
    Backspace,
    Delete,
    Other,
}

/// The modifier keys held during a key press that the screens look at.
#[derive(Debug, Clone, Copy, PartialEq, Eq, Structural)]
pub struct KeyModifiers {
    pub control: bool,
    pub alt: bool,
}

impl KeyModifiers {
    /// No modifier held.
    pub fn none() -> (m: KeyModifiers)
        ensures
            !m.control && !m.alt,
    {
        KeyModifiers { control: false, alt: false }
    }
}

/// One key press.
#[derive(Debug, Clone, Copy, PartialEq, Eq, Structural)]
pub struct KeyEvent {
    pub code: KeyCode,
    pub modifiers: KeyModifiers,
}

impl KeyEvent {
    pub fn new(code: KeyCode, modifiers: KeyModifiers) -> (k: KeyEvent)
        ensures
            k.code == code && k.modifiers == modifiers,
    {
        KeyEvent { code, modifiers }
    }
}

/// What the mouse did, as far as the screens tell it apart.
#[derive(Debug, Clone, Copy, PartialEq, Eq, Structural)]
pub enum MouseEventKind {
    ScrollUp,
    ScrollDown,
    LeftDown,
    Other,
}

/// One mouse event at a cell.
#[derive(Debug, Clone, Copy, PartialEq, Eq, Structural)]
pub struct MouseEvent {
    pub kind: MouseEventKind,
    pub column: u16,
    pub row: u16,
}

} // verus!
