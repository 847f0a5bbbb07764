//! The two incremental-search screens: `anigit add` searches the whole
//! catalog (the caller re-queries on every edit and hands the results in),
//! `anigit blame` filters a fixed list of already-tracked entries in memory.
//! Both share the same keys, mouse handling and top-anchored layout.
use vstd::prelude::*;

use crate::catalog::{display_title_of, CatalogEntry};
use crate::input::{rect, rect_contains, KeyCode, KeyEvent, MouseEvent, MouseEventKind, Rect};
use crate::text::{chars_of, contains_chars, contains_seq, string_from_chars, string_push};

verus! {

/// What a key or mouse event asks the caller to do next.
#[derive(Debug, Clone, Copy, PartialEq, Eq, Structural)]
pub enum Action {
    Nothing,
    /// The query text changed: re-run the search.
    QueryChanged,
    /// The highlighted entry was confirmed.
    Selected,
    Cancelled,
}

/// `String::pop`: removes and returns the last character, if any.
#[verifier::external_body]
fn string_pop(s: &mut String) -> (r: Option<char>)
    ensures
        old(s)@.len() == 0 ==> r is None && final(s)@ == old(s)@,
        old(s)@.len() > 0 ==> r == Some(old(s)@.last()) && final(s)@ == old(s)@.drop_last(),
{
    s.pop()
}

/// Lower-cased text, by Unicode's full case mapping.
pub uninterp spec fn lowercase(s: Seq<char>) -> Seq<char>;

/// A character lower-cased the ASCII way: `A`–`Z` become `a`–`z`.
pub open spec fn ascii_lower(c: char) -> char {
    if 'A' <= c && c <= 'Z' {
        ((c as u32) + 32) as char
    } else {
        c
    }
}

/// Every character of `s` is ASCII.
pub open spec fn all_ascii(s: Seq<char>) -> bool {
    forall|i: int| 0 <= i < s.len() ==> (#[trigger] s[i] as u32) < 128
}

/// `str::to_lowercase`. The claim is that the result is `lowercase` of the
/// text, and that ASCII text is lower-cased character by character, `A`–`Z`
/// becoming `a`–`z` and everything else staying (Unicode's lower-case
/// mapping of the ASCII range); beyond ASCII nothing is spelled out.
#[verifier::external_body]
pub(crate) fn to_lowercase(s: &str) -> (r: String)
    ensures
        r@ == lowercase(s@),
        all_ascii(s@) ==> r@ == s@.map_values(|c: char| ascii_lower(c)),
{
    s.to_lowercase()
}

/// The highlight after moving `delta` rows within a list of `len` rows:
/// clamped to the list, unchanged on an empty list.
pub open spec fn moved(highlighted: int, len: int, delta: int) -> int {
    if len == 0 {
        highlighted
    } else if highlighted + delta < 0 {
        0
    } else if highlighted + delta > len - 1 {
        len - 1
    } else {
        highlighted + delta
    }
}

/// The first visible row after scrolling just enough to show `highlighted`
/// in a window of `max_rows` rows (no window, no change).
pub open spec fn scrolled(scroll: int, highlighted: int, max_rows: int) -> int {
    if max_rows == 0 {
        scroll
    } else if highlighted < scroll {
        highlighted
    } else if highlighted >= scroll + max_rows {
        highlighted + 1 - max_rows
    } else {
        scroll
    }
}

fn move_in_list(highlighted: usize, len: usize, delta: i64) -> (r: usize)
    requires
        len <= i64::MAX,
        len == 0 || highlighted < len,
        len == 0 || i64::MIN <= highlighted + delta <= i64::MAX,
    ensures
        r == moved(highlighted as int, len as int, delta as int),
{
    if len == 0 {
        return highlighted;
    }
    let last = len as i64 - 1;
    let next = highlighted as i64 + delta;
    if next < 0 {
        0
    } else if next > last {
        last as usize
    } else {
        next as usize
    }
}

fn scroll_to(scroll: usize, highlighted: usize, max_rows: usize) -> (r: usize)
    requires
        max_rows == 0 || highlighted < scroll || scroll + max_rows <= usize::MAX,
    ensures
        r == scrolled(scroll as int, highlighted as int, max_rows as int),
{
    if max_rows == 0 {
        return scroll;
    }
    if highlighted < scroll {
        highlighted
    } else if highlighted >= scroll + max_rows {
        highlighted - max_rows + 1
    } else {
        scroll
    }
}

/// After scrolling, the highlighted row lies inside the visible window.
pub proof fn law_scroll_keeps_highlight_visible(scroll: int, highlighted: int, max_rows: int)
    requires
        0 <= scroll,
        0 <= highlighted,
        max_rows > 0,
    ensures
        scrolled(scroll, highlighted, max_rows) <= highlighted < scrolled(scroll, highlighted, max_rows)
            + max_rows,
        0 <= scrolled(scroll, highlighted, max_rows),
{
}

/// Moving the highlight never leaves a non-empty list.
pub proof fn law_move_stays_in_list(highlighted: int, len: int, delta: int)
    requires
        len > 0,
    ensures
        0 <= moved(highlighted, len, delta) < len,
{
}

/// The response of the shared keys: Esc cancels, Enter confirms a
/// non-empty list, arrows move, Backspace and plain characters edit the
/// query. Gives the action, the query and the highlight afterwards.
pub open spec fn key_response(query: Seq<char>, len: int, highlighted: int, key: KeyEvent) -> (
    Action,
    Seq<char>,
    int,
) {
    match key.code {
        KeyCode::Esc => (Action::Cancelled, query, highlighted),
        KeyCode::Enter => (
            if len == 0 {
                Action::Nothing
            } else {
                Action::Selected
            },
            query,
            highlighted,
        ),
        KeyCode::Up => (Action::Nothing, query, moved(highlighted, len, -1)),
        KeyCode::Down => (Action::Nothing, query, moved(highlighted, len, 1)),
        KeyCode::Backspace => if query.len() > 0 {
            (Action::QueryChanged, query.drop_last(), highlighted)
        } else {
            (Action::Nothing, query, highlighted)
        },
        KeyCode::Char(c) => if !key.modifiers.control && !key.modifiers.alt {
            (Action::QueryChanged, query.push(c), highlighted)
        } else {
            (Action::Nothing, query, highlighted)
        },
        _ => (Action::Nothing, query, highlighted),
    }
}

/// The response of the shared mouse handling over result rows `rows`:
/// scrolling moves the highlight; a left click on a visible row highlights
/// it, and a click on the already-highlighted row confirms it. Gives the
/// action and the highlight afterwards.
pub open spec fn mouse_response(
    len: int,
    highlighted: int,
    scroll: int,
    rows: Seq<Rect>,
    mouse: MouseEvent,
) -> (Action, int) {
    match mouse.kind {
        MouseEventKind::ScrollUp => (Action::Nothing, moved(highlighted, len, -1)),
        MouseEventKind::ScrollDown => (Action::Nothing, moved(highlighted, len, 1)),
        MouseEventKind::LeftDown => {
            let row = crate::form::first_hit(rows, mouse.column, mouse.row);
            if row < rows.len() {
                let index = scroll + row;
                if index >= len {
                    (Action::Nothing, highlighted)
                } else if index == highlighted {
                    (Action::Selected, highlighted)
                } else {
                    (Action::Nothing, index)
                }
            } else {
                (Action::Nothing, highlighted)
            }
        },
        MouseEventKind::Other => (Action::Nothing, highlighted),
    }
}

// ---------------------------------------------------------------------------
// Layout
// ---------------------------------------------------------------------------

/// Height of the bordered single-line input.
pub const INPUT_HEIGHT: u16 = 3;
/// Widest the screen gets.
pub const MAX_WIDTH: u16 = 70;

/// Where each part of a search screen sits: the input box, one rectangle
/// per visible result row, the footer, and how many rows fit.
#[derive(Debug, Clone)]
pub struct Regions {
    pub input: Rect,
    pub result_rows: Vec<Rect>,
    pub footer: Rect,
    pub max_rows: usize,
}

/// Width of the screen in `area`: the area's width, at most 70.
pub open spec fn screen_width(area: Rect) -> u16 {
    if area.width < MAX_WIDTH { area.width } else { MAX_WIDTH }
}

/// Left edge of the horizontally centered screen.
pub open spec fn screen_x(area: Rect) -> int {
    area.x + (area.width - screen_width(area)) / 2
}

/// Result rows that fit between the input and the one-line footer.
pub open spec fn screen_max_rows(area: Rect) -> int {
    if area.height < INPUT_HEIGHT + 1 { 0 } else { area.height - (INPUT_HEIGHT + 1) }
}

/// Result rows shown for `visible` results.
pub open spec fn screen_shown(area: Rect, visible: int) -> int {
    if visible < screen_max_rows(area) { visible } else { screen_max_rows(area) }
}

/// Every coordinate the layout of `area` with `visible` results computes
/// stays within `u16`.
pub open spec fn screen_layout_fits(area: Rect, visible: int) -> bool {
    screen_x(area) <= u16::MAX && area.y + INPUT_HEIGHT + screen_shown(area, visible) <= u16::MAX
}

/// Layout of a search screen in `area` with `visible_results` results:
/// centered horizontally, anchored at the top; the input box on top, then
/// as many result rows as there are results and room, then the footer.
pub fn compute_regions(area: Rect, visible_results: usize) -> (r: Regions)
    requires
        screen_layout_fits(area, visible_results as int),
    ensures
        r.input == rect(screen_x(area) as u16, area.y, screen_width(area), if INPUT_HEIGHT < area.height {
            INPUT_HEIGHT
        } else {
            area.height
        }),
        r.max_rows == screen_max_rows(area),
        r.result_rows@.len() == (if visible_results < r.max_rows {
            visible_results as int
        } else {
            r.max_rows as int
        }),
        forall|i: int|
            0 <= i < r.result_rows@.len() ==> r.result_rows@[i] == rect(
                screen_x(area) as u16,
                (area.y + INPUT_HEIGHT + i) as u16,
                screen_width(area),
                1,
            ),
        r.footer == rect(
            screen_x(area) as u16,
            (area.y + INPUT_HEIGHT + r.result_rows@.len()) as u16,
            (area.width - (screen_x(area) - area.x)) as u16,
            1,
        ),
{
    let width = if area.width < MAX_WIDTH { area.width } else { MAX_WIDTH };
    let x = area.x + (area.width - width) / 2;
    let input = Rect::new(x, area.y, width, if INPUT_HEIGHT < area.height {
        INPUT_HEIGHT
    } else {
        area.height
    });
    let max_rows = area.height.saturating_sub(INPUT_HEIGHT + 1) as usize;
    let shown = if visible_results < max_rows { visible_results } else { max_rows };
    let mut result_rows: Vec<Rect> = Vec::new();
    let mut i: usize = 0;
    while i < shown
        invariant
            i <= shown <= max_rows,
            max_rows == screen_max_rows(area),
            screen_layout_fits(area, visible_results as int),
            shown == screen_shown(area, visible_results as int),
            x == screen_x(area),
            width == screen_width(area),
            result_rows@.len() == i,
            forall|k: int|
                0 <= k < i ==> result_rows@[k] == rect(
                    x,
                    (area.y + INPUT_HEIGHT + k) as u16,
                    width,
                    1,
                ),
        decreases shown - i,
    {
        result_rows.push(Rect::new(x, area.y + INPUT_HEIGHT + i as u16, width, 1));
        i = i + 1;
    }
    let footer = Rect::new(x, area.y + INPUT_HEIGHT + shown as u16, area.width - (x - area.x), 1);
    Regions { input, result_rows, footer, max_rows }
}

/// `s` cut to at most `max_chars` characters, ending in `…` when cut.
pub open spec fn truncated(s: Seq<char>, max_chars: int) -> Seq<char> {
    if s.len() <= max_chars {
        s
    } else {
        s.take(if max_chars >= 1 { max_chars - 1 } else { 0 }).push('…')
    }
}

/// `s` cut to at most `max_chars` characters, ending in `…` when cut.
pub fn truncate(s: &str, max_chars: usize) -> (r: String)
    ensures
        r@ == truncated(s@, max_chars as int),
{
    let cs = chars_of(s);
    if cs.len() <= max_chars {
        return string_from_chars(&cs);
    }
    let keep = if max_chars >= 1 { max_chars - 1 } else { 0 };
    let mut out = crate::text::string_from_range(&cs, 0, keep);
    string_push(&mut out, '…');
    out
}

// ---------------------------------------------------------------------------
// Screen text
// ---------------------------------------------------------------------------

/// `s` followed by spaces up to `width` characters (as is when already that long).
pub open spec fn padded(s: Seq<char>, width: int) -> Seq<char> {
    if s.len() >= width {
        s
    } else {
        s + Seq::new((width - s.len()) as nat, |i: int| ' ')
    }
}

pub(crate) fn push_padded(out: &mut String, s: &str, width: usize)
    ensures
        final(out)@ == old(out)@ + padded(s@, width as int),
{
    crate::text::push_str(out, s);
    let n = chars_of(s).len();
    let ghost mid = out@;
    let mut k: usize = n;
    while k < width
        invariant
            n == s@.len(),
            n <= k <= width || (k == n && n >= width),
            out@ == mid + Seq::new((k - n) as nat, |i: int| ' '),
        decreases width - k,
    {
        string_push(out, ' ');
        proof {
            assert(out@ =~= mid + Seq::new((k + 1 - n) as nat, |i: int| ' '));
        }
        k = k + 1;
    }
    proof {
        if n >= width {
            assert(out@ =~= old(out)@ + s@);
        } else {
            assert(out@ =~= old(out)@ + padded(s@, width as int));
        }
    }
}

/// Bytes a character takes in UTF-8.
pub open spec fn utf8_len(c: char) -> int {
    if (c as u32) < 0x80 {
        1
    } else if (c as u32) < 0x800 {
        2
    } else if (c as u32) < 0x10000 {
        3
    } else {
        4
    }
}

/// Bytes the first `n` characters of `s` take in UTF-8.
pub open spec fn utf8_prefix_len(s: Seq<char>, n: int) -> int
    decreases n,
{
    if n <= 0 {
        0
    } else {
        utf8_prefix_len(s, n - 1) + utf8_len(s[n - 1])
    }
}

proof fn lemma_utf8_prefix_grows(s: Seq<char>, a: int, b: int)
    requires
        0 <= a <= b,
    ensures
        utf8_prefix_len(s, a) + (b - a) <= utf8_prefix_len(s, b),
    decreases b - a,
{
    if a < b {
        lemma_utf8_prefix_grows(s, a, b - 1);
    }
}

/// The year shown for a start date: its first four bytes when those end
/// between two characters, else the whole text.
pub open spec fn year_text(d: Seq<char>) -> Seq<char> {
    if exists|n: int| 0 <= n <= d.len() && #[trigger] utf8_prefix_len(d, n) == 4 {
        d.take(choose|n: int| 0 <= n <= d.len() && #[trigger] utf8_prefix_len(d, n) == 4)
    } else {
        d
    }
}

fn char_width(c: char) -> (r: usize)
    ensures
        r == utf8_len(c),
{
    let v = c as u32;
    if v < 0x80 {
        1
    } else if v < 0x800 {
        2
    } else if v < 0x10000 {
        3
    } else {
        4
    }
}

/// The year shown for a start date `d`.
pub fn year_of(d: &str) -> (r: String)
    ensures
        r@ == year_text(d@),
{
    let cs = chars_of(d);
    let mut i: usize = 0;
    let mut bytes: usize = 0;
    while i < cs.len() && bytes < 4
        invariant
            cs@ == d@,
            i <= cs@.len(),
            bytes == utf8_prefix_len(d@, i as int),
            forall|m: int| 0 <= m < i ==> #[trigger] utf8_prefix_len(d@, m) < 4,
        decreases cs@.len() - i,
    {
        let w = char_width(cs[i]);
        proof {
            assert(utf8_prefix_len(d@, i + 1) == bytes + w);
        }
        bytes = bytes + w;
        i = i + 1;
    }
    if bytes == 4 {
        proof {
            assert forall|n: int| 0 <= n <= d@.len() && #[trigger] utf8_prefix_len(d@, n) == 4 implies n == i by {
                if n > i {
                    lemma_utf8_prefix_grows(d@, i as int, n);
                }
            }
        }
        crate::text::string_from_range(&cs, 0, i)
    } else {
        proof {
            assert forall|n: int| 0 <= n <= d@.len() implies #[trigger] utf8_prefix_len(d@, n) != 4 by {
                if n == i {
                } else if n > i {
                    lemma_utf8_prefix_grows(d@, i as int, n);
                }
            }
        }
        string_from_chars(&cs)
    }
}

/// The format shown for an entry, `-` when unknown.
pub open spec fn format_text(e: CatalogEntry) -> Seq<char> {
    match e.format {
        Some(f) => f@,
        None => "-"@,
    }
}

/// The year shown for an entry, `-` when its start is unknown.
pub open spec fn start_year_text(e: CatalogEntry) -> Seq<char> {
    match e.start_date {
        Some(d) => year_text(d@),
        None => "-"@,
    }
}

/// One result row: a marker on the highlighted row, the display title cut
/// and padded to 44 characters, the format padded to 7, and the year.
pub open spec fn result_line_text(e: CatalogEntry, focused: bool) -> Seq<char> {
    (if focused { "▶ "@ } else { "  "@ }) + padded(truncated(display_title_of(e), 44), 44) + " "@ + padded(
        format_text(e),
        7,
    ) + " "@ + start_year_text(e)
}

/// Render one result row.
pub fn result_line(e: &CatalogEntry, focused: bool) -> (r: String)
    ensures
        r@ == result_line_text(*e, focused),
{
    proof {
        reveal_strlit("▶ ");
        reveal_strlit("  ");
        reveal_strlit(" ");
        reveal_strlit("-");
    }
    let mut line = crate::text::owned(if focused { "▶ " } else { "  " });
    let title = truncate(e.display_title(), 44);
    push_padded(&mut line, title.as_str(), 44);
    crate::text::push_str(&mut line, " ");
    match &e.format {
        Some(f) => push_padded(&mut line, f.as_str(), 7),
        None => push_padded(&mut line, "-", 7),
    }
    crate::text::push_str(&mut line, " ");
    match &e.start_date {
        Some(d) => {
            let y = year_of(d.as_str());
            crate::text::push_string(&mut line, &y);
        },
        None => crate::text::push_str(&mut line, "-"),
    }
    line
}

/// The input line of a search screen: the query and a cursor.
pub fn query_line(query: &str) -> (r: String)
    ensures
        r@ == "> "@ + query@ + "_"@,
{
    proof {
        reveal_strlit("> ");
        reveal_strlit("_");
    }
    let mut s = crate::text::owned("> ");
    crate::text::push_str(&mut s, query);
    crate::text::push_str(&mut s, "_");
    s
}

/// What the catalog search shows when nothing matched: an empty query means
/// the catalog itself is empty.
pub open spec fn search_notice_text(query: Seq<char>) -> Seq<char> {
    if query.len() == 0 {
        "The catalog is empty — run `anigit refresh` first."@
    } else {
        "No matches for '"@ + query + "' — try different wording."@
    }
}

/// The catalog search's notice for an empty result list.
pub fn search_notice(query: &str) -> (r: String)
    ensures
        r@ == search_notice_text(query@),
{
    proof {
        reveal_strlit("The catalog is empty — run `anigit refresh` first.");
        reveal_strlit("No matches for '");
        reveal_strlit("' — try different wording.");
    }
    if chars_of(query).len() == 0 {
        return crate::text::owned("The catalog is empty — run `anigit refresh` first.");
    }
    let mut s = crate::text::owned("No matches for '");
    crate::text::push_str(&mut s, query);
    crate::text::push_str(&mut s, "' — try different wording.");
    s
}

/// The blame search's notice for an empty result list (its candidate list
/// is never empty, so the query filtered everything out).
pub fn blame_notice(query: &str) -> (r: String)
    ensures
        r@ == "No tracked anime matches '"@ + query@ + "' — blame only searches anime in this repo's history."@,
{
    proof {
        reveal_strlit("No tracked anime matches '");
        reveal_strlit("' — blame only searches anime in this repo's history.");
    }
    let mut s = crate::text::owned("No tracked anime matches '");
    crate::text::push_str(&mut s, query);
    crate::text::push_str(&mut s, "' — blame only searches anime in this repo's history.");
    s
}

// ---------------------------------------------------------------------------
// `anigit add`: catalog search
// ---------------------------------------------------------------------------

/// State of the catalog search screen.
pub struct SearchScreen {
    pub query: String,
    pub results: Vec<CatalogEntry>,
    pub highlighted: usize,
    /// First visible result row.
    pub scroll: usize,
}

impl SearchScreen {
    /// The highlight lies on a result (or at the top of an empty list) and
    /// the scroll offset does not pass the end of the list.
    pub open spec fn wf(self) -> bool {
        &&& self.results@.len() <= i64::MAX
        &&& self.scroll <= self.results@.len()
        &&& if self.results@.len() == 0 {
            self.highlighted == 0
        } else {
            self.highlighted < self.results@.len()
        }
    }

    /// An empty query with no results yet.
    pub fn new() -> (s: SearchScreen)
        ensures
            s.wf(),
            s.query@.len() == 0,
            s.results@.len() == 0,
            s.highlighted == 0,
            s.scroll == 0,
    {
        SearchScreen { query: String::new(), results: Vec::new(), highlighted: 0, scroll: 0 }
    }

    /// Replace the results after a re-query; the highlight and scroll go
    /// back to the top.
    pub fn set_results(&mut self, results: Vec<CatalogEntry>)
        requires
            results@.len() <= i64::MAX,
        ensures
            final(self).wf(),
            final(self).query == old(self).query,
            final(self).results@ == results@,
            final(self).highlighted == 0,
            final(self).scroll == 0,
    {
        self.results = results;
        self.highlighted = 0;
        self.scroll = 0;
    }

    /// The highlighted result, if any.
    pub fn selected_entry(&self) -> (r: Option<&CatalogEntry>)
        ensures
            self.highlighted < self.results@.len() ==> r == Some(&self.results@[self.highlighted as int]),
            self.highlighted >= self.results@.len() ==> r is None,
    {
        if self.highlighted < self.results.len() {
            Some(&self.results[self.highlighted])
        } else {
            None
        }
    }

    /// Move the highlight by `delta` rows, staying on the list.
    pub fn move_highlight(&mut self, delta: i64)
        requires
            old(self).wf(),
            old(self).results@.len() == 0 || i64::MIN <= old(self).highlighted + delta <= i64::MAX,
        ensures
            final(self).wf(),
            final(self).highlighted == moved(
                old(self).highlighted as int,
                old(self).results@.len() as int,
                delta as int,
            ),
            final(self).query == old(self).query,
            final(self).results == old(self).results,
            final(self).scroll == old(self).scroll,
    {
        self.highlighted = move_in_list(self.highlighted, self.results.len(), delta);
    }

    /// Scroll just enough that the highlighted row is within a window of `max_rows`.
    pub fn clamp_scroll(&mut self, max_rows: usize)
        requires
            old(self).wf(),
            max_rows == 0 || old(self).highlighted < old(self).scroll || old(self).scroll + max_rows
                <= usize::MAX,
        ensures
            final(self).wf(),
            final(self).scroll == scrolled(
                old(self).scroll as int,
                old(self).highlighted as int,
                max_rows as int,
            ),
            final(self).query == old(self).query,
            final(self).results == old(self).results,
            final(self).highlighted == old(self).highlighted,
    {
        self.scroll = scroll_to(self.scroll, self.highlighted, max_rows);
    }

    /// Apply one key press.
    pub fn handle_key(&mut self, key: KeyEvent) -> (a: Action)
        requires
            old(self).wf(),
        ensures
            final(self).wf(),
            (a, final(self).query@, final(self).highlighted as int) == key_response(
                old(self).query@,
                old(self).results@.len() as int,
                old(self).highlighted as int,
                key,
            ),
            final(self).results == old(self).results,
            final(self).scroll == old(self).scroll,
    {
        match key.code {
            KeyCode::Esc => Action::Cancelled,
            KeyCode::Enter => if self.results.len() == 0 {
                Action::Nothing
            } else {
                Action::Selected
            },
            KeyCode::Up => {
                self.move_highlight(-1);
                Action::Nothing
            },
            KeyCode::Down => {
                self.move_highlight(1);
                Action::Nothing
            },
            KeyCode::Backspace => {
                if string_pop(&mut self.query).is_some() {
                    Action::QueryChanged
                } else {
                    Action::Nothing
                }
            },
            KeyCode::Char(c) => {
                if !key.modifiers.control && !key.modifiers.alt {
                    string_push(&mut self.query, c);
                    Action::QueryChanged
                } else {
                    Action::Nothing
                }
            },
            _ => Action::Nothing,
        }
    }

    /// Apply one mouse event over the layout `regions`.
    pub fn handle_mouse(&mut self, mouse: MouseEvent, regions: &Regions) -> (a: Action)
        requires
            old(self).wf(),
            regions.result_rows@.len() <= u16::MAX,
        ensures
            final(self).wf(),
            (a, final(self).highlighted as int) == mouse_response(
                old(self).results@.len() as int,
                old(self).highlighted as int,
                old(self).scroll as int,
                regions.result_rows@,
                mouse,
            ),
            final(self).query == old(self).query,
            final(self).results == old(self).results,
            final(self).scroll == old(self).scroll,
    {
        match mouse.kind {
            MouseEventKind::ScrollUp => {
                self.move_highlight(-1);
                Action::Nothing
            },
            MouseEventKind::ScrollDown => {
                self.move_highlight(1);
                Action::Nothing
            },
            MouseEventKind::LeftDown => {
                let row = crate::form::hit_index(&regions.result_rows, mouse.column, mouse.row);
                if row < regions.result_rows.len() {
                    if row >= self.results.len() - self.scroll {
                        return Action::Nothing;
                    }
                    let index = self.scroll + row;
                    if index == self.highlighted {
                        return Action::Selected;
                    }
                    self.highlighted = index;
                }
                Action::Nothing
            },
            MouseEventKind::Other => Action::Nothing,
        }
    }
}

// ---------------------------------------------------------------------------
// `anigit blame`: filtering tracked entries
// ---------------------------------------------------------------------------

/// A candidate matches a query when the lower-cased query occurs in either
/// of its lower-cased titles.
pub open spec fn matches_query(e: CatalogEntry, needle: Seq<char>) -> bool {
    ||| (e.title_english matches Some(t) && contains_seq(lowercase(t@), needle))
    ||| (e.title_romaji matches Some(t) && contains_seq(lowercase(t@), needle))
}

/// Indices, in order, of the candidates below `upto` that match.
pub open spec fn matching_indices(cands: Seq<CatalogEntry>, needle: Seq<char>, upto: int) -> Seq<usize>
    decreases upto,
{
    if upto <= 0 {
        Seq::empty()
    } else {
        let prev = matching_indices(cands, needle, upto - 1);
        if matches_query(cands[upto - 1], needle) {
            prev.push((upto - 1) as usize)
        } else {
            prev
        }
    }
}

proof fn lemma_matching_below(cands: Seq<CatalogEntry>, needle: Seq<char>, n: int)
    requires
        0 <= n <= usize::MAX + 1,
    ensures
        forall|k: int| 0 <= k < matching_indices(cands, needle, n).len() ==> #[trigger] matching_indices(cands, needle, n)[k] < n,
    decreases n,
{
    if n > 0 {
        lemma_matching_below(cands, needle, n - 1);
        let prev = matching_indices(cands, needle, n - 1);
        if matches_query(cands[n - 1], needle) {
            let full = prev.push((n - 1) as usize);
            assert(matching_indices(cands, needle, n) == full);
            assert forall|k: int| 0 <= k < full.len() implies #[trigger] full[k] < n by {
                if k < prev.len() {
                    assert(full[k] == prev[k]);
                }
            }
        }
    }
}

/// The blame search finds a candidate exactly when the lower-cased query
/// occurs in its lower-cased English title or in its lower-cased romaji
/// title: among the first `n` candidates, position `i` is a result if and
/// only if either title contains the query.
pub proof fn law_search_matches_either_title(cands: Seq<CatalogEntry>, needle: Seq<char>, n: int, i: int)
    requires
        0 <= i < n <= cands.len(),
        n <= usize::MAX + 1,
    ensures
        matching_indices(cands, needle, n).contains(i as usize) <==> (
            (cands[i].title_english matches Some(t) && contains_seq(lowercase(t@), needle))
            || (cands[i].title_romaji matches Some(t) && contains_seq(lowercase(t@), needle))),
    decreases n,
{
    let prev = matching_indices(cands, needle, n - 1);
    lemma_matching_below(cands, needle, n - 1);
    if i == n - 1 {
        assert(!prev.contains(i as usize)) by {
            if prev.contains(i as usize) {
                let k = choose|k: int| 0 <= k < prev.len() && prev[k] == i as usize;
                assert(prev[k] < n - 1);
            }
        }
        if matches_query(cands[n - 1], needle) {
            assert(matching_indices(cands, needle, n) == prev.push((n - 1) as usize));
            assert(prev.push((n - 1) as usize)[prev.len() as int] == (n - 1) as usize);
        }
    } else {
        law_search_matches_either_title(cands, needle, n - 1, i);
        if matches_query(cands[n - 1], needle) {
            let full = prev.push((n - 1) as usize);
            assert(matching_indices(cands, needle, n) == full);
            if prev.contains(i as usize) {
                let k = choose|k: int| 0 <= k < prev.len() && prev[k] == i as usize;
                assert(full[k] == i as usize);
            }
            if full.contains(i as usize) {
                let k = choose|k: int| 0 <= k < full.len() && full[k] == i as usize;
                if k < prev.len() {
                    assert(prev[k] == i as usize);
                } else {
                    assert(full[k] == (n - 1) as usize);
                }
            }
        }
    }
}

/// State of the blame search screen.
pub struct BlameSearchScreen {
    pub query: String,
    /// The pre-scoped candidate set; never changes.
    pub candidates: Vec<CatalogEntry>,
    /// Indices into `candidates` of those matching the query.
    pub results: Vec<usize>,
    pub highlighted: usize,
    /// First visible result row.
    pub scroll: usize,
}

impl BlameSearchScreen {
    /// Results index candidates, the highlight lies on a result (or at the
    /// top of an empty list) and the scroll offset does not pass the end.
    pub open spec fn wf(self) -> bool {
        &&& self.candidates@.len() <= i64::MAX
        &&& self.results@.len() <= i64::MAX
        &&& forall|i: int| 0 <= i < self.results@.len() ==> #[trigger] self.results@[i] < self.candidates@.len()
        &&& self.scroll <= self.results@.len()
        &&& if self.results@.len() == 0 {
            self.highlighted == 0
        } else {
            self.highlighted < self.results@.len()
        }
    }

    /// Every candidate is a result to begin with (the empty query matches all).
    pub fn new(candidates: Vec<CatalogEntry>) -> (s: BlameSearchScreen)
        requires
            candidates@.len() <= i64::MAX,
        ensures
            s.wf(),
            s.query@.len() == 0,
            s.candidates@ == candidates@,
            s.results@.len() == candidates@.len(),
            forall|i: int| 0 <= i < candidates@.len() ==> s.results@[i] == i,
            s.highlighted == 0,
            s.scroll == 0,
    {
        let mut results: Vec<usize> = Vec::new();
        let mut i: usize = 0;
        while i < candidates.len()
            invariant
                i <= candidates@.len(),
                results@.len() == i,
                forall|k: int| 0 <= k < i ==> results@[k] == k,
            decreases candidates@.len() - i,
        {
            results.push(i);
            i = i + 1;
        }
        BlameSearchScreen { query: String::new(), candidates, results, highlighted: 0, scroll: 0 }
    }

    /// Recompute the results from the query: every candidate whose English
    /// or romaji title contains the query, compared case-insensitively, in
    /// candidate order. The highlight and scroll go back to the top.
    pub fn refilter(&mut self)
        requires
            old(self).wf(),
        ensures
            final(self).wf(),
            final(self).results@ == matching_indices(
                old(self).candidates@,
                lowercase(old(self).query@),
                old(self).candidates@.len() as int,
            ),
            final(self).query == old(self).query,
            final(self).candidates == old(self).candidates,
            final(self).highlighted == 0,
            final(self).scroll == 0,
    {
        let needle_s = to_lowercase(self.query.as_str());
        let needle = chars_of(needle_s.as_str());
        let mut results: Vec<usize> = Vec::new();
        let mut i: usize = 0;
        while i < self.candidates.len()
            invariant
                i <= self.candidates@.len(),
                self.candidates@.len() <= i64::MAX,
                needle@ == lowercase(self.query@),
                results@ == matching_indices(self.candidates@, needle@, i as int),
                results@.len() <= i,
                forall|k: int| 0 <= k < results@.len() ==> #[trigger] results@[k] < i,
            decreases self.candidates@.len() - i,
        {
            let entry = &self.candidates[i];
            let mut hit = false;
            if let Some(t) = &entry.title_english {
                let low = to_lowercase(t.as_str());
                let low_cs = chars_of(low.as_str());
                if contains_chars(&low_cs, &needle) {
                    hit = true;
                }
            }
            if !hit {
                if let Some(t) = &entry.title_romaji {
                    let low = to_lowercase(t.as_str());
                    let low_cs = chars_of(low.as_str());
                    if contains_chars(&low_cs, &needle) {
                        hit = true;
                    }
                }
            }
            if hit {
                results.push(i);
            }
            i = i + 1;
        }
        self.results = results;
        self.highlighted = 0;
        self.scroll = 0;
    }

    /// The highlighted candidate, if any.
    pub fn selected_entry(&self) -> (r: Option<&CatalogEntry>)
        requires
            self.wf(),
        ensures
            self.highlighted < self.results@.len() ==> r == Some(
                &self.candidates@[self.results@[self.highlighted as int] as int],
            ),
            self.highlighted >= self.results@.len() ==> r is None,
    {
        if self.highlighted < self.results.len() {
            Some(&self.candidates[self.results[self.highlighted]])
        } else {
            None
        }
    }

    /// The candidate shown on visible result row `row` (0 = topmost visible).
    pub fn entry_at_row(&self, row: usize) -> (r: Option<&CatalogEntry>)
        requires
            self.wf(),
            row <= u16::MAX,
        ensures
            self.scroll + row < self.results@.len() ==> r == Some(
                &self.candidates@[self.results@[self.scroll + row] as int],
            ),
            self.scroll + row >= self.results@.len() ==> r is None,
    {
        if row < self.results.len() - self.scroll {
            Some(&self.candidates[self.results[self.scroll + row]])
        } else {
            None
        }
    }

    /// Move the highlight by `delta` rows, staying on the list.
    pub fn move_highlight(&mut self, delta: i64)
        requires
            old(self).wf(),
            old(self).results@.len() == 0 || i64::MIN <= old(self).highlighted + delta <= i64::MAX,
        ensures
            final(self).wf(),
            final(self).highlighted == moved(
                old(self).highlighted as int,
                old(self).results@.len() as int,
                delta as int,
            ),
            final(self).query == old(self).query,
            final(self).candidates == old(self).candidates,
            final(self).results == old(self).results,
            final(self).scroll == old(self).scroll,
    {
        self.highlighted = move_in_list(self.highlighted, self.results.len(), delta);
    }

    /// Scroll just enough that the highlighted row is within a window of `max_rows`.
    pub fn clamp_scroll(&mut self, max_rows: usize)
        requires
            old(self).wf(),
            max_rows == 0 || old(self).highlighted < old(self).scroll || old(self).scroll + max_rows
                <= usize::MAX,
        ensures
            final(self).wf(),
            final(self).scroll == scrolled(
                old(self).scroll as int,
                old(self).highlighted as int,
                max_rows as int,
            ),
            final(self).query == old(self).query,
            final(self).candidates == old(self).candidates,
            final(self).results == old(self).results,
            final(self).highlighted == old(self).highlighted,
    {
        self.scroll = scroll_to(self.scroll, self.highlighted, max_rows);
    }

    /// Apply one key press.
    pub fn handle_key(&mut self, key: KeyEvent) -> (a: Action)
        requires
            old(self).wf(),
        ensures
            final(self).wf(),
            (a, final(self).query@, final(self).highlighted as int) == key_response(
                old(self).query@,
                old(self).results@.len() as int,
                old(self).highlighted as int,
                key,
            ),
            final(self).candidates == old(self).candidates,
            final(self).results == old(self).results,
            final(self).scroll == old(self).scroll,
    {
        match key.code {
            KeyCode::Esc => Action::Cancelled,
            KeyCode::Enter => if self.results.len() == 0 {
                Action::Nothing
            } else {
                Action::Selected
            },
            KeyCode::Up => {
                self.move_highlight(-1);
                Action::Nothing
            },
            KeyCode::Down => {
                self.move_highlight(1);
                Action::Nothing
            },
            KeyCode::Backspace => {
                if string_pop(&mut self.query).is_some() {
                    Action::QueryChanged
                } else {
                    Action::Nothing
                }
            },
            KeyCode::Char(c) => {
                if !key.modifiers.control && !key.modifiers.alt {
                    string_push(&mut self.query, c);
                    Action::QueryChanged
                } else {
                    Action::Nothing
                }
            },
            _ => Action::Nothing,
        }
    }

    /// Apply one mouse event over the layout `regions`.
    pub fn handle_mouse(&mut self, mouse: MouseEvent, regions: &Regions) -> (a: Action)
        requires
            old(self).wf(),
            regions.result_rows@.len() <= u16::MAX,
        ensures
            final(self).wf(),
            (a, final(self).highlighted as int) == mouse_response(
                old(self).results@.len() as int,
                old(self).highlighted as int,
                old(self).scroll as int,
                regions.result_rows@,
                mouse,
            ),
            final(self).query == old(self).query,
            final(self).candidates == old(self).candidates,
            final(self).results == old(self).results,
            final(self).scroll == old(self).scroll,
    {
        match mouse.kind {
            MouseEventKind::ScrollUp => {
                self.move_highlight(-1);
                Action::Nothing
            },
            MouseEventKind::ScrollDown => {
                self.move_highlight(1);
                Action::Nothing
            },
            MouseEventKind::LeftDown => {
                let row = crate::form::hit_index(&regions.result_rows, mouse.column, mouse.row);
                if row < regions.result_rows.len() {
                    if row >= self.results.len() - self.scroll {
                        return Action::Nothing;
                    }
                    let index = self.scroll + row;
                    if index == self.highlighted {
                        return Action::Selected;
                    }
                    self.highlighted = index;
                }
                Action::Nothing
            },
            MouseEventKind::Other => Action::Nothing,
        }
    }
}

} // verus!
