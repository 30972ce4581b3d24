//! Mouse handling: pane resizing, focus mode, clicks, drags and scrolling.
use vstd::prelude::*;
use crate::app::{App, Effect, Focus, InputMode, loads};
use crate::app::comment_ops::viewed_file;
use crate::file_tree::{FileTree, ContentSearchState, CommentListState, tree_scrolled_down, tree_scrolled_up};
use crate::file_viewer::{FileViewer, VisualRowContent, file_line_of_row, total_rows, max_scroll_of, scrolled_left, scrolled_right,
    longest_line, file_lines, gutter_cols, in_content, clicked, minimap_scrolled, H_SCROLL_PADDING, V_SCROLL_PADDING, H_SCROLL_AMOUNT};
use crate::tree::FileTreeModel;

verus! {

use crate::app::DEFAULT_TREE_WIDTH_PERCENT;
/// Minimum pane width in columns (absolute floor).
pub const MIN_PANE_COLS: u16 = 10;
/// Minimum pane width as percentage.
pub const MIN_PANE_PERCENT: u16 = 10;
/// Maximum tree pane width as percentage.
pub const MAX_TREE_PERCENT: u16 = 70;
/// Lines to scroll per mouse wheel tick.
pub const MOUSE_SCROLL_LINES: usize = 5;

/// The smallest pane width for a terminal: 10% of it, and at least 10 columns.
pub open spec fn min_pane_cols(w: int) -> int {
    let p = w * 10 / 100;
    if p >= 10 { p } else { 10 }
}

/// The widest the tree pane may be: 70% of the terminal, leaving the viewer its minimum.
pub open spec fn max_tree_cols(w: int) -> int {
    let m = w * 70 / 100;
    let rest = if w >= min_pane_cols(w) { w - min_pane_cols(w) } else { 0 };
    if m <= rest { m } else { rest }
}

/// `x` clamped to `[lo, hi]` as `Ord::clamp` does (which asserts `lo <= hi`).
pub open spec fn clamp(x: int, lo: int, hi: int) -> int {
    if x < lo { lo } else if x > hi { hi } else { x }
}

/// Compute clamped tree width percentage from a desired column position.
/// Both panes keep at least `max(10%, 10 columns)` of the width, and the tree
/// at most 70%.
pub fn clamp_tree_percent(desired_cols: u16, terminal_width: u16) -> (r: u16)
    requires
        terminal_width * 70 <= u16::MAX,
        terminal_width == 0 || min_pane_cols(terminal_width as int) <= max_tree_cols(terminal_width as int),
    ensures
        terminal_width == 0 ==> r == DEFAULT_TREE_WIDTH_PERCENT,
        terminal_width > 0 ==> r == clamp(desired_cols as int, min_pane_cols(terminal_width as int), max_tree_cols(terminal_width as int)) * 100 / terminal_width as int,
{
    if terminal_width == 0 {
        return DEFAULT_TREE_WIDTH_PERCENT;
    }
    let p = terminal_width * MIN_PANE_PERCENT / 100;
    let min_cols = if p >= MIN_PANE_COLS { p } else { MIN_PANE_COLS };
    let m = terminal_width * MAX_TREE_PERCENT / 100;
    let rest = if terminal_width >= min_cols { terminal_width - min_cols } else { 0 };
    let max_cols = if m <= rest { m } else { rest };
    let clamped = if desired_cols < min_cols { min_cols } else if desired_cols > max_cols { max_cols } else { desired_cols };
    assert(clamped <= terminal_width);
    let q: u32 = clamped as u32 * 100 / terminal_width as u32;
    assert((clamped as int) * 100 / (terminal_width as int) <= 100) by (nonlinear_arith)
        requires clamped <= terminal_width, terminal_width > 0;
    q as u16
}


/// What a mouse event is.
#[derive(Debug, Clone, Copy, PartialEq, Eq, Structural)]
pub enum MouseKind {
    LeftDown,
    LeftDrag,
    LeftUp,
    ScrollDown,
    ScrollUp,
    ScrollLeft,
    ScrollRight,
    /// Any other button or event.
    Other,
}

/// A mouse event at terminal cell `(column, row)`, with whether shift is held.
#[derive(Debug, Clone, Copy, PartialEq, Eq, Structural)]
pub struct Mouse {
    pub kind: MouseKind,
    pub column: u16,
    pub row: u16,
    pub shift: bool,
}

/// The tree width (percent of the terminal) for a border dragged to `col`.
pub open spec fn tree_percent(col: u16, w: u16) -> u16 {
    if w == 0 {
        DEFAULT_TREE_WIDTH_PERCENT
    } else {
        (clamp(col as int, min_pane_cols(w as int), max_tree_cols(w as int)) * 100 / w as int) as u16
    }
}

/// The terminal widths the border can be dragged in: the arithmetic fits a
/// `u16` and the tree's least width is not above its greatest (a width of 0
/// leaves the default split).
pub open spec fn resizable(w: u16) -> bool {
    w * 70 <= u16::MAX && (w == 0 || min_pane_cols(w as int) <= max_tree_cols(w as int))
}

/// Whether the border can be dragged in a terminal `w` columns wide (see [`resizable`]).
pub fn is_resizable(w: u16) -> (r: bool)
    ensures
        r == resizable(w),
{
    if w > 936 {
        return false;
    }
    if w == 0 {
        return true;
    }
    let p = w * MIN_PANE_PERCENT / 100;
    let min_cols = if p >= MIN_PANE_COLS { p } else { MIN_PANE_COLS };
    let m = w * MAX_TREE_PERCENT / 100;
    let rest = if w >= min_cols { w - min_cols } else { 0 };
    let max_cols = if m <= rest { m } else { rest };
    min_cols <= max_cols
}

/// The application after toggling focus mode: leaving it restores the tree
/// width; entering it saves the width and focuses the viewer.
pub open spec fn focus_toggled(b: App) -> App {
    if b.focus_mode {
        App { focus_mode: false, tree_width_percent: b.saved_tree_width_percent, ..b }
    } else {
        App { saved_tree_width_percent: b.tree_width_percent, focus_mode: true, focus: Focus::Viewer, ..b }
    }
}

/// Entering focus mode and leaving it again gives back the tree width and
/// leaves focus mode off.
pub proof fn law_focus_mode_round_trip(b: App)
    requires
        !b.focus_mode,
    ensures
        focus_toggled(focus_toggled(b)).tree_width_percent == b.tree_width_percent,
        !focus_toggled(focus_toggled(b)).focus_mode,
        focus_toggled(b).focus == Focus::Viewer,
{
}

/// The cursor column, 0 when unset.
pub open spec fn col_or_zero(v: FileViewer) -> usize {
    match v.cursor_col {
        Some(c) => c,
        None => 0,
    }
}

/// `a` is `b` after starting a character selection at the viewer's cursor
/// (nothing changes without a file or on a removed diff row).
pub open spec fn char_select_started(b: App, a: App) -> bool {
    match viewed_file(b.file_viewer) {
        Some(f) => match file_line_of_row(b.file_viewer, b.file_viewer.cursor_line as int) {
            Some(l) => (a.input_mode matches InputMode::CharSelect { file, anchor_line, anchor_col }
                && file@ == f && anchor_line == l && anchor_col == col_or_zero(b.file_viewer))
                && a == App { input_mode: a.input_mode, ..b },
            None => a == b,
        },
        None => a == b,
    }
}

/// The minimap area contains the cell.
pub open spec fn in_minimap(v: FileViewer, row: u16, column: u16) -> bool {
    match v.minimap_rect {
        None => false,
        Some(mr) => mr.x <= column < mr.x + mr.width && mr.y <= row < mr.y + mr.height,
    }
}

/// `a` is `b` after a click in the viewer's content at `(row, column)`:
/// the cursor moves there and a character selection starts.
pub open spec fn content_clicked(b: App, m: Mouse, a: App) -> bool {
    let b1 = App { focus: Focus::Viewer, ..b };
    if in_content(b.file_viewer, m.row, m.column) {
        char_select_started(App { file_viewer: clicked(b.file_viewer, m.row, m.column), ..b1 }, a)
    } else {
        a == b1
    }
}

/// `a` and `e` are the application and the effect after a left click `m` in `b`.
pub open spec fn mouse_clicked(b: App, m: Mouse, a: App, e: Effect) -> bool {
    let border = b.border_column;
    if b.focus_mode {
        a == App { resizing: m.column <= 1 || b.resizing, ..b } && e is Nothing
    } else if (if m.column >= border { m.column - border } else { border - m.column }) <= 1 {
        a == App { resizing: true, ..b } && e is Nothing
    } else if m.column < border {
        let b1 = App { focus: Focus::Tree, ..b };
        let idx = b.file_tree.scroll_offset + (m.row - b.tree_inner_y);
        if m.row >= b.tree_inner_y && idx < b.file_tree.model.entries@.len() {
            &&& a == App { file_tree: FileTree { model: FileTreeModel { selected: idx as usize, ..b.file_tree.model }, ..b.file_tree }, ..b1 }
            &&& if b.file_tree.model.entries@[idx].is_directory {
                e is ToggleExpandSelected
            } else {
                loads(e, b.file_tree.model.entries@[idx].path@, None)
            }
        } else {
            a == b1 && e is Nothing
        }
    } else if in_minimap(b.file_viewer, m.row, m.column) {
        let mr = b.file_viewer.minimap_rect->0;
        a == App { focus: Focus::Viewer, file_viewer: minimap_scrolled(b.file_viewer, (m.row - mr.y) as u16, mr.height), ..b }
            && e is Nothing
    } else {
        content_clicked(b, m, a) && e is Nothing
    }
}

/// `a` is `b` after a left drag to `m` in a terminal `w` columns wide:
/// while resizing, the border follows (dragging it below the least width
/// enters focus mode, and out of focus mode past it leaves it); while
/// selecting characters, the cursor follows.
pub open spec fn mouse_dragged(b: App, m: Mouse, w: u16, a: App) -> bool {
    let min_cols = min_pane_cols(w as int);
    if b.resizing {
        if b.focus_mode {
            if m.column >= min_cols {
                a == App { focus_mode: false, tree_width_percent: tree_percent(m.column, w), ..b }
            } else {
                a == b
            }
        } else if m.column < min_cols {
            a == App { saved_tree_width_percent: b.tree_width_percent, focus_mode: true, focus: Focus::Viewer, ..b }
        } else {
            a == App { tree_width_percent: tree_percent(m.column, w), ..b }
        }
    } else if b.input_mode is CharSelect && in_content(b.file_viewer, m.row, m.column) {
        a == App { file_viewer: clicked(b.file_viewer, m.row, m.column), ..b }
    } else {
        a == b
    }
}

/// `a` is `b` after the left button is released: resizing ends, and a
/// character selection that never moved is dropped.
pub open spec fn mouse_released(b: App, a: App) -> bool {
    let a1 = App { resizing: false, ..b };
    match b.input_mode {
        InputMode::CharSelect { anchor_line, anchor_col, .. } => {
            let line = match file_line_of_row(b.file_viewer, b.file_viewer.cursor_line as int) {
                Some(l) => l,
                None => anchor_line,
            };
            if anchor_line == line && anchor_col == col_or_zero(b.file_viewer) {
                a == App { input_mode: InputMode::Normal, ..a1 }
            } else {
                a == a1
            }
        },
        _ => a == a1,
    }
}

/// The viewer scrolled down by `n` rows.
pub open spec fn viewer_down(v: FileViewer, n: usize) -> FileViewer {
    FileViewer { scroll_offset: crate::file_tree::min_int(v.scroll_offset + n, max_scroll_of(v)) as usize, ..v }
}

/// The viewer scrolled up by `n` rows.
pub open spec fn viewer_up(v: FileViewer, n: usize) -> FileViewer {
    FileViewer { scroll_offset: crate::file_tree::sat_sub(v.scroll_offset as int, n as int) as usize, ..v }
}

/// `a` is `b` after a wheel event `m`: over the viewer (or in focus mode)
/// it scrolls the viewer (sideways with shift), over the tree the tree.
pub open spec fn mouse_scrolled(b: App, m: Mouse, a: App) -> bool {
    let over_viewer = b.focus_mode || m.column > b.border_column;
    let v = b.file_viewer;
    match m.kind {
        MouseKind::ScrollDown => if over_viewer {
            a == App { file_viewer: if m.shift { scrolled_right(v) } else { viewer_down(v, MOUSE_SCROLL_LINES) }, ..b }
        } else {
            a == App { file_tree: tree_scrolled_down(b.file_tree, MOUSE_SCROLL_LINES), ..b }
        },
        MouseKind::ScrollUp => if over_viewer {
            a == App { file_viewer: if m.shift { scrolled_left(v) } else { viewer_up(v, MOUSE_SCROLL_LINES) }, ..b }
        } else {
            a == App { file_tree: tree_scrolled_up(b.file_tree, MOUSE_SCROLL_LINES), ..b }
        },
        MouseKind::ScrollLeft => a == (if over_viewer { App { file_viewer: scrolled_left(v), ..b } } else { b }),
        MouseKind::ScrollRight => a == (if over_viewer { App { file_viewer: scrolled_right(v), ..b } } else { b }),
        _ => a == b,
    }
}

/// `a` and `e` are the application and the effect after mouse event `m`
/// in `b`, in a terminal `w` columns wide. While help is shown, mouse events
/// are ignored.
pub open spec fn mouse_handled(b: App, m: Mouse, w: u16, a: App, e: Effect) -> bool {
    if b.show_help {
        a == b && e is Nothing
    } else {
        match m.kind {
            MouseKind::LeftDown => mouse_clicked(b, m, a, e),
            MouseKind::LeftDrag => mouse_dragged(b, m, w, a) && e is Nothing,
            MouseKind::LeftUp => mouse_released(b, a) && e is Nothing,
            _ => mouse_scrolled(b, m, a) && e is Nothing,
        }
    }
}

/// A rendered row's file line is below the largest `usize`.
pub open spec fn row_in_limits(r: VisualRowContent) -> bool {
    match r {
        VisualRowContent::CodeLine(n) => n < usize::MAX,
        VisualRowContent::CommentRow(..) => true,
    }
}

/// The machine limits mouse handling works within: offsets plus a screen
/// of rows or columns, and row counts times a screen height, fit a `usize`;
/// the panes' areas fit the terminal's `u16` coordinates.
pub open spec fn mouse_fits(app: App) -> bool {
    let v = app.file_viewer;
    let t = app.file_tree;
    &&& v.scroll_offset + u16::MAX <= usize::MAX
    &&& v.h_scroll + u16::MAX <= usize::MAX
    &&& v.cursor_line < usize::MAX
    &&& u16::MAX * (total_rows(v) + V_SCROLL_PADDING) <= usize::MAX
    &&& longest_line(file_lines(v.content)) + H_SCROLL_PADDING <= usize::MAX
    &&& gutter_cols(v) <= usize::MAX
    &&& (forall|i: int| 0 <= i < v.row_map@.len() ==> row_in_limits(#[trigger] v.row_map@[i]))
    &&& (v.content_rect matches Some(r) ==> r.y + r.height <= u16::MAX && r.x + r.width <= u16::MAX)
    &&& (v.minimap_rect matches Some(r) ==> r.y + r.height <= u16::MAX && r.x + r.width <= u16::MAX)
    &&& t.scroll_offset + u16::MAX <= usize::MAX
    &&& (t.content_search matches Some(cs) ==> cs.scroll_offset + MOUSE_SCROLL_LINES <= usize::MAX)
    &&& (t.comment_list matches Some(cl) ==> cl.scroll_offset + MOUSE_SCROLL_LINES <= usize::MAX)
}

/// Whether every rendered row's file line is below the largest `usize`.
fn rows_in_limits(rows: &Vec<VisualRowContent>) -> (r: bool)
    ensures
        r == forall|i: int| 0 <= i < rows@.len() ==> row_in_limits(#[trigger] rows@[i]),
{
    let mut i: usize = 0;
    while i < rows.len()
        invariant
            i <= rows@.len(),
            forall|j: int| 0 <= j < i ==> row_in_limits(#[trigger] rows@[j]),
        decreases rows.len() - i,
    {
        if let VisualRowContent::CodeLine(n) = rows[i] {
            if n == usize::MAX {
                assert(!row_in_limits(rows@[i as int]));
                return false;
            }
        }
        i = i + 1;
    }
    true
}

impl App {
    /// Toggle focus mode (see [`focus_toggled`]).
    pub fn toggle_focus_mode(&mut self)
        ensures
            *final(self) == focus_toggled(*old(self)),
    {
        if self.focus_mode {
            self.focus_mode = false;
            self.tree_width_percent = self.saved_tree_width_percent;
        } else {
            self.saved_tree_width_percent = self.tree_width_percent;
            self.focus_mode = true;
            self.focus = Focus::Viewer;
        }
    }

    /// Start a character selection anchored at the viewer's cursor.
    pub fn start_mouse_char_select(&mut self)
        requires
            !old(self).file_viewer.diff.diff_mode ==> old(self).file_viewer.cursor_line < usize::MAX,
        ensures
            char_select_started(*old(self), *final(self)),
    {
        if let Some(file) = self.file_viewer.current_file() {
            if let Some(line) = self.file_viewer.cursor_file_line() {
                let col = match self.file_viewer.cursor_col {
                    Some(c) => c,
                    None => 0,
                };
                self.input_mode = InputMode::CharSelect { file: crate::text::to_owned_string(file), anchor_line: line, anchor_col: col };
            }
        }
    }

    /// Whether mouse handling fits the machine's limits (see [`mouse_fits`]).
    pub fn mouse_in_limits(&self) -> (r: bool)
        ensures
            r == mouse_fits(*self),
    {
        let v = &self.file_viewer;
        let t = &self.file_tree;
        let big: usize = 65535;
        if v.scroll_offset > usize::MAX - big || v.h_scroll > usize::MAX - big || v.cursor_line == usize::MAX {
            return false;
        }
        let total = v.total_lines();
        if total > (usize::MAX - V_SCROLL_PADDING) / big {
            proof {
                assert((total + V_SCROLL_PADDING) * 65535 > usize::MAX) by (nonlinear_arith)
                    requires total > (usize::MAX - 1) / 65535;
            }
            return false;
        }
        proof {
            assert((total + V_SCROLL_PADDING) * 65535 <= usize::MAX) by (nonlinear_arith)
                requires total <= (usize::MAX - 1) / 65535;
        }
        if v.max_line_len() > usize::MAX - H_SCROLL_PADDING {
            return false;
        }
        if !v.gutter_in_limits() {
            return false;
        }
        if !rows_in_limits(&v.row_map) {
            return false;
        }
        let rect_ok = match v.content_rect {
            Some(r) => r.y as u32 + r.height as u32 <= 65535 && r.x as u32 + r.width as u32 <= 65535,
            None => true,
        };
        let mini_ok = match v.minimap_rect {
            Some(r) => r.y as u32 + r.height as u32 <= 65535 && r.x as u32 + r.width as u32 <= 65535,
            None => true,
        };
        if !rect_ok || !mini_ok || t.scroll_offset > usize::MAX - big {
            return false;
        }
        let cs_ok = match &t.content_search {
            Some(cs) => cs.scroll_offset <= usize::MAX - MOUSE_SCROLL_LINES,
            None => true,
        };
        let cl_ok = match &t.comment_list {
            Some(cl) => cl.scroll_offset <= usize::MAX - MOUSE_SCROLL_LINES,
            None => true,
        };
        cs_ok && cl_ok
    }

    /// Handle a left click (see [`mouse_clicked`]).
    pub fn handle_mouse_click(&mut self, mouse: Mouse) -> (e: Effect)
        requires
            mouse_fits(*old(self)),
        ensures
            mouse_clicked(*old(self), mouse, *final(self), e),
    {
        let border = self.border_column;
        let dist = if mouse.column >= border { mouse.column - border } else { border - mouse.column };
        if self.focus_mode {
            if mouse.column <= 1 {
                self.resizing = true;
            }
            Effect::Nothing
        } else if dist <= 1 {
            self.resizing = true;
            Effect::Nothing
        } else if mouse.column < border {
            self.focus = Focus::Tree;
            if mouse.row >= self.tree_inner_y {
                let inner_row = (mouse.row - self.tree_inner_y) as usize;
                let idx = self.file_tree.scroll_offset + inner_row;
                match self.file_tree.model.select_at(idx) {
                    Some(entry) => if entry.is_directory {
                        Effect::ToggleExpandSelected
                    } else {
                        Effect::LoadFile { path: entry.path.clone(), scroll_to: None }
                    },
                    None => Effect::Nothing,
                }
            } else {
                Effect::Nothing
            }
        } else {
            let in_mini = match self.file_viewer.minimap_rect {
                Some(mr) => mouse.column >= mr.x && mouse.column < mr.x + mr.width && mouse.row >= mr.y && mouse.row < mr.y + mr.height,
                None => false,
            };
            self.focus = Focus::Viewer;
            if in_mini {
                let mr = self.file_viewer.minimap_rect.unwrap();
                proof {
                    assert((mouse.row - mr.y) * total_rows(self.file_viewer) <= usize::MAX) by (nonlinear_arith)
                        requires
                            mouse.row - mr.y <= u16::MAX,
                            u16::MAX * (total_rows(self.file_viewer) + V_SCROLL_PADDING) <= usize::MAX,
                            total_rows(self.file_viewer) >= 0;
                }
                self.file_viewer.scroll_to_minimap_row(mouse.row - mr.y, mr.height);
            } else if self.file_viewer.click_line(mouse.row, mouse.column) {
                self.start_mouse_char_select();
            }
            Effect::Nothing
        }
    }

    /// Handle a left drag in a terminal `terminal_width` columns wide (see [`mouse_dragged`]).
    pub fn handle_mouse_drag(&mut self, mouse: Mouse, terminal_width: u16)
        requires
            mouse_fits(*old(self)),
            old(self).resizing ==> resizable(terminal_width),
        ensures
            mouse_dragged(*old(self), mouse, terminal_width, *final(self)),
    {
        if self.resizing {
            let p = terminal_width * MIN_PANE_PERCENT / 100;
            let min_cols = if p >= MIN_PANE_COLS { p } else { MIN_PANE_COLS };
            assert(min_cols == min_pane_cols(terminal_width as int));
            if self.focus_mode {
                if mouse.column >= min_cols {
                    self.focus_mode = false;
                    self.tree_width_percent = clamp_tree_percent(mouse.column, terminal_width);
                }
            } else if mouse.column < min_cols {
                self.saved_tree_width_percent = self.tree_width_percent;
                self.focus_mode = true;
                self.focus = Focus::Viewer;
            } else {
                self.tree_width_percent = clamp_tree_percent(mouse.column, terminal_width);
            }
        } else if matches!(self.input_mode, InputMode::CharSelect { .. }) {
            self.file_viewer.click_line(mouse.row, mouse.column);
        }
    }

    /// Handle a mouse event in a terminal `terminal_width` columns wide (see
    /// [`mouse_handled`]); returns the outside work to follow.
    pub fn handle_mouse(&mut self, mouse: Mouse, terminal_width: u16) -> (e: Effect)
        requires
            mouse_fits(*old(self)),
            old(self).resizing ==> resizable(terminal_width),
        ensures
            mouse_handled(*old(self), mouse, terminal_width, *final(self), e),
    {
        if self.show_help {
            return Effect::Nothing;
        }
        let over_viewer = self.focus_mode || mouse.column > self.border_column;
        match mouse.kind {
            MouseKind::LeftDown => self.handle_mouse_click(mouse),
            MouseKind::LeftDrag => {
                self.handle_mouse_drag(mouse, terminal_width);
                Effect::Nothing
            },
            MouseKind::LeftUp => {
                self.resizing = false;
                let release = match &self.input_mode {
                    InputMode::CharSelect { anchor_line, anchor_col, .. } => {
                        let line = match self.file_viewer.cursor_file_line() {
                            Some(l) => l,
                            None => *anchor_line,
                        };
                        let col = match self.file_viewer.cursor_col {
                            Some(c) => c,
                            None => 0,
                        };
                        *anchor_line == line && *anchor_col == col
                    },
                    _ => false,
                };
                if release {
                    self.input_mode = InputMode::Normal;
                }
                Effect::Nothing
            },
            MouseKind::ScrollDown => {
                if over_viewer {
                    if mouse.shift {
                        self.file_viewer.scroll_right();
                    } else {
                        self.file_viewer.scroll_down(MOUSE_SCROLL_LINES);
                    }
                } else {
                    self.file_tree.scroll_down(MOUSE_SCROLL_LINES);
                }
                Effect::Nothing
            },
            MouseKind::ScrollUp => {
                if over_viewer {
                    if mouse.shift {
                        self.file_viewer.scroll_left();
                    } else {
                        self.file_viewer.scroll_up(MOUSE_SCROLL_LINES);
                    }
                } else {
                    self.file_tree.scroll_up(MOUSE_SCROLL_LINES);
                }
                Effect::Nothing
            },
            MouseKind::ScrollLeft => {
                if over_viewer {
                    self.file_viewer.scroll_left();
                }
                Effect::Nothing
            },
            MouseKind::ScrollRight => {
                if over_viewer {
                    self.file_viewer.scroll_right();
                }
                Effect::Nothing
            },
            MouseKind::Other => Effect::Nothing,
        }
    }
}

} // verus!
