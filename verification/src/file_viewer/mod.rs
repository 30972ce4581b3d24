//! The file viewer pane: view state, selections and word motion.
use vstd::prelude::*;
use crate::comments::Comment;
use crate::diff::UnifiedDiffLine;
use crate::components::{Action, Key, KeyCode};
use crate::text::{white_space, alphanumeric, is_white_space, is_alphanumeric, chars_of, to_owned_string, push_str, decimal_string};
use crate::file_viewer::content::ViewerContent;
use crate::file_viewer::diff_state::{DiffState, displayed, display_row_text, file_line_at, nearest_file_line, closest_row};
use crate::file_viewer::render_utils::line_number_width;
use crate::text::decimal;

pub mod content;
pub mod diff_state;
pub mod minimap;
pub mod render_utils;

verus! {

/// A character-level selection (from mouse drag), 1-indexed lines and
/// 0-indexed character columns, end exclusive.
pub struct CharSelectRange {
    pub start_line: usize,
    pub start_col: usize,
    pub end_line: usize,
    pub end_col: usize,
}

/// Render-time context passed from the application to the viewer for each
/// frame.
pub struct ViewerRenderContext<'a> {
    /// Comments for the currently viewed file, each paired with a staleness flag.
    pub comments: &'a [(Comment, bool)],
    /// Inline comment editor state (Some when in comment input mode).
    pub comment_edit: Option<&'a CommentEditState>,
    /// Line-select range for V mode highlighting (1-indexed start, end).
    pub line_select_range: Option<(usize, usize)>,
    /// Character-level selection range for mouse drag highlighting.
    pub char_select_range: Option<CharSelectRange>,
}

/// Active inline comment editor state, passed from the application before
/// each render.
pub struct CommentEditState {
    /// Start of the comment range (1-indexed).
    pub start_line: usize,
    /// End of the comment range (1-indexed). The editor renders below this line.
    pub target_line: usize,
    /// Current text being edited.
    pub text: String,
}

/// A character of a word: alphanumeric or `_`.
pub open spec fn word_char(c: char) -> bool {
    alphanumeric(c) || c == '_'
}

/// A punctuation character: neither a word character nor whitespace.
pub open spec fn punct_char(c: char) -> bool {
    !word_char(c) && !white_space(c)
}

/// Move left from `p` over whitespace.
pub open spec fn skip_ws_left(s: Seq<char>, p: int) -> int
    decreases p,
{
    if p > 0 && p <= s.len() && white_space(s[p - 1]) { skip_ws_left(s, p - 1) } else { p }
}

/// Move left from `p` over word characters.
pub open spec fn skip_word_left(s: Seq<char>, p: int) -> int
    decreases p,
{
    if p > 0 && p <= s.len() && word_char(s[p - 1]) { skip_word_left(s, p - 1) } else { p }
}

/// Move left from `p` over punctuation.
pub open spec fn skip_punct_left(s: Seq<char>, p: int) -> int
    decreases p,
{
    if p > 0 && p <= s.len() && punct_char(s[p - 1]) { skip_punct_left(s, p - 1) } else { p }
}

/// Move right from `p` over whitespace.
pub open spec fn skip_ws_right(s: Seq<char>, p: int) -> int
    decreases s.len() - p,
{
    if 0 <= p < s.len() && white_space(s[p]) { skip_ws_right(s, p + 1) } else { p }
}

/// Move right from `p` over word characters.
pub open spec fn skip_word_right(s: Seq<char>, p: int) -> int
    decreases s.len() - p,
{
    if 0 <= p < s.len() && word_char(s[p]) { skip_word_right(s, p + 1) } else { p }
}

/// Move right from `p` over punctuation.
pub open spec fn skip_punct_right(s: Seq<char>, p: int) -> int
    decreases s.len() - p,
{
    if 0 <= p < s.len() && punct_char(s[p]) { skip_punct_right(s, p + 1) } else { p }
}

/// The previous word boundary from character column `col`: back over
/// whitespace, then over one run of word characters or of punctuation.
pub open spec fn word_left(s: Seq<char>, col: int) -> int {
    if col == 0 {
        0
    } else {
        let p = skip_ws_left(s, if col < s.len() { col } else { s.len() as int });
        if p == 0 {
            0
        } else if word_char(s[p - 1]) {
            skip_word_left(s, p)
        } else {
            skip_punct_left(s, p)
        }
    }
}

/// The next word boundary from character column `col`: over one run of word
/// characters or of punctuation, then over whitespace.
pub open spec fn word_right(s: Seq<char>, col: int) -> int {
    if col >= s.len() {
        s.len() as int
    } else if word_char(s[col]) {
        skip_ws_right(s, skip_word_right(s, col))
    } else if !white_space(s[col]) {
        skip_ws_right(s, skip_punct_right(s, col))
    } else {
        skip_ws_right(s, col)
    }
}

fn is_word_char(c: char) -> (r: bool)
    ensures
        r == word_char(c),
{
    is_alphanumeric(c) || c == '_'
}

fn is_punct_char(c: char) -> (r: bool)
    ensures
        r == punct_char(c),
{
    !is_word_char(c) && !is_white_space(c)
}

proof fn lemma_skips_left(s: Seq<char>, p: int)
    requires
        0 <= p <= s.len(),
    ensures
        0 <= skip_ws_left(s, p) <= p,
        0 <= skip_word_left(s, p) <= p,
        0 <= skip_punct_left(s, p) <= p,
    decreases p,
{
    if p > 0 {
        lemma_skips_left(s, p - 1);
    }
}

proof fn lemma_skips_right(s: Seq<char>, p: int)
    requires
        0 <= p <= s.len(),
    ensures
        p <= skip_ws_right(s, p) <= s.len(),
        p <= skip_word_right(s, p) <= s.len(),
        p <= skip_punct_right(s, p) <= s.len(),
    decreases s.len() - p,
{
    if p < s.len() {
        lemma_skips_right(s, p + 1);
    }
}

/// The character column of the previous word boundary before `col` in `text`.
/// It never lies after `col` nor past the end of the text.
pub fn word_boundary_left(text: &str, col: usize) -> (r: usize)
    ensures
        r as int == word_left(text@, col as int),
        r <= col,
        r <= text@.len(),
{
    let chars = chars_of(text);
    proof {
        let c = if col < text@.len() { col as int } else { text@.len() as int };
        lemma_skips_left(text@, c);
        let p = skip_ws_left(text@, c);
        lemma_skips_left(text@, p);
    }
    if col == 0 {
        return 0;
    }
    let mut pos = if col < chars.len() { col } else { chars.len() };
    let ghost start = pos as int;
    while pos > 0 && is_white_space(chars[pos - 1])
        invariant
            pos <= chars@.len(),
            chars@ == text@,
            skip_ws_left(text@, pos as int) == skip_ws_left(text@, start),
        decreases pos,
    {
        pos = pos - 1;
    }
    if pos == 0 {
        return 0;
    }
    let ghost p1 = pos as int;
    if is_word_char(chars[pos - 1]) {
        while pos > 0 && is_word_char(chars[pos - 1])
            invariant
                pos <= chars@.len(),
                chars@ == text@,
                skip_word_left(text@, pos as int) == skip_word_left(text@, p1),
            decreases pos,
        {
            pos = pos - 1;
        }
    } else {
        while pos > 0 && is_punct_char(chars[pos - 1])
            invariant
                pos <= chars@.len(),
                chars@ == text@,
                skip_punct_left(text@, pos as int) == skip_punct_left(text@, p1),
            decreases pos,
        {
            pos = pos - 1;
        }
    }
    pos
}

/// The character column of the next word boundary after `col` in `text`:
/// past `col` (within the text), or the end of the text.
pub fn word_boundary_right(text: &str, col: usize) -> (r: usize)
    ensures
        r as int == word_right(text@, col as int),
        col < text@.len() ==> col < r <= text@.len(),
        col >= text@.len() ==> r == text@.len(),
{
    let chars = chars_of(text);
    proof {
        if col < text@.len() {
            lemma_skips_right(text@, col as int);
            lemma_skips_right(text@, skip_word_right(text@, col as int));
            lemma_skips_right(text@, skip_punct_right(text@, col as int));
            lemma_skips_right(text@, col as int + 1);
        }
    }
    let len = chars.len();
    if col >= len {
        return len;
    }
    let mut pos = col;
    if is_word_char(chars[pos]) {
        while pos < len && is_word_char(chars[pos])
            invariant
                col <= pos <= len,
                len == chars@.len(),
                chars@ == text@,
                skip_word_right(text@, pos as int) == skip_word_right(text@, col as int),
            decreases len - pos,
        {
            pos = pos + 1;
        }
    } else if !is_white_space(chars[pos]) {
        while pos < len && is_punct_char(chars[pos])
            invariant
                col <= pos <= len,
                len == chars@.len(),
                chars@ == text@,
                skip_punct_right(text@, pos as int) == skip_punct_right(text@, col as int),
            decreases len - pos,
        {
            pos = pos + 1;
        }
    }
    let ghost p1 = pos as int;
    while pos < len && is_white_space(chars[pos])
        invariant
            pos <= len,
            len == chars@.len(),
            chars@ == text@,
            skip_ws_right(text@, pos as int) == skip_ws_right(text@, p1),
        decreases len - pos,
    {
        pos = pos + 1;
    }
    pos
}

/// Columns to scroll per horizontal scroll tick.
pub const H_SCROLL_AMOUNT: usize = 4;
/// Rows the inline comment editor takes (the editor and its separator).
pub const COMMENT_EDITOR_ROWS: usize = 2;
/// Extra columns allowed beyond the longest line for horizontal scroll.
pub const H_SCROLL_PADDING: usize = 2;
/// Extra lines allowed beyond the last line for vertical scroll.
pub const V_SCROLL_PADDING: usize = 1;

/// What a rendered row of the viewer shows: a code line (0-indexed) or the
/// comment on lines `start..=end` (1-indexed).
#[derive(Debug, Clone, Copy, PartialEq, Eq, Structural)]
pub enum VisualRowContent {
    CodeLine(usize),
    CommentRow(usize, usize),
}

/// A rectangle of the terminal.
#[derive(Debug, Clone, Copy, PartialEq, Eq, Structural)]
pub struct Area {
    pub x: u16,
    pub y: u16,
    pub width: u16,
    pub height: u16,
}

/// Whether every line number is at most `isize::MAX`.
fn numbers_in_limits(nums: &Vec<Option<usize>>) -> (r: bool)
    ensures
        r == forall|i: int| 0 <= i < nums@.len() && nums@[i] is Some ==> nums@[i]->0 <= isize::MAX,
{
    let m: usize = isize::MAX as usize;
    let mut i: usize = 0;
    while i < nums.len()
        invariant
            i <= nums@.len(),
            m == isize::MAX,
            forall|j: int| 0 <= j < i && nums@[j] is Some ==> nums@[j]->0 <= isize::MAX,
        decreases nums.len() - i,
    {
        if let Some(n) = nums[i] {
            if n > m {
                assert(nums@[i as int] is Some && nums@[i as int]->0 > isize::MAX);
                return false;
            }
        }
        i = i + 1;
    }
    true
}

/// The file viewer's state: the loaded content, cursor, scrolling, diff data,
/// and what the last render laid out (for mouse hit-testing).
pub struct FileViewer {
    pub content: ViewerContent,
    pub scroll_offset: usize,
    /// Height of the viewer (set during render, used for half-page scroll).
    pub visible_height: usize,
    /// Cursor line position (0-indexed file line, or diff row in diff mode).
    pub cursor_line: usize,
    /// Cursor column (0-indexed character) for character-level selection.
    pub cursor_col: Option<usize>,
    /// Horizontal scroll offset in characters.
    pub h_scroll: usize,
    /// Width available for code content in characters (excludes the gutter).
    pub visible_content_width: usize,
    pub diff: DiffState,
    /// When Some, the cursor is on the comment row of lines `(start, end)`.
    pub cursor_on_comment: Option<(usize, usize)>,
    /// The content area of the last render.
    pub content_rect: Option<Area>,
    /// The minimap area of the last render.
    pub minimap_rect: Option<Area>,
    /// What each row of the content area showed at the last render.
    pub row_map: Vec<VisualRowContent>,
}

/// A viewer as it starts: nothing loaded, at the top, 20 rows high, no
/// diff, no cursor column or comment row, nothing laid out yet.
pub open spec fn fresh_viewer(v: FileViewer) -> bool {
    &&& v.content == ViewerContent::Placeholder
    &&& v.scroll_offset == 0
    &&& v.visible_height == 20
    &&& v.cursor_line == 0
    &&& v.cursor_col is None
    &&& v.h_scroll == 0
    &&& v.visible_content_width == 0
    &&& v.diff.line_diff is None && v.diff.unified_diff is None && !v.diff.diff_mode && v.diff.diff_line_numbers@.len() == 0
    &&& v.cursor_on_comment is None
    &&& v.content_rect is None
    &&& v.minimap_rect is None
    &&& v.row_map@.len() == 0
}

/// The lines of the loaded file (none unless a file is loaded).
pub open spec fn file_lines(c: ViewerContent) -> Seq<String> {
    match c {
        ViewerContent::File { lines, .. } => lines@,
        _ => Seq::empty(),
    }
}

/// The number of rows the cursor moves over: diff rows in diff mode, file
/// lines otherwise.
pub open spec fn total_rows(v: FileViewer) -> int {
    if v.diff.diff_mode {
        match v.diff.unified_diff {
            Some(d) => displayed(d.lines@).len() as int,
            None => 0,
        }
    } else {
        file_lines(v.content).len() as int
    }
}

/// The text of row `i`, if there is one.
pub open spec fn row_text(v: FileViewer, i: int) -> Option<Seq<char>> {
    if v.diff.diff_mode {
        match v.diff.unified_diff {
            Some(d) => display_row_text(d.lines@, i),
            None => None,
        }
    } else if 0 <= i < file_lines(v.content).len() {
        Some(file_lines(v.content)[i]@)
    } else {
        None
    }
}

/// The number of characters of row `i` (0 when there is no such row).
pub open spec fn row_chars(v: FileViewer, i: int) -> int {
    match row_text(v, i) {
        Some(t) => t.len() as int,
        None => 0,
    }
}

/// The 1-indexed file line shown at row `i`: `i + 1` outside diff mode.
pub open spec fn file_line_of_row(v: FileViewer, i: int) -> Option<usize> {
    if v.diff.diff_mode { file_line_at(v.diff.diff_line_numbers@, i) } else { Some((i + 1) as usize) }
}

/// The largest scroll offset: the last row plus padding at the bottom.
pub open spec fn max_scroll_of(v: FileViewer) -> int {
    crate::file_tree::sat_sub(total_rows(v) + V_SCROLL_PADDING, v.visible_height as int)
}

/// The scroll offset that shows the cursor row.
pub open spec fn cursor_offset(off: int, cur: int, h: int) -> int {
    if cur < off { cur } else if cur >= off + h { cur - h + 1 } else { off }
}

/// The viewer with its scroll offset adjusted to show the cursor.
pub open spec fn cursor_shown(v: FileViewer) -> FileViewer {
    FileViewer { scroll_offset: cursor_offset(v.scroll_offset as int, v.cursor_line as int, v.visible_height as int) as usize, ..v }
}

/// The viewer after jumping to the line that minimap row `row` (of
/// `height` rows) stands for: the cursor goes there, centered when possible.
pub open spec fn minimap_scrolled(v: FileViewer, row: u16, height: u16) -> FileViewer {
    let t = total_rows(v);
    let line = if height == 0 || t == 0 {
        0
    } else {
        crate::file_tree::min_int(row * t / height as int, t - 1)
    };
    FileViewer {
        scroll_offset: crate::file_tree::min_int(
            crate::file_tree::sat_sub(line, v.visible_height as int / 2), max_scroll_of(v)) as usize,
        cursor_line: line as usize,
        cursor_on_comment: None,
        ..v
    }
}

/// The machine limits the viewer's key handling works within.
pub open spec fn viewer_key_fits(v: FileViewer) -> bool {
    &&& v.cursor_line < isize::MAX
    &&& v.diff.unified_diff is Some ==> v.diff.unified_diff->0.lines@.len() <= isize::MAX
    &&& forall|i: int| 0 <= i < v.diff.diff_line_numbers@.len() && v.diff.diff_line_numbers@[i] is Some
        ==> v.diff.diff_line_numbers@[i]->0 <= isize::MAX
    &&& file_lines(v.content).len() <= isize::MAX
    &&& longest_line(file_lines(v.content)) <= isize::MAX
    &&& v.h_scroll <= isize::MAX
    &&& v.scroll_offset <= isize::MAX
    &&& v.visible_height <= isize::MAX
    &&& match v.cursor_col { Some(c) => c < usize::MAX, None => true }
}

/// The viewer with the cursor column clamped to its row's length.
pub open spec fn col_clamped(v: FileViewer) -> FileViewer {
    match v.cursor_col {
        Some(c) => FileViewer { cursor_col: Some(crate::file_tree::min_int(c as int, row_chars(v, v.cursor_line as int)) as usize), ..v },
        None => v,
    }
}

/// The range of the first comment that ends on file line `ln`.
pub open spec fn comment_ending_at(cs: Seq<(Comment, bool)>, ln: usize) -> Option<(usize, usize)>
    decreases cs.len(),
{
    if cs.len() == 0 {
        None
    } else {
        match comment_ending_at(cs.drop_last(), ln) {
            Some(r) => Some(r),
            None => if cs.last().0.end_line == ln { Some((cs.last().0.start_line, cs.last().0.end_line)) } else { None },
        }
    }
}

/// The viewer after moving the cursor down one row: off a comment row to the
/// next line, onto the comment row below the current line when a comment
/// ends there, else to the next line (staying on the last).
pub open spec fn moved_down(v: FileViewer, cs: Seq<(Comment, bool)>) -> FileViewer {
    let max = crate::file_tree::sat_sub(total_rows(v), 1);
    let cur = v.cursor_line as int;
    let w = if v.cursor_on_comment is Some {
        FileViewer { cursor_on_comment: None, cursor_line: (if cur < max { cur + 1 } else { cur }) as usize, ..v }
    } else if cur < max {
        match file_line_of_row(v, cur) {
            Some(ln) => match comment_ending_at(cs, ln) {
                Some(r) => FileViewer { cursor_on_comment: Some(r), ..v },
                None => FileViewer { cursor_line: (cur + 1) as usize, ..v },
            },
            None => FileViewer { cursor_line: (cur + 1) as usize, ..v },
        }
    } else {
        v
    };
    cursor_shown(col_clamped(w))
}

/// The viewer after moving the cursor up one row: off a comment row to the
/// line above it, else up one line, landing on the comment row of a comment
/// that ends on the line above.
pub open spec fn moved_up(v: FileViewer, cs: Seq<(Comment, bool)>) -> FileViewer {
    let cur = v.cursor_line as int;
    let w = if v.cursor_on_comment is Some {
        FileViewer { cursor_on_comment: None, ..v }
    } else if cur > 0 {
        let check = if v.diff.diff_mode { file_line_of_row(v, cur - 1) } else { Some(cur as usize) };
        match check {
            Some(ln) => match comment_ending_at(cs, ln) {
                Some(r) => FileViewer { cursor_on_comment: Some(r), cursor_line: (cur - 1) as usize, ..v },
                None => FileViewer { cursor_line: (cur - 1) as usize, ..v },
            },
            None => FileViewer { cursor_line: (cur - 1) as usize, ..v },
        }
    } else {
        v
    };
    cursor_shown(col_clamped(w))
}

/// The length in characters of the longest file line.
pub open spec fn longest_line(ls: Seq<String>) -> int
    decreases ls.len(),
{
    if ls.len() == 0 {
        0
    } else {
        let m = longest_line(ls.drop_last());
        if ls.last()@.len() > m { ls.last()@.len() as int } else { m }
    }
}

/// The gutter width: line-number digits, a space, and a diff marker column
/// when there is diff data.
pub open spec fn gutter_cols(v: FileViewer) -> int {
    let n = if v.diff.diff_mode {
        match v.content {
            ViewerContent::File { lines, .. } => lines@.len() as int,
            _ => total_rows(v),
        }
    } else {
        file_lines(v.content).len() as int
    };
    decimal(n as nat).len() + 1 + if v.diff.line_diff is Some || v.diff.diff_mode { 1int } else { 0int }
}

/// What a key does in the viewer beyond what the application handles.
pub open spec fn viewer_key_action(k: Key) -> Action {
    if k.is_char('j') || k.code == KeyCode::Down {
        Action::CursorDown
    } else if k.is_char('k') || k.code == KeyCode::Up {
        Action::CursorUp
    } else if k.is_char('c') {
        Action::StartComment
    } else if k.is_char('x') || k.code == KeyCode::Delete || k.code == KeyCode::Backspace {
        Action::DeleteComment
    } else if k.code == KeyCode::Char('V') && k.is_shifted() {
        Action::StartLineSelect
    } else if k.is_char('e') {
        Action::ExportComments
    } else if k.code == KeyCode::Char('B') && k.is_shifted() {
        Action::BugReport
    } else if k.code == KeyCode::Tab {
        Action::SwitchFocus
    } else if k.is_char('q') {
        Action::Quit
    } else {
        Action::NoAction
    }
}

/// The key moves or scrolls the viewer itself (diff toggle, horizontal
/// scroll, column moves, half-page scroll).
pub open spec fn viewer_moving_key(k: Key) -> bool {
    ||| k.is_char('d')
    ||| k.is_char('h')
    ||| k.is_char('l')
    ||| k.code == KeyCode::Left
    ||| k.code == KeyCode::Right
    ||| (k.code == KeyCode::Char('d') && k.is_control())
    ||| (k.code == KeyCode::Char('u') && k.is_control())
}

/// The cursor column, 0 when unset.
pub open spec fn col_of(v: FileViewer) -> int {
    match v.cursor_col { Some(c) => c as int, None => 0 }
}

/// The text of the cursor row (empty when there is none).
pub open spec fn cursor_text(v: FileViewer) -> Seq<char> {
    match row_text(v, v.cursor_line as int) { Some(t) => t, None => Seq::empty() }
}

/// The cursor column moved to the previous word boundary.
pub open spec fn word_lefted(v: FileViewer) -> FileViewer {
    FileViewer { cursor_col: Some(word_left(cursor_text(v), col_of(v)) as usize), ..v }
}

/// The cursor column moved to the next word boundary.
pub open spec fn word_righted(v: FileViewer) -> FileViewer {
    FileViewer { cursor_col: Some(word_right(cursor_text(v), col_of(v)) as usize), ..v }
}

/// Scrolled left by a step.
pub open spec fn scrolled_left(v: FileViewer) -> FileViewer {
    FileViewer { h_scroll: crate::file_tree::sat_sub(v.h_scroll as int, H_SCROLL_AMOUNT as int) as usize, ..v }
}

/// Scrolled right by a step, within the longest line plus padding.
pub open spec fn scrolled_right(v: FileViewer) -> FileViewer {
    let longest = longest_line(file_lines(v.content));
    if longest == 0 {
        v
    } else {
        FileViewer {
            h_scroll: crate::file_tree::min_int(v.h_scroll + H_SCROLL_AMOUNT,
                crate::file_tree::sat_sub(longest + H_SCROLL_PADDING, v.visible_content_width as int)) as usize,
            ..v
        }
    }
}

/// The cursor column moved one character left.
pub open spec fn col_left(v: FileViewer) -> FileViewer {
    FileViewer { cursor_col: Some(crate::file_tree::sat_sub(col_of(v), 1) as usize), ..v }
}

/// The cursor column moved one character right, within its row.
pub open spec fn col_right(v: FileViewer) -> FileViewer {
    FileViewer { cursor_col: Some(crate::file_tree::min_int(col_of(v) + 1, row_chars(v, v.cursor_line as int)) as usize), ..v }
}

/// Half a page down: scroll and cursor move together.
pub open spec fn half_page_down(v: FileViewer) -> FileViewer {
    let half = v.visible_height as int / 2;
    let scrolled = FileViewer { scroll_offset: crate::file_tree::min_int(v.scroll_offset + half, max_scroll_of(v)) as usize, ..v };
    cursor_shown(FileViewer {
        cursor_line: crate::file_tree::min_int(v.cursor_line + half, crate::file_tree::sat_sub(total_rows(v), 1)) as usize,
        cursor_on_comment: None,
        ..scrolled
    })
}

/// Half a page up: scroll and cursor move together.
pub open spec fn half_page_up(v: FileViewer) -> FileViewer {
    let half = v.visible_height as int / 2;
    let scrolled = FileViewer { scroll_offset: crate::file_tree::sat_sub(v.scroll_offset as int, half) as usize, ..v };
    cursor_shown(FileViewer {
        cursor_line: crate::file_tree::sat_sub(v.cursor_line as int, half) as usize,
        cursor_on_comment: None,
        ..scrolled
    })
}

/// The row that shows file line `fl`.
pub open spec fn row_for_line(nums: Seq<Option<usize>>, fl: usize) -> int {
    choose|r: int| closest_row(nums, fl, r)
}

proof fn lemma_closest_row_unique(nums: Seq<Option<usize>>, fl: usize, r1: int, r2: int)
    requires
        closest_row(nums, fl, r1),
        closest_row(nums, fl, r2),
    ensures
        r1 == r2,
{
    if exists|i: int| 0 <= i < nums.len() && nums[i] is Some {
        if r1 < r2 {
            assert(crate::file_viewer::diff_state::line_dist(nums[r1]->0, fl) > crate::file_viewer::diff_state::line_dist(nums[r2]->0, fl));
        } else if r2 < r1 {
            assert(crate::file_viewer::diff_state::line_dist(nums[r2]->0, fl) > crate::file_viewer::diff_state::line_dist(nums[r1]->0, fl));
        }
    }
}

/// `a` is `b` after toggling diff mode (when there is a unified diff): the
/// cursor stays on the same file line (the nearest one from a removed row)
/// at the same screen row where possible.
pub open spec fn diff_toggled(b: FileViewer, a: FileViewer) -> bool {
    match b.diff.unified_diff {
        None => a == b,
        Some(u) => {
            let mode = !b.diff.diff_mode;
            let nums = if mode { crate::file_viewer::diff_state::line_numbers(u.lines@) } else { b.diff.diff_line_numbers@ };
            let fl = if b.diff.diff_mode {
                nearest_file_line(b.diff.diff_line_numbers@, b.cursor_line as int)
            } else {
                Some((b.cursor_line + 1) as usize)
            };
            let screen = crate::file_tree::sat_sub(b.cursor_line as int, b.scroll_offset as int);
            let c = FileViewer {
                diff: DiffState { diff_mode: mode, diff_line_numbers: a.diff.diff_line_numbers, ..b.diff },
                cursor_on_comment: None,
                ..b
            };
            &&& a.diff.diff_line_numbers@ == nums
            &&& a == (FileViewer { cursor_line: a.cursor_line, scroll_offset: a.scroll_offset, ..c })
            &&& match fl {
                Some(f) => {
                    let c0 = if mode { row_for_line(nums, f) } else { crate::file_tree::sat_sub(f as int, 1) };
                    let cur = crate::file_tree::min_int(c0, crate::file_tree::sat_sub(total_rows(c), 1));
                    a.cursor_line == cur && a.scroll_offset == crate::file_tree::min_int(crate::file_tree::sat_sub(cur, screen), max_scroll_of(c))
                },
                None => a.cursor_line == 0 && a.scroll_offset == 0,
            }
        },
    }
}

/// `a` and `r` are the viewer and the action after key `k` from `b`.
pub open spec fn viewer_key_handled(b: FileViewer, k: Key, a: FileViewer, r: Action) -> bool {
    if viewer_key_action(k) != Action::NoAction && !viewer_moving_key(k) {
        a == b && r == viewer_key_action(k)
    } else if k.is_char('d') {
        diff_toggled(b, a) && r is NoAction
    } else if k.is_char('h') {
        a == scrolled_left(b) && r is NoAction
    } else if k.code == KeyCode::Left && k.is_alt() {
        a == word_lefted(b) && r is NoAction
    } else if k.code == KeyCode::Left {
        a == col_left(b) && r is NoAction
    } else if k.is_char('l') {
        a == scrolled_right(b) && r is NoAction
    } else if k.code == KeyCode::Right && k.is_alt() {
        a == word_righted(b) && r is NoAction
    } else if k.code == KeyCode::Right {
        a == col_right(b) && r is NoAction
    } else if k.code == KeyCode::Char('d') && k.is_control() {
        a == half_page_down(b) && r is NoAction
    } else if k.code == KeyCode::Char('u') && k.is_control() {
        a == half_page_up(b) && r is NoAction
    } else {
        a == b && r is NoAction
    }
}

/// The character column under terminal column `col`, if it falls on code.
pub open spec fn terminal_column(v: FileViewer, col: u16) -> Option<int> {
    match v.content_rect {
        None => None,
        Some(cr) => if col < cr.x || col - cr.x < gutter_cols(v) {
            None
        } else {
            Some(col - cr.x - gutter_cols(v) + v.h_scroll)
        },
    }
}

/// The viewer after a click at terminal `(row, column)` inside the content
/// area: the cursor goes to the clicked code line or comment row (the
/// rendered row map decides; before any render, the scrolled line), and its
/// column to the clicked character (0 on the gutter).
pub open spec fn clicked(v: FileViewer, row: u16, column: u16) -> FileViewer {
    let cr = v.content_rect->0;
    let inner = row - cr.y;
    let last = crate::file_tree::sat_sub(total_rows(v), 1);
    let w = if v.row_map@.len() == 0 {
        FileViewer { cursor_line: crate::file_tree::min_int(v.scroll_offset + inner, last) as usize, cursor_on_comment: None, ..v }
    } else if inner < v.row_map@.len() {
        match v.row_map@[inner] {
            VisualRowContent::CodeLine(idx) => FileViewer { cursor_line: idx, cursor_on_comment: None, ..v },
            VisualRowContent::CommentRow(a, b) => FileViewer {
                cursor_line: crate::file_tree::sat_sub(b as int, 1) as usize,
                cursor_on_comment: Some((a, b)),
                ..v
            },
        }
    } else {
        FileViewer { cursor_line: last as usize, cursor_on_comment: None, ..v }
    };
    FileViewer {
        cursor_col: Some(match terminal_column(w, column) {
            Some(c) => crate::file_tree::min_int(c, row_chars(w, w.cursor_line as int)) as usize,
            None => 0,
        }),
        ..w
    }
}

/// The click at `(row, column)` falls inside the content area.
pub open spec fn in_content(v: FileViewer, row: u16, column: u16) -> bool {
    match v.content_rect {
        None => false,
        Some(cr) => cr.y <= row < cr.y + cr.height && cr.x <= column < cr.x + cr.width,
    }
}

impl FileViewer {
    /// An empty viewer with no file loaded.
    pub fn new() -> (r: Self)
        ensures
            fresh_viewer(r),
            r.content == ViewerContent::Placeholder,
            r.scroll_offset == 0,
            r.visible_height == 20,
            r.cursor_line == 0,
            r.cursor_col is None,
            r.h_scroll == 0,
            r.visible_content_width == 0,
            r.diff.line_diff is None && r.diff.unified_diff is None && !r.diff.diff_mode && r.diff.diff_line_numbers@.len() == 0,
            r.cursor_on_comment is None,
            r.content_rect is None,
            r.minimap_rect is None,
            r.row_map@.len() == 0,
    {
        FileViewer {
            content: ViewerContent::Placeholder,
            scroll_offset: 0,
            visible_height: 20,
            cursor_line: 0,
            cursor_col: None,
            h_scroll: 0,
            visible_content_width: 0,
            diff: DiffState::new(),
            cursor_on_comment: None,
            content_rect: None,
            minimap_rect: None,
            row_map: Vec::new(),
        }
    }

    /// Set the diff data of the loaded file.
    pub fn set_diff(&mut self, line_diff: Option<crate::diff::LineDiff>, unified_diff: Option<crate::diff::UnifiedDiff>)
        ensures
            final(self).diff.line_diff == line_diff,
            final(self).diff.unified_diff == unified_diff,
            final(self).diff.diff_mode == old(self).diff.diff_mode,
            final(self).diff.diff_line_numbers@ == match unified_diff {
                Some(d) => crate::file_viewer::diff_state::line_numbers(d.lines@),
                None => Seq::<Option<usize>>::empty(),
            },
            *final(self) == (FileViewer { diff: final(self).diff, ..*old(self) }),
    {
        self.diff.set(line_diff, unified_diff);
    }

    /// Show newly loaded content from the top, forgetting the diff data.
    pub fn load_file(&mut self, content: ViewerContent)
        ensures
            final(self).content == content,
            final(self).scroll_offset == 0,
            final(self).cursor_line == 0,
            final(self).cursor_col is None,
            final(self).h_scroll == 0,
            final(self).cursor_on_comment is None,
            final(self).diff.line_diff is None && final(self).diff.unified_diff is None && !final(self).diff.diff_mode,
            final(self).diff.diff_line_numbers@.len() == 0,
            *final(self) == (FileViewer { content, scroll_offset: 0, cursor_line: 0, cursor_col: None, h_scroll: 0,
                cursor_on_comment: None, diff: final(self).diff, ..*old(self) }),
    {
        self.scroll_offset = 0;
        self.cursor_line = 0;
        self.cursor_col = None;
        self.h_scroll = 0;
        self.cursor_on_comment = None;
        self.diff.clear();
        self.content = content;
    }

    /// Replace the loaded file's content with `new_content` (re-read from
    /// disk), keeping the cursor but clamping it to a shorter file. Nothing
    /// happens, and false is returned, when no file is loaded.
    pub fn reload_content(&mut self, new_content: ViewerContent) -> (r: bool)
        ensures
            r == old(self).content is File,
            r ==> final(self).content == new_content,
            r ==> final(self).cursor_line == match new_content {
                ViewerContent::File { lines, .. } =>
                    crate::file_tree::min_int(old(self).cursor_line as int, crate::file_tree::sat_sub(lines@.len() as int, 1)) as usize,
                _ => old(self).cursor_line,
            },
            !r ==> *final(self) == *old(self),
            *final(self) == (FileViewer { content: final(self).content, cursor_line: final(self).cursor_line, ..*old(self) }),
    {
        match &self.content {
            ViewerContent::File { .. } => {},
            _ => { return false; },
        }
        if let ViewerContent::File { lines, .. } = &new_content {
            let max_line = if lines.len() >= 1 { lines.len() - 1 } else { 0 };
            if self.cursor_line > max_line {
                self.cursor_line = max_line;
            }
        }
        self.content = new_content;
        true
    }

    /// The number of rows the cursor moves over.
    pub fn total_lines(&self) -> (r: usize)
        ensures
            r == total_rows(*self),
    {
        if self.diff.diff_mode {
            return self.diff.total_lines();
        }
        match &self.content {
            ViewerContent::File { lines, .. } => lines.len(),
            _ => 0,
        }
    }

    /// The 1-indexed file line at the cursor; `None` on a removed diff row.
    pub fn cursor_file_line(&self) -> (r: Option<usize>)
        requires
            !self.diff.diff_mode ==> self.cursor_line < usize::MAX,
        ensures
            r == file_line_of_row(*self, self.cursor_line as int),
    {
        if self.diff.diff_mode {
            self.diff.file_line_at_display(self.cursor_line)
        } else {
            Some(self.cursor_line + 1)
        }
    }

    /// The file line at the cursor, or the nearest one on a removed diff row.
    pub fn resolve_nearest_file_line(&self) -> (r: Option<usize>)
        requires
            !self.diff.diff_mode ==> self.cursor_line < usize::MAX,
        ensures
            r == if self.diff.diff_mode {
                nearest_file_line(self.diff.diff_line_numbers@, self.cursor_line as int)
            } else {
                Some((self.cursor_line + 1) as usize)
            },
    {
        if !self.diff.diff_mode {
            return Some(self.cursor_line + 1);
        }
        self.diff.resolve_nearest_file_line(self.cursor_line)
    }

    /// The text of row `line_idx`, if there is one.
    pub fn line_text(&self, line_idx: usize) -> (r: Option<&str>)
        ensures
            match r {
                Some(t) => row_text(*self, line_idx as int) == Some(t@),
                None => row_text(*self, line_idx as int) is None,
            },
    {
        if self.diff.diff_mode {
            self.diff.line_text_at_display(line_idx)
        } else {
            match &self.content {
                ViewerContent::File { lines, .. } => {
                    if line_idx < lines.len() { Some(lines[line_idx].as_str()) } else { None }
                },
                _ => None,
            }
        }
    }

    /// The number of characters of row `line_idx` (0 when there is none).
    pub fn line_char_count(&self, line_idx: usize) -> (r: usize)
        ensures
            r == row_chars(*self, line_idx as int),
    {
        match self.line_text(line_idx) {
            Some(t) => t.unicode_len(),
            None => 0,
        }
    }

    /// Move the cursor column to the start of the previous word of its row.
    pub fn cursor_word_left(&mut self)
        ensures
            *final(self) == word_lefted(*old(self)),
    {
        let col = match self.cursor_col { Some(c) => c, None => 0 };
        let r = match self.line_text(self.cursor_line) {
            Some(t) => word_boundary_left(t, col),
            None => {
                proof {
                    reveal_strlit("");
                }
                word_boundary_left("", col)
            },
        };
        self.cursor_col = Some(r);
    }

    /// Move the cursor column to the start of the next word of its row.
    pub fn cursor_word_right(&mut self)
        ensures
            *final(self) == word_righted(*old(self)),
    {
        let col = match self.cursor_col { Some(c) => c, None => 0 };
        let r = match self.line_text(self.cursor_line) {
            Some(t) => word_boundary_right(t, col),
            None => {
                proof {
                    reveal_strlit("");
                }
                word_boundary_right("", col)
            },
        };
        self.cursor_col = Some(r);
    }

    /// Whether the gutter width fits a `usize`.
    pub fn gutter_in_limits(&self) -> (r: bool)
        ensures
            r == (gutter_cols(*self) <= usize::MAX),
    {
        let line_count = if self.diff.diff_mode {
            match &self.content {
                ViewerContent::File { lines, .. } => lines.len(),
                _ => self.diff.total_lines(),
            }
        } else {
            match &self.content {
                ViewerContent::File { lines, .. } => lines.len(),
                _ => 0,
            }
        };
        let w = line_number_width(line_count);
        let extra: usize = if self.diff.line_diff.is_some() || self.diff.diff_mode { 2 } else { 1 };
        w <= usize::MAX - extra
    }

    /// The gutter width in terminal columns.
    pub fn current_gutter_cols(&self) -> (r: usize)
        requires
            gutter_cols(*self) <= usize::MAX,
        ensures
            r == gutter_cols(*self),
    {
        let line_count = if self.diff.diff_mode {
            match &self.content {
                ViewerContent::File { lines, .. } => lines.len(),
                _ => self.diff.total_lines(),
            }
        } else {
            match &self.content {
                ViewerContent::File { lines, .. } => lines.len(),
                _ => 0,
            }
        };
        let w = line_number_width(line_count);
        let has_diff = self.diff.line_diff.is_some() || self.diff.diff_mode;
        w + 1 + if has_diff { 1 } else { 0 }
    }

    /// The character column under terminal column `terminal_col`, or `None`
    /// off the content area's code (on the gutter, or with nothing rendered).
    pub fn column_from_terminal_x(&self, terminal_col: u16) -> (r: Option<usize>)
        requires
            gutter_cols(*self) <= usize::MAX,
            self.h_scroll + u16::MAX <= usize::MAX,
        ensures
            r == match self.content_rect {
                None => None,
                Some(cr) => if terminal_col < cr.x || terminal_col - cr.x < gutter_cols(*self) {
                    None
                } else {
                    Some((terminal_col - cr.x - gutter_cols(*self) + self.h_scroll) as usize)
                },
            },
    {
        let cr = match self.content_rect {
            Some(r) => r,
            None => { return None; },
        };
        if terminal_col < cr.x {
            return None;
        }
        let col_in_content = (terminal_col - cr.x) as usize;
        let gutter = self.current_gutter_cols();
        if col_in_content < gutter {
            return None;
        }
        Some(col_in_content - gutter + self.h_scroll)
    }

    /// The largest scroll offset.
    pub fn max_scroll(&self) -> (r: usize)
        requires
            total_rows(*self) + V_SCROLL_PADDING <= usize::MAX,
        ensures
            r == max_scroll_of(*self),
    {
        let t = self.total_lines() + V_SCROLL_PADDING;
        if t >= self.visible_height { t - self.visible_height } else { 0 }
    }

    /// The length of the longest file line in characters.
    pub fn max_line_len(&self) -> (r: usize)
        ensures
            r == longest_line(file_lines(self.content)),
    {
        match &self.content {
            ViewerContent::File { lines, .. } => {
                let mut m: usize = 0;
                let mut i: usize = 0;
                while i < lines.len()
                    invariant
                        i <= lines@.len(),
                        m == longest_line(lines@.take(i as int)),
                    decreases lines.len() - i,
                {
                    proof {
                        let t = lines@.take(i as int + 1);
                        assert(t.drop_last() =~= lines@.take(i as int));
                    }
                    let n = lines[i].as_str().unicode_len();
                    if n > m {
                        m = n;
                    }
                    i = i + 1;
                }
                proof {
                    assert(lines@.take(lines@.len() as int) =~= lines@);
                }
                m
            },
            _ => 0,
        }
    }

    /// Scroll down by `amount` rows, stopping at the largest offset.
    pub fn scroll_down(&mut self, amount: usize)
        requires
            old(self).scroll_offset + amount <= usize::MAX,
            total_rows(*old(self)) + V_SCROLL_PADDING <= usize::MAX,
        ensures
            *final(self) == (FileViewer {
                scroll_offset: crate::file_tree::min_int(old(self).scroll_offset + amount, max_scroll_of(*old(self))) as usize,
                ..*old(self)
            }),
    {
        let m = self.max_scroll();
        let n = self.scroll_offset + amount;
        self.scroll_offset = if n <= m { n } else { m };
    }

    /// Scroll up by `amount` rows, stopping at the top.
    pub fn scroll_up(&mut self, amount: usize)
        ensures
            *final(self) == (FileViewer {
                scroll_offset: crate::file_tree::sat_sub(old(self).scroll_offset as int, amount as int) as usize,
                ..*old(self)
            }),
    {
        self.scroll_offset = if self.scroll_offset >= amount { self.scroll_offset - amount } else { 0 };
    }

    /// Scroll right by a step, no further than the longest line (plus
    /// padding) allows; nothing happens without lines.
    pub fn scroll_right(&mut self)
        requires
            longest_line(file_lines(old(self).content)) + H_SCROLL_PADDING <= usize::MAX,
            old(self).h_scroll + H_SCROLL_AMOUNT <= usize::MAX,
        ensures
            *final(self) == scrolled_right(*old(self)),
    {
        let max_len = self.max_line_len();
        if max_len == 0 {
            return;
        }
        let t = max_len + H_SCROLL_PADDING;
        let max = if t >= self.visible_content_width { t - self.visible_content_width } else { 0 };
        let n = self.h_scroll + H_SCROLL_AMOUNT;
        self.h_scroll = if n <= max { n } else { max };
    }

    /// Scroll left by a step, stopping at the start.
    pub fn scroll_left(&mut self)
        ensures
            *final(self) == scrolled_left(*old(self)),
    {
        self.h_scroll = if self.h_scroll >= H_SCROLL_AMOUNT { self.h_scroll - H_SCROLL_AMOUNT } else { 0 };
    }

    /// Scroll so that the comment editor below 1-indexed `target_line` (and
    /// its separator row) stays inside a viewport of `viewport_height` rows.
    pub fn auto_scroll_for_editor(&mut self, viewport_height: usize, target_line: Option<usize>)
        requires
            old(self).scroll_offset + viewport_height <= usize::MAX,
            match target_line { Some(t) => t + COMMENT_EDITOR_ROWS <= usize::MAX, None => true },
        ensures
            *final(self) == match target_line {
                Some(t) => {
                    let need = crate::file_tree::sat_sub(t as int, 1) + 1 + COMMENT_EDITOR_ROWS;
                    if need > old(self).scroll_offset + viewport_height {
                        FileViewer { scroll_offset: (need - viewport_height) as usize, ..*old(self) }
                    } else {
                        *old(self)
                    }
                },
                None => *old(self),
            },
    {
        if let Some(t) = target_line {
            let target_idx = if t >= 1 { t - 1 } else { 0 };
            let need = target_idx + 1 + COMMENT_EDITOR_ROWS;
            if need > self.scroll_offset + viewport_height {
                self.scroll_offset = need - viewport_height;
            }
        }
    }

    /// Keep the cursor row inside the viewport.
    pub fn ensure_cursor_visible(&mut self)
        requires
            old(self).scroll_offset + old(self).visible_height <= usize::MAX,
            old(self).cursor_line < usize::MAX,
        ensures
            *final(self) == cursor_shown(*old(self)),
    {
        if self.cursor_line < self.scroll_offset {
            self.scroll_offset = self.cursor_line;
        } else if self.cursor_line >= self.scroll_offset + self.visible_height {
            self.scroll_offset = self.cursor_line - self.visible_height + 1;
        }
    }

    fn clamp_col(&mut self)
        ensures
            *final(self) == col_clamped(*old(self)),
    {
        if let Some(col) = self.cursor_col {
            let max_col = self.line_char_count(self.cursor_line);
            self.cursor_col = Some(if col <= max_col { col } else { max_col });
        }
    }

    /// Move the cursor down one row, stopping on the comment row below a
    /// line where one of `comments` ends.
    pub fn cursor_down(&mut self, comments: &[(Comment, bool)])
        requires
            old(self).scroll_offset + old(self).visible_height <= usize::MAX,
            old(self).cursor_line + 1 < usize::MAX,
        ensures
            *final(self) == moved_down(*old(self), comments@),
    {
        let total = self.total_lines();
        let max = if total >= 1 { total - 1 } else { 0 };
        if self.cursor_on_comment.is_some() {
            self.cursor_on_comment = None;
            if self.cursor_line < max {
                self.cursor_line = self.cursor_line + 1;
            }
        } else if self.cursor_line < max {
            let ln = if self.diff.diff_mode { self.diff.file_line_at_display(self.cursor_line) } else { Some(self.cursor_line + 1) };
            match ln {
                Some(l) => match comment_at_end_line(comments, l) {
                    Some(r) => { self.cursor_on_comment = Some(r); },
                    None => { self.cursor_line = self.cursor_line + 1; },
                },
                None => { self.cursor_line = self.cursor_line + 1; },
            }
        }
        self.clamp_col();
        self.ensure_cursor_visible();
    }

    /// Move the cursor up one row, stopping on the comment row of a comment
    /// that ends on the line above.
    pub fn cursor_up(&mut self, comments: &[(Comment, bool)])
        requires
            old(self).scroll_offset + old(self).visible_height <= usize::MAX,
            old(self).cursor_line < usize::MAX,
        ensures
            *final(self) == moved_up(*old(self), comments@),
    {
        if self.cursor_on_comment.is_some() {
            self.cursor_on_comment = None;
        } else if self.cursor_line > 0 {
            let check = if self.diff.diff_mode {
                self.diff.file_line_at_display(self.cursor_line - 1)
            } else {
                Some(self.cursor_line)
            };
            match check {
                Some(l) => match comment_at_end_line(comments, l) {
                    Some(r) => {
                        self.cursor_on_comment = Some(r);
                        self.cursor_line = self.cursor_line - 1;
                    },
                    None => { self.cursor_line = self.cursor_line - 1; },
                },
                None => { self.cursor_line = self.cursor_line - 1; },
            }
        }
        self.clamp_col();
        self.ensure_cursor_visible();
    }

    /// Put the cursor on 1-indexed `line` and scroll it into view.
    pub fn scroll_to_line(&mut self, line: usize)
        requires
            old(self).scroll_offset + old(self).visible_height <= usize::MAX,
        ensures
            *final(self) == cursor_shown(FileViewer {
                cursor_line: crate::file_tree::sat_sub(line as int, 1) as usize,
                cursor_on_comment: None,
                ..*old(self)
            }),
    {
        self.cursor_line = if line >= 1 { line - 1 } else { 0 };
        self.cursor_on_comment = None;
        self.ensure_cursor_visible();
    }

    /// Scroll so that the line a minimap row stands for is centered, and put
    /// the cursor on it.
    pub fn scroll_to_minimap_row(&mut self, row: u16, minimap_height: u16)
        requires
            row * total_rows(*old(self)) <= usize::MAX,
            total_rows(*old(self)) + V_SCROLL_PADDING <= usize::MAX,
        ensures
            *final(self) == minimap_scrolled(*old(self), row, minimap_height),
    {
        let line = crate::file_viewer::minimap::row_to_line(row, minimap_height, self.total_lines());
        let half = self.visible_height / 2;
        let s = if line >= half { line - half } else { 0 };
        let m = self.max_scroll();
        self.scroll_offset = if s <= m { s } else { m };
        self.cursor_line = line;
        self.cursor_on_comment = None;
    }

    /// The path of the loaded file, if any.
    pub fn current_file(&self) -> (r: Option<&str>)
        ensures
            match self.content {
                ViewerContent::File { path, .. } => r is Some && r->0@ == path@,
                _ => r is None,
            },
    {
        match &self.content {
            ViewerContent::File { path, .. } => Some(path.as_str()),
            _ => None,
        }
    }

    /// The lines of the loaded file (none unless a file is loaded).
    pub fn current_lines(&self) -> (r: &[String])
        ensures
            r@ == file_lines(self.content),
    {
        match &self.content {
            ViewerContent::File { lines, .. } => lines.as_slice(),
            _ => &[],
        }
    }

    /// Move the cursor column one character left.
    pub fn cursor_left(&mut self)
        ensures
            *final(self) == col_left(*old(self)),
    {
        let col = match self.cursor_col { Some(c) => c, None => 0 };
        self.cursor_col = Some(if col >= 1 { col - 1 } else { 0 });
    }

    /// Move the cursor column one character right, no further than the end of
    /// its row.
    pub fn cursor_right(&mut self)
        requires
            match old(self).cursor_col { Some(c) => c < usize::MAX, None => true },
        ensures
            *final(self) == col_right(*old(self)),
    {
        let col = match self.cursor_col { Some(c) => c, None => 0 };
        let max_col = self.line_char_count(self.cursor_line);
        self.cursor_col = Some(if col + 1 <= max_col { col + 1 } else { max_col });
    }

    /// Toggle diff mode (when there is a unified diff), keeping the cursor on
    /// the same file line and at the same screen row where possible.
    pub fn toggle_diff_mode(&mut self)
        requires
            old(self).cursor_line < usize::MAX,
            old(self).diff.unified_diff is Some ==> old(self).diff.unified_diff->0.lines@.len() <= isize::MAX,
            forall|i: int| 0 <= i < old(self).diff.diff_line_numbers@.len() && old(self).diff.diff_line_numbers@[i] is Some
                ==> old(self).diff.diff_line_numbers@[i]->0 <= isize::MAX,
            old(self).cursor_line < isize::MAX,
            file_lines(old(self).content).len() <= isize::MAX,
        ensures
            diff_toggled(*old(self), *final(self)),
    {
        if self.diff.unified_diff.is_none() {
            return;
        }
        proof {
            crate::file_viewer::diff_state::lemma_displayed_len(self.diff.unified_diff->0.lines@);
        }
        let file_line = self.resolve_nearest_file_line();
        proof {
            if self.diff.diff_mode {
                let nums = self.diff.diff_line_numbers@;
                let c = self.cursor_line as int;
                if file_line_at(nums, c) is None {
                    let h = crate::file_viewer::diff_state::removed_rows(nums);
                    let j = crate::file_tree::next_unset(h, c);
                    if j >= 0 {
                        assert(!h[j]);
                    } else {
                        let k = crate::file_tree::prev_unset(h, c);
                        if k >= 0 {
                            assert(!h[k]);
                        }
                    }
                }
            }
        }
        let screen_row = if self.cursor_line >= self.scroll_offset { self.cursor_line - self.scroll_offset } else { 0 };
        self.diff.diff_mode = !self.diff.diff_mode;
        self.cursor_on_comment = None;
        if self.diff.diff_mode {
            self.diff.compute_line_numbers();
            proof {
                let u = self.diff.unified_diff->0;
                crate::file_viewer::diff_state::lemma_line_numbers_capped(u.lines@);
            }
        }
        match file_line {
            Some(fl) => {
                let c0 = if self.diff.diff_mode {
                    let r = self.diff.display_index_for_file_line(fl);
                    proof {
                        lemma_closest_row_unique(self.diff.diff_line_numbers@, fl, r as int, row_for_line(self.diff.diff_line_numbers@, fl));
                    }
                    r
                } else if fl >= 1 { fl - 1 } else { 0 };
                let total = self.total_lines();
                let max_line = if total >= 1 { total - 1 } else { 0 };
                self.cursor_line = if c0 <= max_line { c0 } else { max_line };
                self.scroll_offset = if self.cursor_line >= screen_row { self.cursor_line - screen_row } else { 0 };
                let max_s = self.max_scroll();
                if self.scroll_offset > max_s {
                    self.scroll_offset = max_s;
                }
            },
            None => {
                self.scroll_offset = 0;
                self.cursor_line = 0;
            },
        }
    }

    /// Whether key handling fits the machine's limits (see [`viewer_key_fits`]).
    pub fn key_in_limits(&self) -> (r: bool)
        ensures
            r == viewer_key_fits(*self),
    {
        let m: usize = isize::MAX as usize;
        if self.cursor_line >= m || self.h_scroll > m || self.scroll_offset > m || self.visible_height > m {
            return false;
        }
        if let Some(c) = self.cursor_col {
            if c == usize::MAX {
                return false;
            }
        }
        if let Some(d) = &self.diff.unified_diff {
            if d.lines.len() > m {
                return false;
            }
        }
        if self.current_lines().len() > m || self.max_line_len() > m {
            return false;
        }
        numbers_in_limits(&self.diff.diff_line_numbers)
    }

    /// Handle a key in the viewer: moves and scrolls are done here, the rest
    /// is returned as the action for the application.
    pub fn handle_key(&mut self, key: &Key) -> (r: Action)
        requires
            viewer_key_fits(*old(self)),
        ensures
            viewer_key_handled(*old(self), *key, *final(self), r),
    {
        proof {
            if self.diff.unified_diff is Some {
                crate::file_viewer::diff_state::lemma_displayed_len(self.diff.unified_diff->0.lines@);
            }
        }
        let a = viewer_action(key);
        if !matches!(a, Action::NoAction) && !is_moving_key(key) {
            return a;
        }
        if key.char_plain('d') {
            self.toggle_diff_mode();
        } else if key.char_plain('h') {
            self.scroll_left();
        } else if key.code == KeyCode::Left && key.alt && !key.shift && !key.control && !key.other {
            self.cursor_word_left();
        } else if key.code == KeyCode::Left {
            self.cursor_left();
        } else if key.char_plain('l') {
            self.scroll_right();
        } else if key.code == KeyCode::Right && key.alt && !key.shift && !key.control && !key.other {
            self.cursor_word_right();
        } else if key.code == KeyCode::Right {
            self.cursor_right();
        } else if key.code == KeyCode::Char('d') && key.control && !key.shift && !key.alt && !key.other {
            let half = self.visible_height / 2;
            self.scroll_down(half);
            let total = self.total_lines();
            let max = if total >= 1 { total - 1 } else { 0 };
            let n = self.cursor_line + half;
            self.cursor_line = if n <= max { n } else { max };
            self.cursor_on_comment = None;
            self.ensure_cursor_visible();
        } else if key.code == KeyCode::Char('u') && key.control && !key.shift && !key.alt && !key.other {
            let half = self.visible_height / 2;
            self.scroll_up(half);
            self.cursor_line = if self.cursor_line >= half { self.cursor_line - half } else { 0 };
            self.cursor_on_comment = None;
            self.ensure_cursor_visible();
        }
        Action::NoAction
    }

    /// Move the cursor to what is shown at terminal `(row, column)`; false
    /// (and nothing changes) when that is outside the content area.
    pub fn click_line(&mut self, row: u16, column: u16) -> (r: bool)
        requires
            old(self).content_rect is Some ==> old(self).content_rect->0.y + old(self).content_rect->0.height <= u16::MAX
                && old(self).content_rect->0.x + old(self).content_rect->0.width <= u16::MAX,
            old(self).scroll_offset + u16::MAX <= usize::MAX,
            gutter_cols(*old(self)) <= usize::MAX,
            old(self).h_scroll + u16::MAX <= usize::MAX,
        ensures
            r == in_content(*old(self), row, column),
            r ==> *final(self) == clicked(*old(self), row, column),
            !r ==> *final(self) == *old(self),
    {
        let cr = match self.content_rect {
            Some(r) => r,
            None => { return false; },
        };
        if row < cr.y || row >= cr.y + cr.height || column < cr.x || column >= cr.x + cr.width {
            return false;
        }
        let inner_row = (row - cr.y) as usize;
        let total = self.total_lines();
        let last = if total >= 1 { total - 1 } else { 0 };
        if self.row_map.len() == 0 {
            let target = self.scroll_offset + inner_row;
            self.cursor_line = if target <= last { target } else { last };
            self.cursor_on_comment = None;
        } else if inner_row < self.row_map.len() {
            match self.row_map[inner_row] {
                VisualRowContent::CodeLine(idx) => {
                    self.cursor_line = idx;
                    self.cursor_on_comment = None;
                },
                VisualRowContent::CommentRow(a, b) => {
                    self.cursor_line = if b >= 1 { b - 1 } else { 0 };
                    self.cursor_on_comment = Some((a, b));
                },
            }
        } else {
            self.cursor_line = last;
            self.cursor_on_comment = None;
        }
        match self.column_from_terminal_x(column) {
            Some(c) => {
                let max_col = self.line_char_count(self.cursor_line);
                self.cursor_col = Some(if c <= max_col { c } else { max_col });
            },
            None => {
                self.cursor_col = Some(0);
            },
        }
        true
    }
}

/// The action a key asks of the application (see [`viewer_key_action`]).
fn viewer_action(k: &Key) -> (r: Action)
    ensures
        r == viewer_key_action(*k),
{
    if k.char_plain('j') || k.code == KeyCode::Down {
        Action::CursorDown
    } else if k.char_plain('k') || k.code == KeyCode::Up {
        Action::CursorUp
    } else if k.char_plain('c') {
        Action::StartComment
    } else if k.char_plain('x') || k.code == KeyCode::Delete || k.code == KeyCode::Backspace {
        Action::DeleteComment
    } else if k.code == KeyCode::Char('V') && k.shift && !k.control && !k.alt && !k.other {
        Action::StartLineSelect
    } else if k.char_plain('e') {
        Action::ExportComments
    } else if k.code == KeyCode::Char('B') && k.shift && !k.control && !k.alt && !k.other {
        Action::BugReport
    } else if k.code == KeyCode::Tab {
        Action::SwitchFocus
    } else if k.char_plain('q') {
        Action::Quit
    } else {
        Action::NoAction
    }
}

/// Whether a key moves or scrolls the viewer (see [`viewer_moving_key`]).
fn is_moving_key(k: &Key) -> (r: bool)
    ensures
        r == viewer_moving_key(*k),
{
    k.char_plain('d') || k.char_plain('h') || k.char_plain('l') || k.code == KeyCode::Left || k.code == KeyCode::Right
        || (k.code == KeyCode::Char('d') && k.control && !k.shift && !k.alt && !k.other)
        || (k.code == KeyCode::Char('u') && k.control && !k.shift && !k.alt && !k.other)
}

/// The range of the first comment that ends on file line `line`.
pub fn comment_at_end_line(comments: &[(Comment, bool)], line: usize) -> (r: Option<(usize, usize)>)
    ensures
        r == comment_ending_at(comments@, line),
{
    let mut i: usize = 0;
    while i < comments.len()
        invariant
            i <= comments@.len(),
            comment_ending_at(comments@.take(i as int), line) is None,
        decreases comments.len() - i,
    {
        proof {
            let t = comments@.take(i as int + 1);
            assert(t.drop_last() =~= comments@.take(i as int));
        }
        if comments[i].0.end_line == line {
            proof {
                lemma_comment_ending_prefix(comments@, i as int + 1, line);
            }
            return Some((comments[i].0.start_line, comments[i].0.end_line));
        }
        i = i + 1;
    }
    proof {
        assert(comments@.take(comments@.len() as int) =~= comments@);
    }
    None
}

proof fn lemma_comment_ending_prefix(cs: Seq<(Comment, bool)>, j: int, ln: usize)
    requires
        0 <= j <= cs.len(),
        comment_ending_at(cs.take(j), ln) is Some,
    ensures
        comment_ending_at(cs, ln) == comment_ending_at(cs.take(j), ln),
    decreases cs.len() - j,
{
    if j < cs.len() {
        let t = cs.take(j + 1);
        assert(t.drop_last() =~= cs.take(j));
        lemma_comment_ending_prefix(cs, j + 1, ln);
    } else {
        assert(cs.take(j) =~= cs);
    }
}

/// The file line number each code row shows: line `k + 1` for row `k` of a
/// file; the diff's own numbering (none on removed rows) in diff mode.
pub open spec fn row_line_numbers(v: FileViewer) -> Seq<Option<usize>> {
    if v.diff.diff_mode {
        v.diff.diff_line_numbers@
    } else {
        Seq::new(file_lines(v.content).len(), |k: int| Some((k + 1) as usize))
    }
}

/// The inline block under file line `ln`: the comment editor when it targets
/// the line (`edit` holding its start and target lines), else the first
/// comment that ends there; given by its range.
pub open spec fn block_below(cs: Seq<(Comment, bool)>, edit: Option<(usize, usize)>, ln: usize) -> Option<(usize, usize)> {
    match edit {
        Some((s, t)) if t == ln => Some((s, t)),
        _ => comment_ending_at(cs, ln),
    }
}

/// The smaller of two integers.
pub open spec fn min_of(a: int, b: int) -> int {
    if a <= b { a } else { b }
}

/// The rows of an inline block with `room` rows left below its code row: its
/// text row and its separator, as far as they fit.
pub open spec fn block_rows(block: Option<(usize, usize)>, room: int) -> Seq<VisualRowContent> {
    match block {
        Some((s, e)) => Seq::new(if room <= 0 { 0nat } else { min_of(2, room) as nat }, |k: int| VisualRowContent::CommentRow(s, e)),
        None => Seq::empty(),
    }
}

/// What the `height` rows of the content area show, from code row `i` on:
/// each code row, followed by the inline block under its file line, until the
/// rows or the area run out.
pub open spec fn layout_from(nums: Seq<Option<usize>>, i: int, height: int, cs: Seq<(Comment, bool)>, edit: Option<(usize, usize)>) -> Seq<VisualRowContent>
    decreases nums.len() - i,
{
    if i < 0 || i >= nums.len() || height <= 0 {
        Seq::empty()
    } else {
        let extra = match nums[i] {
            Some(ln) => block_rows(block_below(cs, edit, ln), height - 1),
            None => Seq::empty(),
        };
        seq![VisualRowContent::CodeLine(i as usize)] + extra + layout_from(nums, i + 1, height - 1 - extra.len(), cs, edit)
    }
}

impl FileViewer {
    /// The row map of a content area `height` rows high, from the scroll
    /// offset on: every code row, each followed by the comment editor when it
    /// targets the row's file line (`edit`: its start and target lines) or
    /// else by the first comment ending there, two rows each (text and
    /// separator) as far as they fit.
    pub fn layout_rows(&self, height: usize, comments: &[(Comment, bool)], edit: Option<(usize, usize)>) -> (r: Vec<VisualRowContent>)
        ensures
            r@ == layout_from(row_line_numbers(*self), self.scroll_offset as int, height as int, comments@, edit),
    {
        let ghost nums = row_line_numbers(*self);
        let ghost goal = layout_from(nums, self.scroll_offset as int, height as int, comments@, edit);
        let n: usize = if self.diff.diff_mode {
            self.diff.diff_line_numbers.len()
        } else {
            match &self.content {
                ViewerContent::File { lines, .. } => lines.len(),
                _ => 0,
            }
        };
        let mut out: Vec<VisualRowContent> = Vec::new();
        let mut i: usize = self.scroll_offset;
        let mut rem: usize = height;
        assert(out@ + goal =~= goal);
        while i < n && rem > 0
            invariant
                nums == row_line_numbers(*self),
                n == nums.len(),
                goal == layout_from(nums, self.scroll_offset as int, height as int, comments@, edit),
                out@ + layout_from(nums, i as int, rem as int, comments@, edit) == goal,
            decreases n - i,
        {
            let ln: Option<usize> = if self.diff.diff_mode {
                self.diff.diff_line_numbers[i]
            } else {
                Some(i + 1)
            };
            assert(ln == nums[i as int]);
            let ghost before = out@;
            out.push(VisualRowContent::CodeLine(i));
            let mut extra: usize = 0;
            if let Some(line) = ln {
                let block = match edit {
                    Some((s, t)) => if t == line { Some((s, t)) } else { comment_at_end_line(comments, line) },
                    None => comment_at_end_line(comments, line),
                };
                if let Some((s, e)) = block {
                    let room = rem - 1;
                    extra = if room < 2 { room } else { 2 };
                    let mut k: usize = 0;
                    while k < extra
                        invariant
                            k <= extra,
                            out@ == before.push(VisualRowContent::CodeLine(i)) + Seq::new(k as nat, |j: int| VisualRowContent::CommentRow(s, e)),
                        decreases extra - k,
                    {
                        out.push(VisualRowContent::CommentRow(s, e));
                        k = k + 1;
                        assert(out@ =~= before.push(VisualRowContent::CodeLine(i)) + Seq::new(k as nat, |j: int| VisualRowContent::CommentRow(s, e)));
                    }
                    proof {
                        assert(block_rows(block_below(comments@, edit, line), rem - 1) =~= Seq::new(extra as nat, |j: int| VisualRowContent::CommentRow(s, e)));
                    }
                } else {
                    assert(block_rows(block_below(comments@, edit, line), rem - 1) =~= Seq::<VisualRowContent>::empty());
                    assert(out@ =~= before.push(VisualRowContent::CodeLine(i)) + Seq::<VisualRowContent>::empty());
                }
            } else {
                assert(out@ =~= before.push(VisualRowContent::CodeLine(i)) + Seq::<VisualRowContent>::empty());
            }
            proof {
                let ex = match nums[i as int] {
                    Some(l) => block_rows(block_below(comments@, edit, l), rem - 1),
                    None => Seq::empty(),
                };
                assert(ex.len() == extra);
                assert(out@ == before.push(VisualRowContent::CodeLine(i)) + ex);
                let tail = layout_from(nums, i + 1, rem - 1 - extra, comments@, edit);
                assert(layout_from(nums, i as int, rem as int, comments@, edit) == seq![VisualRowContent::CodeLine(i)] + ex + tail);
                assert(out@ + tail =~= before + (seq![VisualRowContent::CodeLine(i)] + ex + tail));
            }
            rem = rem - 1 - extra;
            i = i + 1;
        }
        assert(layout_from(nums, i as int, rem as int, comments@, edit) =~= Seq::<VisualRowContent>::empty());
        assert(out@ =~= out@ + Seq::<VisualRowContent>::empty());
        out
    }
}

/// The columns `[start, end)` of a line of `len` characters that the
/// character selection `r` covers on file line `ln`, if it reaches the line.
pub open spec fn selected_columns(r: CharSelectRange, ln: usize, len: usize) -> Option<(usize, usize)> {
    if ln < r.start_line || ln > r.end_line {
        None
    } else if r.start_line == r.end_line {
        Some((r.start_col, if r.end_col <= len { r.end_col } else { len }))
    } else if ln == r.start_line {
        Some((r.start_col, len))
    } else if ln == r.end_line {
        Some((0, if r.end_col <= len { r.end_col } else { len }))
    } else {
        Some((0, len))
    }
}

impl CharSelectRange {
    /// The columns of file line `line_num` (of `line_len` characters) that
    /// the selection covers: from the start column on the first line, up to
    /// the end column (at most the line's length) on the last, the whole of
    /// the lines between.
    pub fn columns_on(&self, line_num: usize, line_len: usize) -> (r: Option<(usize, usize)>)
        ensures
            r == selected_columns(*self, line_num, line_len),
    {
        if line_num < self.start_line || line_num > self.end_line {
            None
        } else {
            let end = if self.end_col <= line_len { self.end_col } else { line_len };
            if self.start_line == self.end_line {
                Some((self.start_col, end))
            } else if line_num == self.start_line {
                Some((self.start_col, line_len))
            } else if line_num == self.end_line {
                Some((0, end))
            } else {
                Some((0, line_len))
            }
        }
    }
}

/// The background a code line is shown on.
#[derive(Debug, Clone, Copy, PartialEq, Eq, Structural)]
pub enum LineShade {
    /// No background of its own.
    Plain,
    /// Inside the line selection.
    LineSelected,
    /// Inside the range of a stale comment.
    StaleComment,
    /// Inside the range of a comment.
    CommentRange,
}

/// Whether the first comment whose range holds line `ln` is stale, if any
/// comment's range holds it.
pub open spec fn covering_stale(cs: Seq<(Comment, bool)>, ln: usize) -> Option<bool>
    decreases cs.len(),
{
    if cs.len() == 0 {
        None
    } else if cs[0].0.start_line <= ln <= cs[0].0.end_line {
        Some(cs[0].1)
    } else {
        covering_stale(cs.drop_first(), ln)
    }
}

/// The background of file line `ln`: none under a character selection, else
/// the line selection, else the range of the first comment holding the line
/// (stale or not).
pub open spec fn shade_of(ln: usize, line_select: Option<(usize, usize)>, cs: Seq<(Comment, bool)>, char_selected: bool) -> LineShade {
    if char_selected {
        LineShade::Plain
    } else if line_select matches Some((s, e)) && s <= ln <= e {
        LineShade::LineSelected
    } else {
        match covering_stale(cs, ln) {
            Some(true) => LineShade::StaleComment,
            Some(false) => LineShade::CommentRange,
            None => LineShade::Plain,
        }
    }
}

/// The background of file line `line_num`, given the line selection, the
/// file's comments and whether a character selection reaches the line.
pub fn line_shade(line_num: usize, line_select: Option<(usize, usize)>, comments: &[(Comment, bool)], char_selected: bool) -> (r: LineShade)
    ensures
        r == shade_of(line_num, line_select, comments@, char_selected),
{
    if char_selected {
        return LineShade::Plain;
    }
    if let Some((s, e)) = line_select {
        if s <= line_num && line_num <= e {
            return LineShade::LineSelected;
        }
    }
    let mut i: usize = 0;
    assert(comments@.skip(0) =~= comments@);
    while i < comments.len()
        invariant
            i <= comments@.len(),
            !char_selected,
            !(line_select matches Some((s, e)) && s <= line_num <= e),
            covering_stale(comments@, line_num) == covering_stale(comments@.skip(i as int), line_num),
        decreases comments.len() - i,
    {
        proof {
            assert(comments@.skip(i as int).drop_first() =~= comments@.skip(i as int + 1));
            assert(comments@.skip(i as int)[0] == comments@[i as int]);
        }
        if comments[i].0.start_line <= line_num && line_num <= comments[i].0.end_line {
            return if comments[i].1 { LineShade::StaleComment } else { LineShade::CommentRange };
        }
        i = i + 1;
    }
    LineShade::Plain
}

/// `L<start>` for a single line, `L<start>-<end>` for a range.
pub open spec fn range_label(start: usize, end: usize) -> Seq<char> {
    "L"@ + decimal(start as nat) + if start == end { Seq::empty() } else { "-"@ + decimal(end as nat) }
}

/// Builds [`range_label`].
pub fn range_label_string(start: usize, end: usize) -> (r: String)
    ensures
        r@ == range_label(start, end),
{
    let mut r = to_owned_string("L");
    push_str(&mut r, decimal_string(start).as_str());
    if start != end {
        push_str(&mut r, "-");
        push_str(&mut r, decimal_string(end).as_str());
    }
    proof {
        assert(r@ =~= range_label(start, end));
    }
    r
}

/// The text row of an inline comment: a warning sign when it is stale (a
/// speech balloon otherwise), its range and its text.
pub open spec fn comment_block_row(start: usize, end: usize, text: Seq<char>, stale: bool) -> Seq<char> {
    "  "@ + (if stale { "\u{26a0}\u{fe0f}"@ } else { "\u{1f4ac}"@ }) + " "@ + range_label(start, end) + ": "@ + text
}

/// The text row of the inline comment `c`.
pub fn comment_block_text(c: &Comment, stale: bool) -> (r: String)
    ensures
        r@ == comment_block_row(c.start_line, c.end_line, c.text@, stale),
{
    let mut r = to_owned_string("  ");
    if stale {
        push_str(&mut r, "\u{26a0}\u{fe0f}");
    } else {
        push_str(&mut r, "\u{1f4ac}");
    }
    push_str(&mut r, " ");
    push_str(&mut r, range_label_string(c.start_line, c.end_line).as_str());
    push_str(&mut r, ": ");
    push_str(&mut r, c.text.as_str());
    r
}

/// The prefix of the comment editor's row: a pencil and the range.
pub open spec fn editor_prefix(start: usize, target: usize) -> Seq<char> {
    "  \u{270f}\u{fe0f} "@ + range_label(start, target) + ": "@
}

/// The row of the comment editor in a content area `width` columns wide:
/// the prefix, the end of the text that fits before the cursor block (all
/// of it when it fits), and the cursor block.
pub open spec fn editor_row(start: usize, target: usize, text: Seq<char>, width: int) -> Seq<char> {
    let room = if width >= editor_prefix(start, target).len() + 1 { width - (editor_prefix(start, target).len() + 1) } else { 0 };
    editor_prefix(start, target) + (if text.len() > room { text.skip(text.len() - room) } else { text }) + "\u{2588}"@
}

/// The row of the comment editor `edit` in a content area `width` columns
/// wide (see [`editor_row`]).
pub fn editor_row_text(edit: &CommentEditState, width: usize) -> (r: String)
    ensures
        r@ == editor_row(edit.start_line, edit.target_line, edit.text@, width as int),
{
    let mut r = to_owned_string("  \u{270f}\u{fe0f} ");
    push_str(&mut r, range_label_string(edit.start_line, edit.target_line).as_str());
    push_str(&mut r, ": ");
    let used = chars_of(r.as_str()).len();
    let room: usize = if used < width { width - used - 1 } else { 0 };
    let cs = chars_of(edit.text.as_str());
    proof {
        assert(r@ =~= editor_prefix(edit.start_line, edit.target_line));
    }
    let ghost prefix = r@;
    if cs.len() > room {
        push_str(&mut r, crate::text::string_from_char_range(&cs, cs.len() - room, cs.len()).as_str());
        proof {
            assert(cs@.subrange(cs@.len() - room, cs@.len() as int) =~= edit.text@.skip(edit.text@.len() - room));
        }
    } else {
        push_str(&mut r, edit.text.as_str());
    }
    push_str(&mut r, "\u{2588}");
    r
}

/// The cursor sits on a row of the view (on the first row of an empty one).
pub open spec fn cursor_in_rows(v: FileViewer) -> bool {
    v.cursor_line < total_rows(v) || (total_rows(v) == 0 && v.cursor_line == 0)
}

/// Moving the cursor down or up keeps it on a row, and leaves the scroll
/// offset where the cursor row is in view.
pub proof fn law_cursor_moves_stay_in_view(v: FileViewer, cs: Seq<(Comment, bool)>)
    requires
        cursor_in_rows(v),
    ensures
        cursor_in_rows(moved_down(v, cs)),
        cursor_in_rows(moved_up(v, cs)),
        v.visible_height > 0 ==> moved_down(v, cs).scroll_offset <= moved_down(v, cs).cursor_line
            < moved_down(v, cs).scroll_offset + v.visible_height,
        v.visible_height > 0 ==> moved_up(v, cs).scroll_offset <= moved_up(v, cs).cursor_line
            < moved_up(v, cs).scroll_offset + v.visible_height,
{
}

/// With no comments in the way, moving down and then up comes back to the
/// starting row, unless the cursor was on the last row.
pub proof fn law_down_then_up_returns(v: FileViewer)
    requires
        cursor_in_rows(v),
        v.cursor_on_comment is None,
        v.cursor_line + 1 < total_rows(v),
        v.cursor_line < usize::MAX,
    ensures
        moved_up(moved_down(v, Seq::empty()), Seq::empty()).cursor_line == v.cursor_line,
        moved_up(moved_down(v, Seq::empty()), Seq::empty()).cursor_on_comment is None,
{
    let e = Seq::<(Comment, bool)>::empty();
    assert(forall|ln: usize| #[trigger] comment_ending_at(e, ln) is None);
    let d = moved_down(v, e);
    assert(d.cursor_line == v.cursor_line + 1 && d.cursor_on_comment is None) by {
        let cur = v.cursor_line as int;
        match file_line_of_row(v, cur) {
            Some(ln) => assert(comment_ending_at(e, ln) is None),
            None => {},
        }
    }
    assert(total_rows(d) == total_rows(v));
    let cur = d.cursor_line as int;
    let check = if d.diff.diff_mode { file_line_of_row(d, cur - 1) } else { Some(cur as usize) };
    match check {
        Some(ln) => assert(comment_ending_at(e, ln) is None),
        None => {},
    }
}

/// The first row showing a line is the row found for that line when the
/// line numbers grow down the rows.
proof fn lemma_row_for_shown_line(nums: Seq<Option<usize>>, i: int)
    requires
        crate::file_viewer::diff_state::ascending(nums),
        0 <= i < nums.len(),
        nums[i] is Some,
    ensures
        row_for_line(nums, nums[i]->0) == i,
{
    let fl = nums[i]->0;
    assert(closest_row(nums, fl, i)) by {
        assert forall|j: int| 0 <= j < i && nums[j] is Some implies
            crate::file_viewer::diff_state::line_dist(nums[j]->0, fl) > crate::file_viewer::diff_state::line_dist(nums[i]->0, fl) by {
            assert(nums[j]->0 < nums[i]->0);
        }
    }
    let r = row_for_line(nums, fl);
    assert(closest_row(nums, fl, r));
    crate::file_viewer::diff_state::law_row_of_shown_line(nums, i, r);
}

/// Leaving diff mode and entering it again puts the cursor back on the diff
/// row it was on, when that row shows a line of the file and the diff's
/// hunks come in order (its line numbers grow down the rows).
pub proof fn law_diff_toggle_round_trip(v: FileViewer, w: FileViewer, x: FileViewer)
    requires
        v.diff.diff_mode,
        v.diff.unified_diff is Some,
        v.diff.diff_line_numbers@ == crate::file_viewer::diff_state::line_numbers(v.diff.unified_diff->0.lines@),
        crate::file_viewer::diff_state::ascending(v.diff.diff_line_numbers@),
        v.cursor_line < v.diff.diff_line_numbers@.len(),
        v.diff.diff_line_numbers@[v.cursor_line as int] is Some,
        1 <= v.diff.diff_line_numbers@[v.cursor_line as int]->0 <= file_lines(v.content).len(),
        diff_toggled(v, w),
        diff_toggled(w, x),
    ensures
        x.diff.diff_mode,
        x.cursor_line == v.cursor_line,
{
    let lines = v.diff.unified_diff->0.lines@;
    let nums = crate::file_viewer::diff_state::line_numbers(lines);
    crate::file_viewer::diff_state::lemma_line_numbers_len(lines);
    let fl = nums[v.cursor_line as int]->0;
    assert(!w.diff.diff_mode);
    assert(w.cursor_line == fl - 1);
    assert(w.diff.unified_diff == v.diff.unified_diff);
    lemma_row_for_shown_line(nums, v.cursor_line as int);
}

} // verus!
