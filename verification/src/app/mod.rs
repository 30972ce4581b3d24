//! The application state and its decisions: what each action, key and mouse
//! event does to the panes, and what outside work (reading files, the
//! clipboard, the browser, background searches) must follow.
pub mod comment_ops;
pub mod event_loop;

pub mod mouse;

use vstd::prelude::*;
use crate::comments::{Comment, CommentListEntry, CommentStore, sorted_files, context_numbers_fit};
use crate::components::Action;
use crate::file_tree::{FileTree, ContentSearchState, first_selectable, comment_headers};
use crate::file_viewer::{FileViewer, file_line_of_row, cursor_shown, moved_down, moved_up, row_text, total_rows};
use crate::file_viewer::content::ViewerContent;
use crate::startup::StartupTarget;
use crate::text::{to_owned_string, str_eq, chars_of, push_str};
use crate::file_viewer::{range_label, range_label_string};
use crate::tree::{lowercase, to_lowercase, views, index_of_path, occurs_at_exec};
use comment_ops::{char_bounds, cursor_or, ordered, build_comment_list_entries, comment_list, entry_view, viewed_file, comment_to_start, input_matches,
    deleted_at_cursor, delete_comment_at_cursor, start_comment, expected_comments, comments_for_moves};

verus! {

/// Default tree pane width as percentage of terminal width.
pub const DEFAULT_TREE_WIDTH_PERCENT: u16 = 30;

/// The most content-search matches a background search collects.
pub const CONTENT_SEARCH_MAX_MATCHES: usize = 1000;

/// Which pane has keyboard focus.
#[derive(Debug, Clone, Copy, PartialEq, Eq, Structural)]
pub enum Focus {
    Tree,
    Viewer,
}

/// Active input mode for the application.
#[derive(Debug, PartialEq)]
pub enum InputMode {
    /// Normal navigation mode.
    Normal,
    /// Typing a comment on `file`, lines `start_line..=end_line`; `previous`
    /// holds the selection mode to restore on Esc.
    CommentInput {
        file: String,
        start_line: usize,
        end_line: usize,
        text: String,
        previous: Option<Box<InputMode>>,
    },
    /// Visual line-select mode: file path and anchor line (1-indexed).
    LineSelect { file: String, anchor: usize },
    /// Character-level selection mode (mouse drag): file path, anchor line
    /// (1-indexed) and anchor column (0-indexed character offset).
    CharSelect { file: String, anchor_line: usize, anchor_col: usize },
}

/// How a flash message is shown: as a success, a notice or a failure.
#[derive(Debug, Clone, Copy, PartialEq, Eq, Structural)]
pub enum FlashKind {
    Success,
    Notice,
    Failure,
}

/// A temporary message for the hint bar (the shell dismisses it after a while).
#[derive(Debug)]
pub struct FlashMessage {
    pub text: String,
    pub kind: FlashKind,
}

/// Outside work that must follow a decision of the application.
#[derive(Debug, PartialEq)]
pub enum Effect {
    /// Nothing to do.
    Nothing,
    /// Leave the application.
    Quit,
    /// Read `path` and its diff into the viewer (see [`App::file_loaded`]);
    /// then put the cursor on 1-indexed line `scroll_to` if given.
    LoadFile { path: String, scroll_to: Option<usize> },
    /// Open the bug report page in a browser (see [`App::browser_opened`]).
    OpenBugReport,
    /// Copy a selection to the clipboard (see [`App::yanked`]).
    Yank(String),
    /// Copy the export of `count` comments to the clipboard (see [`App::exported`]).
    Export { text: String, count: usize },
    /// Start a background content search for `query`.
    StartContentSearch { query: String, max_matches: usize },
    /// Drop the running content search.
    StopContentSearch,
    /// Scan the selected directory and toggle its expansion.
    ToggleExpandSelected,
}

/// The application: both panes, the comments, the input mode and the layout.
pub struct App {
    pub file_tree: FileTree,
    pub file_viewer: FileViewer,
    pub focus: Focus,
    /// Git repository work directory (None outside a repository).
    pub git_workdir: Option<String>,
    /// Root directory being browsed.
    pub target_dir: String,
    /// Comments of this session.
    pub comment_store: CommentStore,
    pub input_mode: InputMode,
    /// Tree pane width as percentage of terminal width.
    pub tree_width_percent: u16,
    /// Whether the pane border is being dragged.
    pub resizing: bool,
    /// Right-edge column of the tree pane at the last draw.
    pub border_column: u16,
    /// Whether focus mode is on (tree hidden, viewer full width).
    pub focus_mode: bool,
    /// Tree width to restore when leaving focus mode.
    pub saved_tree_width_percent: u16,
    /// Top row of the tree pane's inner area at the last draw.
    pub tree_inner_y: u16,
    /// Whether the help dialog is shown.
    pub show_help: bool,
    pub flash_message: Option<FlashMessage>,
}

/// What a frame shows besides the panes' own state.
pub struct RenderData {
    /// Comments of the viewed file, each with whether it is stale.
    pub viewer_comments: Vec<(Comment, bool)>,
    /// The comment being typed, if any.
    pub comment_edit: Option<crate::file_viewer::CommentEditState>,
    /// Selected lines `(start, end)`, 1-indexed, in line select or while typing a comment.
    pub line_select_range: Option<(usize, usize)>,
    /// The character selection, if any.
    pub char_select_range: Option<crate::file_viewer::CharSelectRange>,
    /// Files that have at least one comment.
    pub commented_files: Vec<String>,
    /// Search matches in the viewer: (row, start column, end column).
    pub search_matches: Vec<(usize, usize, usize)>,
    /// Index of the current search match.
    pub search_current: Option<usize>,
}

/// The path of a file's content.
pub open spec fn content_file(c: ViewerContent) -> Option<Seq<char>> {
    match c {
        ViewerContent::File { path, .. } => Some(path@),
        _ => None,
    }
}

/// The other pane.
pub open spec fn other_focus(f: Focus) -> Focus {
    match f {
        Focus::Tree => Focus::Viewer,
        Focus::Viewer => Focus::Tree,
    }
}

/// The viewer after putting the cursor on 1-indexed `line` and scrolling it into view.
pub open spec fn at_line(v: FileViewer, line: usize) -> FileViewer {
    cursor_shown(FileViewer {
        cursor_line: crate::file_tree::sat_sub(line as int, 1) as usize,
        cursor_on_comment: None,
        ..v
    })
}

/// `e` asks to load `path` and then go to `scroll_to`.
pub open spec fn loads(e: Effect, path: Seq<char>, scroll_to: Option<usize>) -> bool {
    e matches Effect::LoadFile { path: p, scroll_to: s } && p@ == path && s == scroll_to
}

/// `a` is `b` with only the file tree and the comments possibly changed.
pub open spec fn same_but_tree_store(a: App, b: App) -> bool {
    App { file_tree: b.file_tree, comment_store: b.comment_store, ..a } == b
}

/// `a` is `b` with only the viewer and the comments possibly changed.
pub open spec fn same_but_viewer_store_tree(a: App, b: App) -> bool {
    App { file_viewer: b.file_viewer, comment_store: b.comment_store, file_tree: b.file_tree, ..a } == b
}

/// The comment list of the comments `cs`, as views (see [`comment_list`]).
pub open spec fn list_of(cs: Seq<Comment>, root: Seq<char>) -> Seq<(bool, Seq<char>, Seq<char>, usize, usize)> {
    comment_list(cs, sorted_files(cs), root)
}

/// `at` is tree `bt` showing a fresh comment list of `cs` (first comment selected).
pub open spec fn showing_list(bt: FileTree, cs: Seq<Comment>, root: Seq<char>, at: FileTree) -> bool {
    &&& at.comment_list matches Some(cl)
    &&& cl.entries@.map_values(|e: CommentListEntry| entry_view(e)) == list_of(cs, root)
    &&& cl.selected == first_selectable(comment_headers(cl.entries@))
    &&& cl.scroll_offset == 0
    &&& at == FileTree { comment_list: at.comment_list, ..bt }
}

/// `at` is `bt` after rebuilding an open comment list from `cs`: it closes
/// when no comment is left.
pub open spec fn list_refreshed(bt: FileTree, cs: Seq<Comment>, root: Seq<char>, at: FileTree) -> bool {
    if bt.comment_list is None {
        at == bt
    } else if list_of(cs, root).len() == 0 {
        at == FileTree { comment_list: None, ..bt }
    } else {
        showing_list(bt, cs, root, at)
    }
}

/// `a` and `e` are the application and the effect after going to 1-indexed
/// `line` of `file` from `b`, focusing the viewer if `switch`: the file is
/// loaded first unless the viewer shows it already.
pub open spec fn navigated(b: App, file: Seq<char>, line: usize, switch: bool, a: App, e: Effect) -> bool {
    let focus = if switch { Focus::Viewer } else { b.focus };
    if viewed_file(b.file_viewer) == Some(file) {
        a == App { focus, file_viewer: at_line(b.file_viewer, line), ..b } && e is Nothing
    } else {
        a == App { focus, ..b } && loads(e, file, Some(line))
    }
}

/// The export of the comments, or a notice when there is none.
pub open spec fn exported_or_notice(b: App, a: App, e: Effect) -> bool {
    if crate::comments::export_text(b.comment_store@).len() == 0 {
        &&& e is Nothing
        &&& a.flash_message matches Some(m) && m.text@ == "No comments to export"@ && m.kind == FlashKind::Notice
        &&& a == App { flash_message: a.flash_message, ..b }
    } else {
        &&& e matches Effect::Export { text, count } && text@ == crate::comments::export_text(b.comment_store@)
            && count == b.comment_store@.len()
        &&& a == b
    }
}

/// The query that a content search runs on when it is long enough (two
/// bytes of UTF-8 or more).
pub open spec fn long_query(q: Seq<char>) -> bool {
    vstd::utf8::encode_utf8(q).len() as usize >= 2
}

/// What asking for a content search does: with a long enough query, mark the
/// search running and start it; else clear the results and stop it.
pub open spec fn content_search_requested(b: App, a: App, e: Effect) -> bool {
    match b.file_tree.content_search {
        None => a == b && e is Nothing,
        Some(cs) => if long_query(cs.query@) {
            &&& a == App { file_tree: FileTree { content_search: Some(ContentSearchState { searching: true, ..cs }), ..b.file_tree }, ..b }
            &&& e matches Effect::StartContentSearch { query, max_matches } && query@ == cs.query@
                && max_matches == CONTENT_SEARCH_MAX_MATCHES
        } else {
            &&& a.file_tree.content_search matches Some(c2) && c2.entries@.len() == 0
                && c2 == ContentSearchState { entries: c2.entries, match_count: 0, searching: false, ..cs }
            &&& a == App { file_tree: FileTree { content_search: a.file_tree.content_search, ..b.file_tree }, ..b }
            &&& e is StopContentSearch
        },
    }
}

/// `a` and `e` are the application and the effect after action `act` in `b`.
pub open spec fn action_handled(b: App, act: Action, a: App, e: Effect) -> bool {
    match act {
        Action::NoAction => a == b && e is Nothing,
        Action::Quit => a == b && e is Quit,
        Action::SwitchFocus => a == App { focus: other_focus(b.focus), ..b } && e is Nothing,
        Action::FileSelected(p) => a == b && loads(e, p@, None),
        Action::FileOpened(p) => a == App { focus: Focus::Viewer, ..b } && loads(e, p@, None),
        Action::StartComment => e is Nothing && match comment_to_start(b.file_viewer, b.comment_store@) {
            None => a == b,
            Some((f, s, t, x)) => input_matches(a.input_mode, f, s, t, x) && a == App { input_mode: a.input_mode, ..b },
        },
        Action::StartLineSelect => e is Nothing && match viewed_file(b.file_viewer) {
            Some(f) => match file_line_of_row(b.file_viewer, b.file_viewer.cursor_line as int) {
                Some(l) => a.input_mode matches InputMode::LineSelect { file, anchor } && file@ == f && anchor == l
                    && a == App { input_mode: a.input_mode, ..b },
                None => a == b,
            },
            None => a == b,
        },
        Action::DeleteComment => e is Nothing && exists|v: FileViewer| deleted_at_cursor(b.file_viewer, b.comment_store@, v, a.comment_store@)
            && list_refreshed(b.file_tree, a.comment_store@, b.target_dir@, a.file_tree)
            && a == App { file_viewer: v, file_tree: a.file_tree, comment_store: a.comment_store, ..b },
        Action::DeleteCommentAt { file, start_line, end_line } => e is Nothing
            && a.comment_store@ == b.comment_store@.filter(crate::comments::off_range(file@, start_line, end_line))
            && list_refreshed(b.file_tree, a.comment_store@, b.target_dir@, a.file_tree)
            && same_but_tree_store(a, b),
        Action::ExportComments => exported_or_notice(b, a, e),
        Action::BugReport => a == b && e is OpenBugReport,
        Action::EnterCommentList => if list_of(b.comment_store@, b.target_dir@).len() == 0 {
            a == b && e is Nothing
        } else {
            &&& showing_list(b.file_tree, b.comment_store@, b.target_dir@, a.file_tree)
            &&& a == App { file_tree: a.file_tree, ..b }
            &&& match crate::file_tree::selected_list_comment(a.file_tree.comment_list->0) {
                Some(CommentListEntry::Comment { file, start_line, .. }) => loads(e, file@, Some(start_line)),
                _ => e is Nothing,
            }
        },
        Action::CommentFocused { file, line } => navigated(b, file@, line, false, a, e),
        Action::CommentJumped { file, line } => navigated(b, file@, line, true, a, e),
        Action::CursorDown => e is Nothing
            && a == App { file_viewer: moved_down(b.file_viewer, expected_comments(b.comment_store@, b.file_viewer)), ..b },
        Action::CursorUp => e is Nothing
            && a == App { file_viewer: moved_up(b.file_viewer, expected_comments(b.comment_store@, b.file_viewer)), ..b },
        Action::ContentSearchRequested => content_search_requested(b, a, e),
    }
}

/// The machine limits the actions work within: the viewer's cursor and
/// scrolling stay below the largest `usize`, and line numbers of the
/// comments' context fit the export.
pub open spec fn action_fits(app: App) -> bool {
    &&& app.file_viewer.scroll_offset + app.file_viewer.visible_height <= usize::MAX
    &&& app.file_viewer.cursor_line + 1 < usize::MAX
    &&& forall|i: int| 0 <= i < app.comment_store@.len() ==> context_numbers_fit(#[trigger] app.comment_store@[i])
}

/// The tree `at` after `bt` selects the startup file `f`, when it is listed.
pub open spec fn startup_selected(bt: FileTree, f: Seq<char>, at: FileTree) -> bool {
    let i = index_of_path(views(bt.model.entries@), f);
    if i >= 0 {
        at == FileTree { model: crate::tree::FileTreeModel { selected: i as usize, ..bt.model }, ..bt }
    } else {
        at == bt
    }
}

/// The matches of `q` in row text `l` (row `row`) that start before `upto`,
/// as (row, start column, end column).
pub open spec fn line_highlights(row: int, l: Seq<char>, q: Seq<char>, upto: int) -> Seq<(usize, usize, usize)>
    decreases upto,
{
    if upto <= 0 {
        Seq::empty()
    } else {
        let prev = line_highlights(row, l, q, upto - 1);
        let s = upto - 1;
        if crate::tree::occurs_at(l, q, s) {
            prev.push((row as usize, s as usize, (s + q.len()) as usize))
        } else {
            prev
        }
    }
}

/// The lowercased text of viewer row `i` (of the empty text past the rows).
pub open spec fn row_lower(v: FileViewer, i: int) -> Seq<char> {
    lowercase(match row_text(v, i) {
        Some(t) => t,
        None => Seq::empty(),
    })
}

/// The matches of `q` in the first `n` rows of viewer `v`, ignoring case.
pub open spec fn rows_highlights(v: FileViewer, q: Seq<char>, n: int) -> Seq<(usize, usize, usize)>
    decreases n,
{
    if n <= 0 {
        Seq::empty()
    } else {
        let l = row_lower(v, n - 1);
        rows_highlights(v, q, n - 1) + if l.len() < q.len() {
            Seq::empty()
        } else {
            line_highlights(n - 1, l, q, l.len() - q.len() + 1)
        }
    }
}

/// Where the content search query `query` occurs in the rows the viewer
/// shows, ignoring case: every (row, start, end) in character columns of the
/// lowercased row, by row then start.
pub open spec fn content_highlights(v: FileViewer, query: Seq<char>) -> Seq<(usize, usize, usize)> {
    if total_rows(v) == 0 || query.len() == 0 {
        Seq::empty()
    } else {
        rows_highlights(v, lowercase(query), total_rows(v))
    }
}

impl App {
    /// The application at startup over `file_tree` (the scan of
    /// `target.dir`), with the viewer empty; the effect loads the file to
    /// show: the startup file (selected in the tree when listed), else the
    /// first entry when it is a file.
    pub fn new(target: &StartupTarget, git_workdir: Option<String>, file_tree: FileTree) -> (r: (App, Effect))
        ensures
            r.0.focus == Focus::Tree,
            r.0.git_workdir == git_workdir,
            r.0.target_dir@ == target.dir@,
            r.0.comment_store@.len() == 0,
            r.0.input_mode == InputMode::Normal,
            r.0.tree_width_percent == DEFAULT_TREE_WIDTH_PERCENT,
            r.0.saved_tree_width_percent == DEFAULT_TREE_WIDTH_PERCENT,
            !r.0.resizing && !r.0.focus_mode && !r.0.show_help,
            r.0.border_column == 0 && r.0.tree_inner_y == 0,
            r.0.flash_message is None,
            crate::file_viewer::fresh_viewer(r.0.file_viewer),
            match target.selected_file {
                Some(f) => startup_selected(file_tree, f@, r.0.file_tree) && loads(r.1, f@, None),
                None => r.0.file_tree == file_tree && if file_tree.model.selected < file_tree.model.entries@.len()
                    && !file_tree.model.entries@[file_tree.model.selected as int].is_directory {
                    loads(r.1, file_tree.model.entries@[file_tree.model.selected as int].path@, None)
                } else {
                    r.1 is Nothing
                },
            },
    {
        let mut file_tree = file_tree;
        let effect = match &target.selected_file {
            Some(f) => {
                let idx = find_entry(&file_tree.model.entries, f.as_str());
                if let Some(i) = idx {
                    file_tree.model.selected = i;
                }
                Effect::LoadFile { path: f.clone(), scroll_to: None }
            },
            None => match file_tree.model.selected_entry() {
                Some(e) => if !e.is_directory {
                    Effect::LoadFile { path: e.path.clone(), scroll_to: None }
                } else {
                    Effect::Nothing
                },
                None => Effect::Nothing,
            },
        };
        let app = App {
            file_tree,
            file_viewer: FileViewer::new(),
            focus: Focus::Tree,
            git_workdir,
            target_dir: target.dir.clone(),
            comment_store: CommentStore::new(),
            input_mode: InputMode::Normal,
            tree_width_percent: DEFAULT_TREE_WIDTH_PERCENT,
            resizing: false,
            border_column: 0,
            focus_mode: false,
            saved_tree_width_percent: DEFAULT_TREE_WIDTH_PERCENT,
            tree_inner_y: 0,
            show_help: false,
            flash_message: None,
        };
        (app, effect)
    }

    /// Show a file that was read for an [`Effect::LoadFile`]: its content,
    /// its diff against HEAD (set only inside a repository: `None` when the
    /// file has none), then line `scroll_to` if given.
    pub fn file_loaded(&mut self, content: ViewerContent, diff: Option<(crate::diff::LineDiff, crate::diff::UnifiedDiff)>, scroll_to: Option<usize>)
        ensures
            final(self).file_viewer.content == content,
            final(self).file_viewer.cursor_col is None,
            final(self).file_viewer.h_scroll == 0,
            final(self).file_viewer.cursor_on_comment is None,
            !final(self).file_viewer.diff.diff_mode,
            match scroll_to {
                None => final(self).file_viewer.cursor_line == 0 && final(self).file_viewer.scroll_offset == 0,
                Some(l) => final(self).file_viewer.cursor_line == crate::file_tree::sat_sub(l as int, 1)
                    && final(self).file_viewer.scroll_offset == crate::file_viewer::cursor_offset(0, crate::file_tree::sat_sub(l as int, 1),
                        old(self).file_viewer.visible_height as int),
            },
            old(self).git_workdir is None ==> final(self).file_viewer.diff.line_diff is None && final(self).file_viewer.diff.unified_diff is None,
            old(self).git_workdir is Some ==> match diff {
                Some((l, u)) => final(self).file_viewer.diff.line_diff == Some(l) && final(self).file_viewer.diff.unified_diff == Some(u),
                None => final(self).file_viewer.diff.line_diff is None && final(self).file_viewer.diff.unified_diff is None,
            },
            final(self).file_viewer.visible_height == old(self).file_viewer.visible_height,
            final(self).file_viewer.visible_content_width == old(self).file_viewer.visible_content_width,
            (App { file_viewer: old(self).file_viewer, ..*final(self) }) == *old(self),
    {
        self.file_viewer.load_file(content);
        if self.git_workdir.is_some() {
            match diff {
                Some((l, u)) => self.file_viewer.set_diff(Some(l), Some(u)),
                None => self.file_viewer.set_diff(None, None),
            }
        }
        if let Some(line) = scroll_to {
            self.file_viewer.scroll_to_line(line);
        }
    }

    /// Whether every comment with context has an ordered range whose length,
    /// with the line count of `content`, stays below the largest `usize`, as
    /// [`App::content_reloaded`] needs.
    pub fn reload_fits(&self, content: &ViewerContent) -> (r: bool)
        ensures
            r == forall|i: int| 0 <= i < self.comment_store@.len() && (#[trigger] self.comment_store@[i]).code_context@.len() > 0
                ==> self.comment_store@[i].start_line <= self.comment_store@[i].end_line
                    && self.comment_store@[i].end_line - self.comment_store@[i].start_line
                        + crate::file_viewer::file_lines(*content).len() < usize::MAX,
    {
        let n: usize = match content {
            ViewerContent::File { lines, .. } => lines.len(),
            _ => 0,
        };
        crate::comments::ranges_fit(&self.comment_store, n)
    }

    /// Take the new content of the viewed file after a change on disk:
    /// keep the cursor (clamped), move its comments to where their code is
    /// now, and set its new diff (inside a repository).
    pub fn content_reloaded(&mut self, content: ViewerContent, diff: Option<(crate::diff::LineDiff, crate::diff::UnifiedDiff)>)
        requires
            forall|i: int| 0 <= i < old(self).comment_store@.len() && (#[trigger] old(self).comment_store@[i]).code_context@.len() > 0
                ==> old(self).comment_store@[i].start_line <= old(self).comment_store@[i].end_line
                    && old(self).comment_store@[i].end_line - old(self).comment_store@[i].start_line
                        + crate::file_viewer::file_lines(content).len() < usize::MAX,
        ensures
            old(self).file_viewer.content is File ==> final(self).file_viewer.content == content,
            !(old(self).file_viewer.content is File) ==> final(self).file_viewer == old(self).file_viewer
                && final(self).comment_store@ == old(self).comment_store@,
            old(self).file_viewer.content is File && content_file(content) is Some ==> {
                let f = content_file(content)->0;
                &&& final(self).comment_store@.len() == old(self).comment_store@.len()
                &&& forall|i: int| 0 <= i < old(self).comment_store@.len() ==> #[trigger] final(self).comment_store@[i]
                    == crate::comments::relocated(old(self).comment_store@[i], f, crate::comments::lines_view(crate::file_viewer::file_lines(content)))
            },
            old(self).file_viewer.content is File && content_file(content) is None ==> final(self).comment_store@ == old(self).comment_store@,
            old(self).file_viewer.content is File && content_file(content) is Some && old(self).git_workdir is Some ==> match diff {
                Some((l, u)) => final(self).file_viewer.diff.line_diff == Some(l) && final(self).file_viewer.diff.unified_diff == Some(u),
                None => final(self).file_viewer.diff.line_diff is None && final(self).file_viewer.diff.unified_diff is None,
            },
            same_but_viewer_store_tree(*final(self), *old(self)) && final(self).file_tree == old(self).file_tree,
    {
        if !self.file_viewer.reload_content(content) {
            return;
        }
        if let Some(path) = self.file_viewer.current_file() {
            let path = to_owned_string(path);
            let lines = self.file_viewer.current_lines();
            self.comment_store.relocate_comments(path.as_str(), lines);
            if self.git_workdir.is_some() {
                match diff {
                    Some((l, u)) => self.file_viewer.set_diff(Some(l), Some(u)),
                    None => self.file_viewer.set_diff(None, None),
                }
            }
        }
    }

    /// Rebuild the comment list if it is shown, closing it when no comment is left.
    pub fn refresh_comment_list(&mut self)
        ensures
            list_refreshed(old(self).file_tree, old(self).comment_store@, old(self).target_dir@, final(self).file_tree),
            *final(self) == (App { file_tree: final(self).file_tree, ..*old(self) }),
    {
        if self.file_tree.is_comment_list_mode() {
            let entries = build_comment_list_entries(&self.comment_store, self.target_dir.as_str());
            if entries.len() == 0 {
                self.file_tree.exit_comment_list();
            } else {
                self.file_tree.enter_comment_list(entries);
            }
        }
    }

    /// The hint bar text of the comment list, when it is shown.
    pub fn comment_list_hints(&self) -> (r: Option<String>)
        ensures
            self.file_tree.comment_list is None ==> r is None,
            self.file_tree.comment_list is Some ==> (r matches Some(t) && t@ == "j/k navigate  Enter jump  c/Esc back"@),
    {
        if self.file_tree.is_comment_list_mode() {
            Some(to_owned_string("j/k navigate  Enter jump  c/Esc back"))
        } else {
            None
        }
    }

    /// The comments of the viewed file, each with whether it is stale.
    pub fn viewer_comments(&self) -> (r: Vec<(Comment, bool)>)
        ensures
            r@.len() == expected_comments(self.comment_store@, self.file_viewer).len(),
            forall|i: int| 0 <= i < r@.len() ==> comment_ops::same_comment((#[trigger] r@[i]).0, expected_comments(self.comment_store@, self.file_viewer)[i].0)
                && r@[i].1 == expected_comments(self.comment_store@, self.file_viewer)[i].1,
    {
        comment_ops::viewer_comments(&self.comment_store, &self.file_viewer)
    }

    /// Load `path` into the viewer, focusing it if `switch_focus`.
    pub fn handle_file_action(&mut self, path: String, switch_focus: bool) -> (e: Effect)
        ensures
            *final(self) == (App { focus: if switch_focus { Focus::Viewer } else { old(self).focus }, ..*old(self) }),
            loads(e, path@, None),
    {
        if switch_focus {
            self.focus = Focus::Viewer;
        }
        Effect::LoadFile { path, scroll_to: None }
    }

    /// Go to 1-indexed `line` of `file`, loading it unless it is shown, and
    /// focus the viewer if `switch_focus`.
    pub fn navigate_to_file_line(&mut self, file: String, line: usize, switch_focus: bool) -> (e: Effect)
        requires
            old(self).file_viewer.scroll_offset + old(self).file_viewer.visible_height <= usize::MAX,
        ensures
            navigated(*old(self), file@, line, switch_focus, *final(self), e),
    {
        let same = match self.file_viewer.current_file() {
            Some(f) => str_eq(f, file.as_str()),
            None => false,
        };
        if switch_focus {
            self.focus = Focus::Viewer;
        }
        if same {
            self.file_viewer.scroll_to_line(line);
            Effect::Nothing
        } else {
            Effect::LoadFile { path: file, scroll_to: Some(line) }
        }
    }

    /// Export the comments (to be copied), or say that there are none.
    pub fn export_comments(&mut self) -> (e: Effect)
        requires
            forall|i: int| 0 <= i < old(self).comment_store@.len() ==> context_numbers_fit(#[trigger] old(self).comment_store@[i]),
        ensures
            exported_or_notice(*old(self), *final(self), e),
    {
        let text = self.comment_store.export();
        if text.as_str().is_empty() {
            self.flash_message = Some(FlashMessage { text: to_owned_string("No comments to export"), kind: FlashKind::Notice });
            Effect::Nothing
        } else {
            Effect::Export { text, count: self.comment_store.len() }
        }
    }

    /// Start or stop the content search for the current query.
    pub fn request_content_search(&mut self) -> (e: Effect)
        ensures
            content_search_requested(*old(self), *final(self), e),
    {
        match self.file_tree.content_search.take() {
            None => Effect::Nothing,
            Some(mut cs) => {
                let effect = if cs.query.as_str().len() >= 2 {
                    cs.searching = true;
                    Effect::StartContentSearch { query: cs.query.clone(), max_matches: CONTENT_SEARCH_MAX_MATCHES }
                } else {
                    cs.entries = Vec::new();
                    cs.match_count = 0;
                    cs.searching = false;
                    Effect::StopContentSearch
                };
                self.file_tree.content_search = Some(cs);
                effect
            },
        }
    }

    /// Open the comment list, previewing the first comment's file at its line.
    pub fn enter_comment_list(&mut self) -> (e: Effect)
        ensures
            action_handled(*old(self), Action::EnterCommentList, *final(self), e),
    {
        let entries = build_comment_list_entries(&self.comment_store, self.target_dir.as_str());
        if entries.len() == 0 {
            return Effect::Nothing;
        }
        self.file_tree.enter_comment_list(entries);
        match self.file_tree.selected_comment() {
            Some(CommentListEntry::Comment { file, start_line, .. }) => Effect::LoadFile { path: file.clone(), scroll_to: Some(*start_line) },
            _ => Effect::Nothing,
        }
    }

    /// Carry out an action of a pane; returns the outside work to follow.
    pub fn handle_action(&mut self, action: Action) -> (e: Effect)
        requires
            action_fits(*old(self)),
        ensures
            action_handled(*old(self), action, *final(self), e),
    {
        match action {
            Action::NoAction => Effect::Nothing,
            Action::Quit => Effect::Quit,
            Action::SwitchFocus => {
                self.focus = match self.focus {
                    Focus::Tree => Focus::Viewer,
                    Focus::Viewer => Focus::Tree,
                };
                Effect::Nothing
            },
            Action::FileSelected(path) => self.handle_file_action(path, false),
            Action::FileOpened(path) => self.handle_file_action(path, true),
            Action::StartComment => {
                if let Some(m) = start_comment(&self.file_viewer, &self.comment_store) {
                    self.input_mode = m;
                }
                Effect::Nothing
            },
            Action::StartLineSelect => {
                if let Some(file) = self.file_viewer.current_file() {
                    if let Some(line) = self.file_viewer.cursor_file_line() {
                        self.input_mode = InputMode::LineSelect { file: to_owned_string(file), anchor: line };
                    }
                }
                Effect::Nothing
            },
            Action::DeleteComment => {
                delete_comment_at_cursor(&mut self.file_viewer, &mut self.comment_store);
                self.refresh_comment_list();
                Effect::Nothing
            },
            Action::DeleteCommentAt { file, start_line, end_line } => {
                self.comment_store.delete(file.as_str(), start_line, end_line);
                self.refresh_comment_list();
                Effect::Nothing
            },
            Action::ExportComments => self.export_comments(),
            Action::BugReport => Effect::OpenBugReport,
            Action::EnterCommentList => self.enter_comment_list(),
            Action::CommentFocused { file, line } => self.navigate_to_file_line(file, line, false),
            Action::CommentJumped { file, line } => self.navigate_to_file_line(file, line, true),
            Action::CursorDown => {
                let cs = comments_for_moves(&self.comment_store, &self.file_viewer);
                self.file_viewer.cursor_down(&cs);
                Effect::Nothing
            },
            Action::CursorUp => {
                let cs = comments_for_moves(&self.comment_store, &self.file_viewer);
                self.file_viewer.cursor_up(&cs);
                Effect::Nothing
            },
            Action::ContentSearchRequested => self.request_content_search(),
        }
    }

    /// Where the content search query occurs in the viewed rows (see [`content_highlights`]).
    pub fn compute_content_search_highlights(&self, query: &str) -> (r: Vec<(usize, usize, usize)>)
        ensures
            r@ == content_highlights(self.file_viewer, query@),
    {
        let mut matches: Vec<(usize, usize, usize)> = Vec::new();
        let total = self.file_viewer.total_lines();
        if total == 0 || query.is_empty() {
            return matches;
        }
        let q = chars_of(to_lowercase(query).as_str());
        let qn = q.len();
        let ghost qs = lowercase(query@);
        let mut line_idx: usize = 0;
        while line_idx < total
            invariant
                total == total_rows(self.file_viewer),
                line_idx <= total,
                q@ == qs,
                qs == lowercase(query@),
                qn == q@.len(),
                matches@ == rows_highlights(self.file_viewer, qs, line_idx as int),
            decreases total - line_idx,
        {
            let text = match self.file_viewer.line_text(line_idx) {
                Some(t) => t,
                None => {
                    proof { reveal_strlit(""); }
                    ""
                },
            };
            let lc = chars_of(to_lowercase(text).as_str());
            proof {
                assert(lc@ == row_lower(self.file_viewer, line_idx as int));
            }
            if lc.len() >= qn {
                let n = lc.len();
                let last = n - qn;
                let ghost before = matches@;
                let mut start: usize = 0;
                let mut done = false;
                while !done
                    invariant
                        last + qn == lc@.len(),
                        last + qn <= usize::MAX,
                        qn == q@.len(),
                        start <= last,
                        line_idx < total,
                        !done ==> matches@ == before + line_highlights(line_idx as int, lc@, q@, start as int),
                        done ==> matches@ == before + line_highlights(line_idx as int, lc@, q@, last as int + 1),
                    decreases last - start + if done { 0int } else { 1int },
                {
                    if occurs_at_exec(&lc, &q, start) {
                        matches.push((line_idx, start, start + qn));
                    }
                    proof {
                        assert(matches@ =~= before + line_highlights(line_idx as int, lc@, q@, start as int + 1));
                    }
                    if start < last {
                        start = start + 1;
                    } else {
                        done = true;
                    }
                }
                proof {
                    assert(matches@ =~= rows_highlights(self.file_viewer, qs, line_idx as int + 1));
                }
            } else {
                proof {
                    assert(matches@ =~= rows_highlights(self.file_viewer, qs, line_idx as int + 1));
                }
            }
            line_idx = line_idx + 1;
        }
        matches
    }

    /// What the next frame shows besides the panes (see [`RenderData`]): the
    /// viewed file's comments, the comment being typed, the selections, the
    /// commented files, and the content search matches in the viewer.
    pub fn prepare_for_render(&self) -> (r: RenderData)
        requires
            !self.file_viewer.diff.diff_mode ==> self.file_viewer.cursor_line < usize::MAX,
        ensures
            r.viewer_comments@.len() == expected_comments(self.comment_store@, self.file_viewer).len(),
            forall|i: int| 0 <= i < r.viewer_comments@.len() ==> comment_ops::same_comment((#[trigger] r.viewer_comments@[i]).0,
                expected_comments(self.comment_store@, self.file_viewer)[i].0)
                && r.viewer_comments@[i].1 == expected_comments(self.comment_store@, self.file_viewer)[i].1,
            match self.input_mode {
                InputMode::CommentInput { start_line, end_line, text, .. } => (r.comment_edit matches Some(ce)
                    && ce.start_line == start_line && ce.target_line == end_line && ce.text@ == text@),
                _ => r.comment_edit is None,
            },
            r.line_select_range == match self.input_mode {
                InputMode::LineSelect { anchor, .. } => Some(ordered(anchor, cursor_or(self.file_viewer, anchor))),
                InputMode::CommentInput { start_line, end_line, .. } => Some((start_line, end_line)),
                _ => None,
            },
            r.char_select_range == match self.input_mode {
                InputMode::CharSelect { anchor_line, anchor_col, .. } => {
                    let (sl, sc, el, ec) = char_bounds(anchor_line, anchor_col, cursor_or(self.file_viewer, anchor_line),
                        mouse::col_or_zero(self.file_viewer));
                    Some(crate::file_viewer::CharSelectRange { start_line: sl, start_col: sc, end_line: el, end_col: ec })
                },
                _ => None,
            },
            crate::comments::lines_view(r.commented_files@) == sorted_files(self.comment_store@),
            r.search_matches@ == match self.file_tree.content_search {
                Some(cs) => if long_query(cs.query@) { content_highlights(self.file_viewer, cs.query@) } else { Seq::empty() },
                None => Seq::empty(),
            },
            r.search_current is None,
    {
        let viewer_comments = self.viewer_comments();
        let comment_edit = match &self.input_mode {
            InputMode::CommentInput { start_line, end_line, text, .. } => Some(crate::file_viewer::CommentEditState {
                start_line: *start_line,
                target_line: *end_line,
                text: text.clone(),
            }),
            _ => None,
        };
        let line_select_range = match &self.input_mode {
            InputMode::LineSelect { anchor, .. } => {
                let cursor = match self.file_viewer.cursor_file_line() {
                    Some(l) => l,
                    None => *anchor,
                };
                Some(if *anchor <= cursor { (*anchor, cursor) } else { (cursor, *anchor) })
            },
            InputMode::CommentInput { start_line, end_line, .. } => Some((*start_line, *end_line)),
            _ => None,
        };
        let char_select_range = match &self.input_mode {
            InputMode::CharSelect { anchor_line, anchor_col, .. } => {
                let cursor_line = match self.file_viewer.cursor_file_line() {
                    Some(l) => l,
                    None => *anchor_line,
                };
                let cursor_col = match self.file_viewer.cursor_col {
                    Some(c) => c,
                    None => 0,
                };
                let before = cursor_line < *anchor_line || (cursor_line == *anchor_line && cursor_col < *anchor_col);
                Some(if before {
                    crate::file_viewer::CharSelectRange { start_line: cursor_line, start_col: cursor_col, end_line: *anchor_line, end_col: *anchor_col }
                } else {
                    crate::file_viewer::CharSelectRange { start_line: *anchor_line, start_col: *anchor_col, end_line: cursor_line, end_col: cursor_col }
                })
            },
            _ => None,
        };
        let commented_files = self.comment_store.files_with_comments();
        let search_matches = match &self.file_tree.content_search {
            Some(cs) => if cs.query.as_str().len() >= 2 {
                self.compute_content_search_highlights(cs.query.as_str())
            } else {
                Vec::new()
            },
            None => Vec::new(),
        };
        RenderData {
            viewer_comments,
            comment_edit,
            line_select_range,
            char_select_range,
            commented_files,
            search_matches,
            search_current: None,
        }
    }

    /// Report a copy of a selection to the clipboard.
    pub fn yanked(&mut self, copied: bool)
        ensures
            final(self).flash_message matches Some(m) && m.kind == (if copied { FlashKind::Success } else { FlashKind::Failure })
                && m.text@ == (if copied { "Yanked to clipboard"@ } else { "Failed to copy to clipboard"@ }),
            *final(self) == (App { flash_message: final(self).flash_message, ..*old(self) }),
    {
        self.flash_message = Some(if copied {
            FlashMessage { text: to_owned_string("Yanked to clipboard"), kind: FlashKind::Success }
        } else {
            FlashMessage { text: to_owned_string("Failed to copy to clipboard"), kind: FlashKind::Failure }
        });
    }

    /// Report a copy of the export of `count` comments to the clipboard.
    pub fn exported(&mut self, count: usize, copied: bool)
        ensures
            final(self).flash_message matches Some(m) && m.kind == (if copied { FlashKind::Success } else { FlashKind::Failure })
                && m.text@ == (if copied {
                    "Copied "@ + crate::text::decimal(count as nat) + " comment(s) to clipboard"@
                } else {
                    "Failed to copy to clipboard"@
                }),
            *final(self) == (App { flash_message: final(self).flash_message, ..*old(self) }),
    {
        self.flash_message = Some(if copied {
            let mut t = to_owned_string("Copied ");
            crate::text::push_str(&mut t, crate::text::decimal_string(count).as_str());
            crate::text::push_str(&mut t, " comment(s) to clipboard");
            FlashMessage { text: t, kind: FlashKind::Success }
        } else {
            FlashMessage { text: to_owned_string("Failed to copy to clipboard"), kind: FlashKind::Failure }
        });
    }

    /// Report the attempt to open the bug report page; `error` is the
    /// browser's error message when it failed.
    pub fn browser_opened(&mut self, error: Option<String>)
        ensures
            match error {
                None => (final(self).flash_message matches Some(m) && m.kind == FlashKind::Success
                    && m.text@ == "Opened bug report in browser"@),
                Some(msg) => (final(self).flash_message matches Some(m) && m.kind == FlashKind::Failure
                    && m.text@ == "Failed to open browser: "@ + msg@),
            },
            *final(self) == (App { flash_message: final(self).flash_message, ..*old(self) }),
    {
        self.flash_message = Some(match error {
            None => FlashMessage { text: to_owned_string("Opened bug report in browser"), kind: FlashKind::Success },
            Some(msg) => {
                let mut t = to_owned_string("Failed to open browser: ");
                crate::text::push_str(&mut t, msg.as_str());
                FlashMessage { text: t, kind: FlashKind::Failure }
            },
        });
    }

    /// Report a failure of the outside work of a tree command (a scan).
    pub fn tree_failed(&mut self, what: &str, error: &str)
        ensures
            final(self).flash_message matches Some(m) && m.kind == FlashKind::Failure && m.text@ == what@ + " failed: "@ + error@,
            *final(self) == (App { flash_message: final(self).flash_message, ..*old(self) }),
    {
        let mut t = to_owned_string(what);
        crate::text::push_str(&mut t, " failed: ");
        crate::text::push_str(&mut t, error);
        self.flash_message = Some(FlashMessage { text: t, kind: FlashKind::Failure });
    }
}

/// The index of the entry whose path is `p`, if any.
fn find_entry(entries: &Vec<crate::tree::TreeEntry>, p: &str) -> (r: Option<usize>)
    ensures
        match r {
            Some(i) => i as int == index_of_path(views(entries@), p@),
            None => index_of_path(views(entries@), p@) < 0,
        },
{
    let mut i: usize = 0;
    while i < entries.len()
        invariant
            i <= entries@.len(),
            index_of_path(views(entries@.take(i as int)), p@) < 0,
        decreases entries.len() - i,
    {
        proof {
            assert(views(entries@.take(i as int + 1)).drop_last() =~= views(entries@.take(i as int)));
        }
        if str_eq(entries[i].path.as_str(), p) {
            proof {
                let s = views(entries@.take(i as int + 1));
                assert(s.last() == entries@[i as int]@);
                assert(index_of_path(s, p@) == i as int);
                assert(views(entries@).take(i as int + 1) =~= s);
                lemma_index_of_prefix(views(entries@), i as int + 1, p@);
            }
            return Some(i);
        }
        i = i + 1;
    }
    proof {
        assert(entries@.take(i as int) =~= entries@);
    }
    None
}

/// The first index of a path in a list is found in any prefix that contains it.
proof fn lemma_index_of_prefix(s: Seq<crate::tree::EntryView>, n: int, p: Seq<char>)
    requires
        0 < n <= s.len(),
        index_of_path(s.take(n), p) >= 0,
    ensures
        index_of_path(s, p) == index_of_path(s.take(n), p),
    decreases s.len() - n,
{
    if n < s.len() {
        assert(s.take(n + 1).drop_last() =~= s.take(n));
        lemma_index_of_prefix(s, n + 1, p);
    } else {
        assert(s.take(n) =~= s);
    }
}

/// How the hint bar shows its text: dimmed, or in the colour of a flash
/// message's kind.
#[derive(Debug, Clone, Copy, PartialEq, Eq, Structural)]
pub enum HintTone {
    Dim,
    Flash(FlashKind),
}

/// The hint bar: the comment editor's keys while typing a comment, the line
/// selection's keys while selecting, else the flash message, else the comment
/// list's keys, else the filename search's keys, else the general hint.
pub open spec fn hint_of(a: App) -> (Seq<char>, HintTone) {
    match a.input_mode {
        InputMode::CommentInput { start_line, end_line, .. } =>
            ("Editing comment on "@ + range_label(start_line, end_line) + "  Enter save  Esc cancel"@, HintTone::Dim),
        InputMode::LineSelect { .. } => ("j/k extend  c comment  Esc cancel"@, HintTone::Dim),
        _ => match a.flash_message {
            Some(f) => (f.text@, HintTone::Flash(f.kind)),
            None => if a.file_tree.comment_list is Some {
                ("j/k navigate  Enter jump  c/Esc back"@, HintTone::Dim)
            } else if a.file_tree.search is Some {
                ("Enter confirm  Esc cancel  \u{2191}/\u{2193} navigate"@, HintTone::Dim)
            } else {
                ("? help  q quit"@, HintTone::Dim)
            },
        },
    }
}

impl App {
    /// The text of the hint bar and how it is shown (see [`hint_of`]).
    pub fn hint_bar(&self) -> (r: (String, HintTone))
        ensures
            r.0@ == hint_of(*self).0,
            r.1 == hint_of(*self).1,
    {
        match &self.input_mode {
            InputMode::CommentInput { start_line, end_line, .. } => {
                let mut t = to_owned_string("Editing comment on ");
                push_str(&mut t, range_label_string(*start_line, *end_line).as_str());
                push_str(&mut t, "  Enter save  Esc cancel");
                (t, HintTone::Dim)
            },
            InputMode::LineSelect { .. } => (to_owned_string("j/k extend  c comment  Esc cancel"), HintTone::Dim),
            _ => match &self.flash_message {
                Some(f) => (f.text.clone(), HintTone::Flash(f.kind)),
                None => if let Some(h) = self.comment_list_hints() {
                    (h, HintTone::Dim)
                } else if self.file_tree.search.is_some() {
                    (to_owned_string("Enter confirm  Esc cancel  \u{2191}/\u{2193} navigate"), HintTone::Dim)
                } else {
                    (to_owned_string("? help  q quit"), HintTone::Dim)
                },
            },
        }
    }
}

/// Switching panes twice comes back to the pane and the state it started
/// from, with nothing for the outside to do.
pub proof fn law_switch_focus_twice(b: App, m: App, e1: Effect, a: App, e2: Effect)
    requires
        action_handled(b, Action::SwitchFocus, m, e1),
        action_handled(m, Action::SwitchFocus, a, e2),
    ensures
        a == b,
        e1 is Nothing && e2 is Nothing,
{
}

/// The right edge of an area (`x + width`, saturating like a terminal
/// rectangle's right edge).
pub open spec fn right_edge(a: crate::file_viewer::Area) -> u16 {
    if a.x + a.width <= u16::MAX { (a.x + a.width) as u16 } else { u16::MAX }
}

impl App {
    /// Record where the tree pane was laid out, for the mouse and for
    /// scrolling: the border column (0 in focus mode, so that a drag from
    /// the left edge restores the tree), the first row inside the tree's
    /// border, and the number of tree rows inside its border.
    pub fn place_panes(&mut self, tree_area: crate::file_viewer::Area)
        requires
            tree_area.y < u16::MAX,
        ensures
            *final(self) == (App {
                border_column: if old(self).focus_mode { 0 } else { right_edge(tree_area) },
                tree_inner_y: (tree_area.y + 1) as u16,
                file_tree: FileTree { visible_height: (if tree_area.height >= 2 { tree_area.height - 2 } else { 0 }) as usize, ..old(self).file_tree },
                ..*old(self)
            }),
    {
        self.border_column = if self.focus_mode {
            0
        } else if tree_area.x <= u16::MAX - tree_area.width {
            tree_area.x + tree_area.width
        } else {
            u16::MAX
        };
        self.tree_inner_y = tree_area.y + 1;
        self.file_tree.visible_height = (if tree_area.height >= 2 { tree_area.height - 2 } else { 0 }) as usize;
    }
}

} // verus!
