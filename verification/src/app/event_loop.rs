//! What a key press does to the application: the order in which the help
//! dialog, the comment editor, selections, global keys and the focused pane
//! get to handle it.
use vstd::prelude::*;
use crate::app::{App, Effect, Focus, InputMode, action_handled, action_fits, list_refreshed};
use crate::app::comment_ops::{char_select_handled, line_select_handled, comment_input_handled, comment_range_fits,
    handle_char_select, handle_line_select, handle_comment_input, char_selection_text, line_selection_text,
    char_bounds, char_range_text, cursor_or, joined_range, ordered, SelectOutcome};
use crate::app::mouse::{focus_toggled, char_select_started, col_or_zero};
use crate::comments::lines_view;
use crate::components::{Action, Key, KeyCode};
use crate::file_tree::{FileTree, TreeCommand, TapTimer, TreeResponse, tree_key_result, tree_key_fits};
use crate::file_viewer::{FileViewer, file_lines, viewer_key_handled, viewer_key_fits, word_lefted, word_righted, col_left, col_right};

verus! {

/// The answer of the application to a key: the outside work to follow, and
/// for the tree pane the scan it asks for and its double-tap timers.
#[derive(Debug)]
pub struct Response {
    pub effect: Effect,
    pub tree_command: TreeCommand,
    pub expand_timer: TapTimer,
    pub collapse_timer: TapTimer,
}

/// A response that asks nothing of the tree and keeps its timers.
pub open spec fn plain(r: Response) -> bool {
    r.tree_command == TreeCommand::Nothing && r.expand_timer == TapTimer::Keep && r.collapse_timer == TapTimer::Keep
}

/// The text a selection mode `m` copies from viewer `v`: the selected
/// characters or lines; `None` outside a selection.
pub open spec fn selection_copy(m: InputMode, v: FileViewer) -> Option<Seq<char>> {
    match m {
        InputMode::CharSelect { anchor_line, anchor_col, .. } => {
            let (sl, sc, el, ec) = char_bounds(anchor_line, anchor_col, cursor_or(v, anchor_line), col_or_zero(v));
            Some(char_range_text(lines_view(file_lines(v.content)), if sl >= 1 { sl - 1 } else { 0 }, sc as int,
                if el >= 1 { el - 1 } else { 0 }, ec as int))
        },
        InputMode::LineSelect { anchor, .. } => {
            let (a, b) = ordered(anchor, cursor_or(v, anchor));
            Some(joined_range(lines_view(file_lines(v.content)), a, b))
        },
        _ => None,
    }
}

/// The effect of copying `t`: nothing when it is empty.
pub open spec fn yank_of(t: Seq<char>, e: Effect) -> bool {
    if t.len() == 0 {
        e is Nothing
    } else {
        e matches Effect::Yank(s) && s@ == t
    }
}

/// The effect of a selection key's outcome.
pub open spec fn outcome_effect(o: SelectOutcome, e: Effect) -> bool {
    match o {
        SelectOutcome::Copy(t) => yank_of(t@, e),
        _ => e is Nothing,
    }
}

/// The keys that selection modes handle themselves.
pub open spec fn selection_key(k: Key) -> bool {
    ||| k.code == KeyCode::Char('j') || k.code == KeyCode::Down
    ||| k.code == KeyCode::Char('k') || k.code == KeyCode::Up
    ||| k.code == KeyCode::Char('y') || k.code == KeyCode::Char('c') || k.code == KeyCode::Esc
}

/// The viewer after shift (with alt: by words) and an arrow key.
pub open spec fn shift_moved(v: FileViewer, k: Key) -> FileViewer {
    if k.alt {
        if k.code == KeyCode::Left { word_lefted(v) } else { word_righted(v) }
    } else {
        if k.code == KeyCode::Left { col_left(v) } else { col_right(v) }
    }
}

/// `a` and `r` are the application and the response after key `k` in `b`;
/// `edt` and `cdt` say whether the key comes soon after the tree's last
/// expand or collapse. In order: Ctrl+C copies a selection or quits; the
/// help dialog takes every key (closing on `?`, Esc or `q`); the comment
/// editor takes every key; shift and an arrow in the viewer select
/// characters; selection modes take their keys; outside filename search
/// `?` toggles help and `b` focus mode; the rest goes to the focused pane,
/// whose action the application then carries out.
pub open spec fn key_handled(b: App, k: Key, edt: bool, cdt: bool, a: App, r: Response) -> bool {
    if k.code == KeyCode::Char('c') && k.control {
        a == b && plain(r) && match selection_copy(b.input_mode, b.file_viewer) {
            Some(t) => yank_of(t, r.effect),
            None => r.effect is Quit,
        }
    } else if b.show_help {
        &&& plain(r) && r.effect is Nothing
        &&& a == (if k.code == KeyCode::Char('?') || k.code == KeyCode::Esc || k.code == KeyCode::Char('q') {
            App { show_help: false, ..b }
        } else {
            b
        })
    } else if b.input_mode is CommentInput {
        &&& plain(r) && r.effect is Nothing
        &&& comment_input_handled(b.input_mode, k, b.file_viewer.content, b.comment_store@, a.input_mode, a.comment_store@, k.code == KeyCode::Enter)
        &&& if k.code == KeyCode::Enter {
            list_refreshed(b.file_tree, a.comment_store@, b.target_dir@, a.file_tree)
        } else {
            a.file_tree == b.file_tree
        }
        &&& (App { input_mode: b.input_mode, comment_store: b.comment_store, file_tree: b.file_tree, ..a }) == b
    } else if k.shift && (k.code == KeyCode::Left || k.code == KeyCode::Right) && b.focus == Focus::Viewer {
        &&& plain(r) && r.effect is Nothing
        &&& a.file_viewer == shift_moved(b.file_viewer, k)
        &&& if b.input_mode is CharSelect {
            a == App { file_viewer: a.file_viewer, ..b }
        } else {
            char_select_started(b, App { file_viewer: b.file_viewer, ..a })
        }
    } else if b.input_mode is CharSelect && selection_key(k) {
        &&& plain(r)
        &&& exists|m: InputMode, v: FileViewer, o: SelectOutcome| char_select_handled(b.input_mode, k, b.file_viewer, b.comment_store@, m, v, o)
            && a == App { input_mode: m, file_viewer: v, ..b } && outcome_effect(o, r.effect)
    } else if b.input_mode is LineSelect && selection_key(k) {
        &&& plain(r)
        &&& exists|m: InputMode, v: FileViewer, o: SelectOutcome| line_select_handled(b.input_mode, k, b.file_viewer, b.comment_store@, m, v, o)
            && a == App { input_mode: m, file_viewer: v, ..b } && outcome_effect(o, r.effect)
    } else if k.code == KeyCode::Char('?') && b.file_tree.search is None {
        a == App { show_help: !b.show_help, ..b } && plain(r) && r.effect is Nothing
    } else if k.is_char('b') && b.file_tree.search is None {
        a == focus_toggled(b) && plain(r) && r.effect is Nothing
    } else if b.focus == Focus::Tree {
        exists|t: FileTree, tr: TreeResponse| tree_key_result(b.file_tree, k, edt, cdt, t, tr)
            && r.tree_command == tr.command && r.expand_timer == tr.expand_timer && r.collapse_timer == tr.collapse_timer
            && action_handled(App { file_tree: t, ..b }, tr.action, a, r.effect)
    } else {
        plain(r) && exists|v: FileViewer, act: Action| viewer_key_handled(b.file_viewer, k, v, act)
            && action_handled(App { file_viewer: v, ..b }, act, a, r.effect)
    }
}

/// The machine limits key handling works within (see [`action_fits`],
/// [`tree_key_fits`] and [`viewer_key_fits`]), and a comment being typed
/// covers an ordered range.
pub open spec fn key_fits(app: App) -> bool {
    &&& action_fits(app)
    &&& tree_key_fits(app.file_tree)
    &&& viewer_key_fits(app.file_viewer)
    &&& comment_range_fits(app.input_mode, app.file_viewer.content)
}

/// The copy effect for text `t`.
fn yank(t: String) -> (e: Effect)
    ensures
        yank_of(t@, e),
{
    if t.as_str().is_empty() {
        Effect::Nothing
    } else {
        Effect::Yank(t)
    }
}

/// A response with only an effect.
fn respond(effect: Effect) -> (r: Response)
    ensures
        r.effect == effect,
        plain(r),
{
    Response { effect, tree_command: TreeCommand::Nothing, expand_timer: TapTimer::Keep, collapse_timer: TapTimer::Keep }
}

impl App {
    /// Enter character selection at the cursor unless already selecting.
    pub fn ensure_char_select(&mut self)
        requires
            !old(self).file_viewer.diff.diff_mode ==> old(self).file_viewer.cursor_line < usize::MAX,
        ensures
            old(self).input_mode is CharSelect ==> *final(self) == *old(self),
            !(old(self).input_mode is CharSelect) ==> char_select_started(*old(self), *final(self)),
    {
        if let InputMode::CharSelect { .. } = &self.input_mode {
            return;
        }
        self.start_mouse_char_select();
    }

    /// The text of the current selection (see [`selection_copy`]).
    pub fn selection_text(&self) -> (r: Option<String>)
        requires
            !self.file_viewer.diff.diff_mode ==> self.file_viewer.cursor_line < usize::MAX,
        ensures
            match selection_copy(self.input_mode, self.file_viewer) {
                Some(t) => r matches Some(s) && s@ == t,
                None => r is None,
            },
    {
        match &self.input_mode {
            InputMode::CharSelect { anchor_line, anchor_col, .. } => {
                let line = match self.file_viewer.cursor_file_line() {
                    Some(l) => l,
                    None => *anchor_line,
                };
                let col = match self.file_viewer.cursor_col {
                    Some(c) => c,
                    None => 0,
                };
                Some(char_selection_text(self.file_viewer.current_lines(), *anchor_line, *anchor_col, line, col))
            },
            InputMode::LineSelect { anchor, .. } => {
                let line = match self.file_viewer.cursor_file_line() {
                    Some(l) => l,
                    None => *anchor,
                };
                Some(line_selection_text(self.file_viewer.current_lines(), *anchor, line))
            },
            _ => None,
        }
    }

    /// Whether key handling fits the machine's limits (see [`key_fits`]).
    pub fn key_in_limits(&self) -> (r: bool)
        ensures
            r == key_fits(*self),
    {
        let v = &self.file_viewer;
        if v.scroll_offset > usize::MAX - v.visible_height || v.cursor_line >= usize::MAX - 1 {
            return false;
        }
        if !crate::comments::contexts_fit(&self.comment_store) {
            return false;
        }
        if !self.file_tree.key_in_limits() || !v.key_in_limits() {
            return false;
        }
        crate::app::comment_ops::comment_range_ok(&self.input_mode, &v.content)
    }

    /// Handle a key press (see [`key_handled`]).
    pub fn handle_key(&mut self, key: &Key, expand_double_tap: bool, collapse_double_tap: bool) -> (r: Response)
        requires
            key_fits(*old(self)),
        ensures
            key_handled(*old(self), *key, expand_double_tap, collapse_double_tap, *final(self), r),
    {
        if key.code == KeyCode::Char('c') && key.control {
            return match self.selection_text() {
                Some(t) => respond(yank(t)),
                None => respond(Effect::Quit),
            };
        }
        if self.show_help {
            if key.code == KeyCode::Char('?') || key.code == KeyCode::Esc || key.code == KeyCode::Char('q') {
                self.show_help = false;
            }
            return respond(Effect::Nothing);
        }
        if let InputMode::CommentInput { .. } = &self.input_mode {
            let enter = handle_comment_input(&mut self.input_mode, key, &mut self.comment_store, &self.file_viewer.content);
            if enter {
                self.refresh_comment_list();
            }
            return respond(Effect::Nothing);
        }
        if key.shift && (key.code == KeyCode::Left || key.code == KeyCode::Right) && self.focus == Focus::Viewer {
            self.ensure_char_select();
            if key.alt {
                if key.code == KeyCode::Left {
                    self.file_viewer.cursor_word_left();
                } else {
                    self.file_viewer.cursor_word_right();
                }
            } else if key.code == KeyCode::Left {
                self.file_viewer.cursor_left();
            } else {
                self.file_viewer.cursor_right();
            }
            return respond(Effect::Nothing);
        }
        let is_char = matches!(self.input_mode, InputMode::CharSelect { .. });
        let is_line = matches!(self.input_mode, InputMode::LineSelect { .. });
        if is_char || is_line {
            let ghost bm = self.input_mode;
            let ghost bv = self.file_viewer;
            let outcome = if is_char {
                handle_char_select(&mut self.input_mode, key, &mut self.file_viewer, &self.comment_store)
            } else {
                handle_line_select(&mut self.input_mode, key, &mut self.file_viewer, &self.comment_store)
            };
            match outcome {
                SelectOutcome::Ignored => {},
                SelectOutcome::Handled => {
                    return respond(Effect::Nothing);
                },
                SelectOutcome::Copy(t) => {
                    return respond(yank(t));
                },
            }
        }
        let in_search = self.file_tree.search.is_some();
        if key.code == KeyCode::Char('?') && !in_search {
            self.show_help = !self.show_help;
            return respond(Effect::Nothing);
        }
        if key.char_plain('b') && !in_search {
            self.toggle_focus_mode();
            return respond(Effect::Nothing);
        }
        match self.focus {
            Focus::Tree => {
                let tr = self.file_tree.handle_key(key, expand_double_tap, collapse_double_tap);
                let ghost mid = *self;
                let effect = self.handle_action(tr.action);
                assert(action_handled(mid, tr.action, *self, effect));
                Response { effect, tree_command: tr.command, expand_timer: tr.expand_timer, collapse_timer: tr.collapse_timer }
            },
            Focus::Viewer => {
                let act = self.file_viewer.handle_key(key);
                let ghost mid = *self;
                let effect = match act {
                    Action::NoAction => Effect::Nothing,
                    _ => self.handle_action(act),
                };
                respond(effect)
            },
        }
    }
}

} // verus!
