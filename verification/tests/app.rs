use gati::app::event_loop::Response;
use gati::app::mouse::{Mouse, MouseKind, MOUSE_SCROLL_LINES};
use gati::app::{App, Effect, FlashKind, Focus, HintTone, InputMode};
use gati::components::{Action, Key, KeyCode};
use gati::file_tree::{FileTree, SearchState};
use gati::file_viewer::content::{classify_content, ViewerContent};
use gati::file_viewer::{Area, H_SCROLL_AMOUNT};
use gati::startup::StartupTarget;
use gati::tree::TreeEntry;

const ROOT: &str = "/work";

/// A directory held in memory: its files (path below the root, content) and
/// its subdirectories.
struct Dir {
    files: Vec<(String, String)>,
    dirs: Vec<String>,
}

fn setup_dir(files: &[&str], dirs: &[&str]) -> Dir {
    Dir {
        files: files.iter().map(|f| (f.to_string(), format!("content of {f}"))).collect(),
        dirs: dirs.iter().map(|d| d.to_string()).collect(),
    }
}

fn full(rel: &str) -> String {
    format!("{ROOT}/{rel}")
}

/// The entries directly inside `dir` (a path below the root, "" for the root).
fn scan(d: &Dir, dir: &str, depth: usize) -> Vec<TreeEntry> {
    let prefix = if dir.is_empty() { String::new() } else { format!("{dir}/") };
    let mut out: Vec<TreeEntry> = Vec::new();
    let mut seen: Vec<String> = Vec::new();
    let mut all_dirs: Vec<String> = d.dirs.clone();
    for (f, _) in &d.files {
        let mut parts: Vec<&str> = f.split('/').collect();
        parts.pop();
        for i in 1..=parts.len() {
            all_dirs.push(parts[..i].join("/"));
        }
    }
    for sub in &all_dirs {
        if let Some(rest) = sub.strip_prefix(&prefix) {
            if !rest.is_empty() && !rest.contains('/') && !seen.contains(sub) {
                seen.push(sub.clone());
                out.push(TreeEntry::directory(full(sub), depth));
            }
        }
    }
    for (f, _) in &d.files {
        if let Some(rest) = f.strip_prefix(&prefix) {
            if !rest.contains('/') {
                out.push(TreeEntry::file(full(f), depth));
            }
        }
    }
    out
}

fn read(d: &Dir, path: &str) -> ViewerContent {
    let rel = path.strip_prefix(&format!("{ROOT}/")).unwrap_or(path);
    match d.files.iter().find(|(f, _)| f == rel) {
        Some((_, c)) => classify_content(path, c.as_bytes(), "Plain Text".to_string()),
        None => ViewerContent::Error(path.to_string()),
    }
}

/// Do the outside work an effect asks for, as the shell would.
fn perform(app: &mut App, e: Effect, d: &Dir) {
    match e {
        Effect::LoadFile { path, scroll_to } => {
            let content = read(d, &path);
            app.file_loaded(content, None, scroll_to);
        }
        Effect::ToggleExpandSelected => {
            let children = match app.file_tree.model.expansion_target() {
                Some((p, depth)) => {
                    let rel = p.strip_prefix(&format!("{ROOT}/")).unwrap_or(&p).to_string();
                    scan(d, &rel, depth)
                }
                None => Vec::new(),
            };
            app.file_tree.model.toggle_expand(children);
        }
        _ => {}
    }
}

fn make_app(d: &Dir, selected: Option<&str>) -> App {
    let target = StartupTarget { dir: ROOT.to_string(), selected_file: selected.map(full) };
    let tree = FileTree::new(ROOT, scan(d, "", 0), None);
    let (mut app, e) = App::new(&target, None, tree);
    perform(&mut app, e, d);
    app
}

fn act(app: &mut App, a: Action, d: &Dir) -> Effect {
    let e = app.handle_action(a);
    let shown = match &e {
        Effect::Quit => Effect::Quit,
        Effect::Nothing => Effect::Nothing,
        _ => Effect::Nothing,
    };
    perform(app, e, d);
    shown
}

fn mouse_at(app: &mut App, kind: MouseKind, column: u16, row: u16, shift: bool, d: &Dir) {
    let e = app.handle_mouse(Mouse { kind, column, row, shift }, 100);
    perform(app, e, d);
}

fn mouse(app: &mut App, kind: MouseKind, column: u16, d: &Dir) {
    mouse_at(app, kind, column, 5, false, d);
}

fn key(app: &mut App, k: Key, d: &Dir) -> Response {
    let r = app.handle_key(&k, false, false);
    let shown = Response {
        effect: match &r.effect {
            Effect::Quit => Effect::Quit,
            Effect::Yank(t) => Effect::Yank(t.clone()),
            _ => Effect::Nothing,
        },
        tree_command: r.tree_command,
        expand_timer: r.expand_timer,
        collapse_timer: r.collapse_timer,
    };
    perform(app, r.effect, d);
    shown
}

fn long_file_dir() -> Dir {
    let mut d = setup_dir(&["placeholder"], &[]);
    let content: String = (0..100).map(|i| format!("line {i}\n")).collect();
    d.files.push(("long.rs".to_string(), content));
    d
}

fn load_long(app: &mut App, d: &Dir) {
    app.file_viewer.load_file(read(d, &full("long.rs")));
}

fn numbered_files(n: usize) -> Vec<String> {
    (0..n).map(|i| format!("file{i:02}.rs")).collect()
}

fn file_dir(content: &str) -> Dir {
    let mut d = setup_dir(&[], &[]);
    d.files.push(("file.rs".to_string(), content.to_string()));
    d
}

// Focus switching and loading, as in both application modules.

#[test]
fn app_initial_focus_is_tree() {
    let d = setup_dir(&["file.rs"], &[]);
    let app = make_app(&d, None);
    assert_eq!(app.focus, Focus::Tree);
}

#[test]
fn mod_initial_focus_is_tree() {
    let d = setup_dir(&["file.rs"], &[]);
    let app = make_app(&d, None);
    assert_eq!(app.focus, Focus::Tree);
}

#[test]
fn app_switch_focus_toggles_between_panes() {
    let d = setup_dir(&["file.rs"], &[]);
    let mut app = make_app(&d, None);
    act(&mut app, Action::SwitchFocus, &d);
    assert_eq!(app.focus, Focus::Viewer);
    act(&mut app, Action::SwitchFocus, &d);
    assert_eq!(app.focus, Focus::Tree);
}

#[test]
fn mod_switch_focus_toggles_between_panes() {
    let d = setup_dir(&["file.rs"], &[]);
    let mut app = make_app(&d, None);
    act(&mut app, Action::SwitchFocus, &d);
    assert_eq!(app.focus, Focus::Viewer);
    act(&mut app, Action::SwitchFocus, &d);
    assert_eq!(app.focus, Focus::Tree);
}

#[test]
fn app_file_opened_switches_focus_to_viewer() {
    let d = setup_dir(&["file.rs"], &[]);
    let mut app = make_app(&d, None);
    assert_eq!(app.focus, Focus::Tree);
    act(&mut app, Action::FileOpened(full("file.rs")), &d);
    assert_eq!(app.focus, Focus::Viewer);
}

#[test]
fn mod_file_opened_switches_focus_to_viewer() {
    let d = setup_dir(&["file.rs"], &[]);
    let mut app = make_app(&d, None);
    assert_eq!(app.focus, Focus::Tree);
    act(&mut app, Action::FileOpened(full("file.rs")), &d);
    assert_eq!(app.focus, Focus::Viewer);
}

fn assert_first_line(app: &App, expected: &str) {
    match &app.file_viewer.content {
        ViewerContent::File { lines, .. } => assert_eq!(lines[0], expected),
        other => panic!("Expected File content, got {:?}", other),
    }
}

#[test]
fn app_file_selected_loads_file_in_viewer() {
    let d = setup_dir(&["file.rs"], &[]);
    let mut app = make_app(&d, None);
    act(&mut app, Action::FileSelected(full("file.rs")), &d);
    assert_first_line(&app, "content of file.rs");
}

#[test]
fn mod_file_selected_loads_file_in_viewer() {
    let d = setup_dir(&["file.rs"], &[]);
    let mut app = make_app(&d, None);
    act(&mut app, Action::FileSelected(full("file.rs")), &d);
    assert_first_line(&app, "content of file.rs");
}

fn assert_shows(app: &App, expected: &str) {
    match &app.file_viewer.content {
        ViewerContent::File { path, .. } => assert_eq!(path, expected),
        other => panic!("Expected File content, got {:?}", other),
    }
}

#[test]
fn app_startup_with_file_selects_and_previews() {
    let d = setup_dir(&["a.rs", "b.rs"], &[]);
    let app = make_app(&d, Some("b.rs"));
    assert_shows(&app, &full("b.rs"));
}

#[test]
fn mod_startup_with_file_selects_and_previews() {
    let d = setup_dir(&["a.rs", "b.rs"], &[]);
    let app = make_app(&d, Some("b.rs"));
    assert_shows(&app, &full("b.rs"));
    assert_eq!(app.file_tree.model.selected, 1);
}

#[test]
fn app_quit_action_returns_true() {
    let d = setup_dir(&["file.rs"], &[]);
    let mut app = make_app(&d, None);
    assert_eq!(act(&mut app, Action::Quit, &d), Effect::Quit);
}

#[test]
fn mod_quit_action_returns_true() {
    let d = setup_dir(&["file.rs"], &[]);
    let mut app = make_app(&d, None);
    assert_eq!(act(&mut app, Action::Quit, &d), Effect::Quit);
}

// Comments

#[test]
fn start_comment_enters_comment_input_mode() {
    let d = setup_dir(&["file.rs"], &[]);
    let mut app = make_app(&d, Some("file.rs"));
    app.focus = Focus::Viewer;
    act(&mut app, Action::StartComment, &d);
    match &app.input_mode {
        InputMode::CommentInput { start_line, end_line, text, .. } => {
            assert_eq!(*start_line, 1);
            assert_eq!(*end_line, 1);
            assert!(text.is_empty());
        }
        other => panic!("Expected CommentInput, got {:?}", other),
    }
}

fn comment_mode(text: &str) -> InputMode {
    InputMode::CommentInput { file: full("file.rs"), start_line: 1, end_line: 1, text: text.to_string(), previous: None }
}

#[test]
fn comment_input_saves_on_enter() {
    let d = setup_dir(&["file.rs"], &[]);
    let mut app = make_app(&d, Some("file.rs"));
    app.input_mode = comment_mode("Fix this");
    key(&mut app, Key::plain(KeyCode::Enter), &d);
    assert_eq!(app.input_mode, InputMode::Normal);
    let comments = app.comment_store.for_file(&full("file.rs"));
    assert_eq!(comments.len(), 1);
    assert_eq!(comments[0].text, "Fix this");
}

#[test]
fn comment_input_cancels_on_esc() {
    let d = setup_dir(&["file.rs"], &[]);
    let mut app = make_app(&d, Some("file.rs"));
    app.input_mode = comment_mode("Draft");
    key(&mut app, Key::plain(KeyCode::Esc), &d);
    assert_eq!(app.input_mode, InputMode::Normal);
    assert!(app.comment_store.is_empty());
}

#[test]
fn comment_input_typing_appends_chars() {
    let d = setup_dir(&["file.rs"], &[]);
    let mut app = make_app(&d, Some("file.rs"));
    app.input_mode = comment_mode("");
    key(&mut app, Key::plain(KeyCode::Char('H')), &d);
    key(&mut app, Key::plain(KeyCode::Char('i')), &d);
    match &app.input_mode {
        InputMode::CommentInput { text, .. } => assert_eq!(text, "Hi"),
        other => panic!("Expected CommentInput mode, got {:?}", other),
    }
}

#[test]
fn delete_comment_removes_comment_at_cursor() {
    let d = setup_dir(&["file.rs"], &[]);
    let mut app = make_app(&d, Some("file.rs"));
    app.comment_store.add(&full("file.rs"), 1, 1, "Delete me".into(), vec![]);
    app.focus = Focus::Viewer;
    act(&mut app, Action::DeleteComment, &d);
    assert!(app.comment_store.is_empty());
}

#[test]
fn start_comment_on_comment_row_edits_existing() {
    let d = setup_dir(&["file.rs"], &[]);
    let mut app = make_app(&d, Some("file.rs"));
    app.comment_store.add(&full("file.rs"), 2, 4, "Existing comment".into(), vec![]);
    app.focus = Focus::Viewer;
    app.file_viewer.cursor_line = 3;
    app.file_viewer.cursor_on_comment = Some((2, 4));
    act(&mut app, Action::StartComment, &d);
    match &app.input_mode {
        InputMode::CommentInput { start_line, end_line, text, .. } => {
            assert_eq!(*start_line, 2);
            assert_eq!(*end_line, 4);
            assert_eq!(text, "Existing comment");
        }
        other => panic!("Expected CommentInput, got {:?}", other),
    }
}

#[test]
fn start_comment_on_code_line_creates_new() {
    let d = setup_dir(&["file.rs"], &[]);
    let mut app = make_app(&d, Some("file.rs"));
    app.comment_store.add(&full("file.rs"), 1, 5, "Range comment".into(), vec![]);
    app.focus = Focus::Viewer;
    app.file_viewer.cursor_line = 2;
    act(&mut app, Action::StartComment, &d);
    match &app.input_mode {
        InputMode::CommentInput { start_line, end_line, text, .. } => {
            assert_eq!(*start_line, 3);
            assert_eq!(*end_line, 3);
            assert!(text.is_empty());
        }
        other => panic!("Expected CommentInput, got {:?}", other),
    }
}

#[test]
fn delete_comment_on_comment_row_deletes_and_clears_focus() {
    let d = setup_dir(&["file.rs"], &[]);
    let mut app = make_app(&d, Some("file.rs"));
    app.comment_store.add(&full("file.rs"), 3, 5, "Delete me".into(), vec![]);
    app.focus = Focus::Viewer;
    app.file_viewer.cursor_on_comment = Some((3, 5));
    act(&mut app, Action::DeleteComment, &d);
    assert!(app.comment_store.is_empty());
    assert!(app.file_viewer.cursor_on_comment.is_none());
}

#[test]
fn start_line_select_enters_line_select_mode() {
    let d = setup_dir(&["file.rs"], &[]);
    let mut app = make_app(&d, Some("file.rs"));
    app.focus = Focus::Viewer;
    act(&mut app, Action::StartLineSelect, &d);
    match &app.input_mode {
        InputMode::LineSelect { anchor, .. } => assert_eq!(*anchor, 1),
        other => panic!("Expected LineSelect, got {:?}", other),
    }
}

// Help dialog

#[test]
fn show_help_is_initially_false() {
    let d = setup_dir(&["file.rs"], &[]);
    let app = make_app(&d, None);
    assert!(!app.show_help);
}

#[test]
fn question_mark_toggles_show_help() {
    let d = setup_dir(&["file.rs"], &[]);
    let mut app = make_app(&d, None);
    assert!(!app.show_help);
    app.show_help = true;
    assert!(app.show_help);
    app.show_help = false;
    assert!(!app.show_help);
}

#[test]
fn question_mark_key_toggles_help_dialog() {
    let d = setup_dir(&["file.rs"], &[]);
    let mut app = make_app(&d, None);
    key(&mut app, Key::plain(KeyCode::Char('?')), &d);
    assert!(app.show_help);
    key(&mut app, Key::plain(KeyCode::Char('?')), &d);
    assert!(!app.show_help);
}

#[test]
fn help_open_esc_closes_help() {
    let d = setup_dir(&["file.rs"], &[]);
    let mut app = make_app(&d, None);
    app.show_help = true;
    app.show_help = false;
    assert!(!app.show_help);
}

#[test]
fn help_open_q_closes_help_not_quit() {
    let d = setup_dir(&["file.rs"], &[]);
    let mut app = make_app(&d, None);
    app.show_help = true;
    app.show_help = false;
    assert!(!app.show_help);
    assert_ne!(act(&mut app, Action::SwitchFocus, &d), Effect::Quit);
}

#[test]
fn help_dialog_takes_esc_and_q_keys() {
    let d = setup_dir(&["file.rs"], &[]);
    let mut app = make_app(&d, None);
    app.show_help = true;
    let r = key(&mut app, Key::plain(KeyCode::Esc), &d);
    assert!(!app.show_help);
    assert_eq!(r.effect, Effect::Nothing);
    app.show_help = true;
    let r = key(&mut app, Key::plain(KeyCode::Char('q')), &d);
    assert!(!app.show_help);
    assert_eq!(r.effect, Effect::Nothing);
    app.show_help = true;
    key(&mut app, Key::plain(KeyCode::Char('j')), &d);
    assert!(app.show_help);
}

// Resizable panes

#[test]
fn default_tree_width_percent_is_30() {
    let d = setup_dir(&["file.rs"], &[]);
    let app = make_app(&d, None);
    assert_eq!(app.tree_width_percent, 30);
    assert!(!app.resizing);
}

#[test]
fn resizing_flag_can_be_toggled() {
    let d = setup_dir(&["file.rs"], &[]);
    let mut app = make_app(&d, None);
    assert!(!app.resizing);
    app.resizing = true;
    assert!(app.resizing);
    app.resizing = false;
    assert!(!app.resizing);
}

#[test]
fn mouse_down_near_border_starts_resizing() {
    let d = setup_dir(&["file.rs"], &[]);
    let mut app = make_app(&d, None);
    app.border_column = 30;
    mouse(&mut app, MouseKind::LeftDown, 30, &d);
    assert!(app.resizing);
}

#[test]
fn mouse_down_away_from_border_does_not_start_resizing() {
    let d = setup_dir(&["file.rs"], &[]);
    let mut app = make_app(&d, None);
    app.border_column = 30;
    mouse(&mut app, MouseKind::LeftDown, 25, &d);
    assert!(!app.resizing);
}

#[test]
fn mouse_drag_while_resizing_updates_percent() {
    let d = setup_dir(&["file.rs"], &[]);
    let mut app = make_app(&d, None);
    app.resizing = true;
    mouse(&mut app, MouseKind::LeftDrag, 50, &d);
    assert_eq!(app.tree_width_percent, 50);
}

#[test]
fn mouse_drag_without_resizing_does_nothing() {
    let d = setup_dir(&["file.rs"], &[]);
    let mut app = make_app(&d, None);
    assert!(!app.resizing);
    mouse(&mut app, MouseKind::LeftDrag, 50, &d);
    assert_eq!(app.tree_width_percent, 30);
}

#[test]
fn mouse_up_stops_resizing() {
    let d = setup_dir(&["file.rs"], &[]);
    let mut app = make_app(&d, None);
    app.resizing = true;
    mouse(&mut app, MouseKind::LeftUp, 50, &d);
    assert!(!app.resizing);
}

// Focus mode

#[test]
fn default_focus_mode_is_false() {
    let d = setup_dir(&["file.rs"], &[]);
    let app = make_app(&d, None);
    assert!(!app.focus_mode);
    assert_eq!(app.saved_tree_width_percent, 30);
}

#[test]
fn toggle_focus_mode_entering_saves_tree_width() {
    let d = setup_dir(&["file.rs"], &[]);
    let mut app = make_app(&d, None);
    app.tree_width_percent = 40;
    app.toggle_focus_mode();
    assert!(app.focus_mode);
    assert_eq!(app.saved_tree_width_percent, 40);
    assert_eq!(app.focus, Focus::Viewer);
}

#[test]
fn toggle_focus_mode_exiting_restores_tree_width() {
    let d = setup_dir(&["file.rs"], &[]);
    let mut app = make_app(&d, None);
    app.tree_width_percent = 40;
    app.toggle_focus_mode();
    assert!(app.focus_mode);
    app.toggle_focus_mode();
    assert!(!app.focus_mode);
    assert_eq!(app.tree_width_percent, 40);
}

#[test]
fn search_mode_suppresses_focus_mode_toggle() {
    let d = setup_dir(&["file.rs"], &[]);
    let mut app = make_app(&d, None);
    app.file_tree.search = Some(SearchState::new_for_test());
    key(&mut app, Key::plain(KeyCode::Char('b')), &d);
    assert!(app.file_tree.search.is_some(), "search mode should be active");
    assert!(!app.focus_mode, "focus mode should NOT be toggled during search");
}

#[test]
fn b_toggles_focus_mode_outside_search() {
    let d = setup_dir(&["file.rs"], &[]);
    let mut app = make_app(&d, None);
    key(&mut app, Key::plain(KeyCode::Char('b')), &d);
    assert!(app.focus_mode);
    key(&mut app, Key::plain(KeyCode::Char('b')), &d);
    assert!(!app.focus_mode);
}

#[test]
fn drag_below_minimum_enters_focus_mode() {
    let d = setup_dir(&["file.rs"], &[]);
    let mut app = make_app(&d, None);
    app.resizing = true;
    app.tree_width_percent = 20;
    mouse(&mut app, MouseKind::LeftDrag, 5, &d);
    assert!(app.focus_mode);
    assert_eq!(app.saved_tree_width_percent, 20);
    assert_eq!(app.focus, Focus::Viewer);
}

#[test]
fn drag_from_left_edge_in_focus_mode_restores() {
    let d = setup_dir(&["file.rs"], &[]);
    let mut app = make_app(&d, None);
    app.focus_mode = true;
    app.saved_tree_width_percent = 30;
    mouse(&mut app, MouseKind::LeftDown, 0, &d);
    assert!(app.resizing);
    mouse(&mut app, MouseKind::LeftDrag, 25, &d);
    assert!(!app.focus_mode);
    assert_eq!(app.tree_width_percent, 25);
}

// Mouse wheel

#[test]
fn scroll_down_over_viewer_moves_scroll_offset() {
    let d = long_file_dir();
    let mut app = make_app(&d, None);
    load_long(&mut app, &d);
    app.border_column = 30;
    let initial = app.file_viewer.scroll_offset;
    mouse(&mut app, MouseKind::ScrollDown, 50, &d);
    assert!(app.file_viewer.scroll_offset > initial);
    assert_eq!(app.file_viewer.scroll_offset, initial + MOUSE_SCROLL_LINES);
}

#[test]
fn scroll_up_over_viewer_moves_scroll_offset() {
    let d = long_file_dir();
    let mut app = make_app(&d, None);
    load_long(&mut app, &d);
    app.border_column = 30;
    app.file_viewer.scroll_offset = 20;
    mouse(&mut app, MouseKind::ScrollUp, 50, &d);
    assert_eq!(app.file_viewer.scroll_offset, 20 - MOUSE_SCROLL_LINES);
}

#[test]
fn scroll_over_tree_pane_does_not_affect_viewer() {
    let d = long_file_dir();
    let mut app = make_app(&d, None);
    load_long(&mut app, &d);
    app.border_column = 30;
    let initial = app.file_viewer.scroll_offset;
    mouse(&mut app, MouseKind::ScrollDown, 10, &d);
    assert_eq!(app.file_viewer.scroll_offset, initial);
}

#[test]
fn shift_scroll_down_over_viewer_scrolls_right() {
    let d = long_file_dir();
    let mut app = make_app(&d, None);
    load_long(&mut app, &d);
    app.border_column = 30;
    mouse_at(&mut app, MouseKind::ScrollDown, 50, 5, true, &d);
    assert_eq!(app.file_viewer.h_scroll, H_SCROLL_AMOUNT);
}

#[test]
fn shift_scroll_up_over_viewer_scrolls_left() {
    let d = long_file_dir();
    let mut app = make_app(&d, None);
    load_long(&mut app, &d);
    app.file_viewer.h_scroll = 8;
    app.border_column = 30;
    mouse_at(&mut app, MouseKind::ScrollUp, 50, 5, true, &d);
    assert_eq!(app.file_viewer.h_scroll, 4);
}

#[test]
fn shift_scroll_over_tree_does_not_h_scroll() {
    let d = long_file_dir();
    let mut app = make_app(&d, None);
    load_long(&mut app, &d);
    app.border_column = 30;
    mouse_at(&mut app, MouseKind::ScrollDown, 10, 5, true, &d);
    assert_eq!(app.file_viewer.h_scroll, 0);
}

#[test]
fn scroll_down_over_tree_pane_scrolls_tree() {
    let files = numbered_files(30);
    let refs: Vec<&str> = files.iter().map(|s| s.as_str()).collect();
    let d = setup_dir(&refs, &[]);
    let mut app = make_app(&d, None);
    app.border_column = 30;
    app.file_tree.visible_height = 20;
    let initial = app.file_tree.scroll_offset;
    mouse(&mut app, MouseKind::ScrollDown, 10, &d);
    assert!(app.file_tree.scroll_offset > initial);
}

#[test]
fn scroll_up_over_tree_pane_scrolls_tree() {
    let files = numbered_files(30);
    let refs: Vec<&str> = files.iter().map(|s| s.as_str()).collect();
    let d = setup_dir(&refs, &[]);
    let mut app = make_app(&d, None);
    app.border_column = 30;
    app.file_tree.visible_height = 20;
    app.file_tree.scroll_offset = 10;
    app.file_tree.model.selected = 15;
    mouse(&mut app, MouseKind::ScrollUp, 10, &d);
    assert!(app.file_tree.scroll_offset < 10);
}

// Clicks in the tree

fn tree_click_app(d: &Dir) -> App {
    let mut app = make_app(d, None);
    app.border_column = 30;
    app.tree_inner_y = 1;
    app.file_tree.visible_height = 20;
    app.file_tree.scroll_offset = 0;
    app
}

#[test]
fn click_on_tree_file_entry_selects_it() {
    let d = setup_dir(&["a.rs", "b.rs", "c.rs"], &[]);
    let mut app = tree_click_app(&d);
    assert_eq!(app.file_tree.model.selected, 0);
    mouse_at(&mut app, MouseKind::LeftDown, 5, 3, false, &d);
    assert_eq!(app.file_tree.model.selected, 2);
}

#[test]
fn click_on_tree_directory_toggles_expand() {
    let d = setup_dir(&["sub/child.rs"], &["sub"]);
    let mut app = tree_click_app(&d);
    assert!(app.file_tree.model.entries[0].is_directory);
    assert!(!app.file_tree.model.entries[0].is_expanded);
    mouse_at(&mut app, MouseKind::LeftDown, 5, 1, false, &d);
    assert!(app.file_tree.model.entries[0].is_expanded, "clicking directory should expand it");
}

#[test]
fn click_on_expanded_directory_collapses_it() {
    let d = setup_dir(&["sub/child.rs"], &["sub"]);
    let mut app = tree_click_app(&d);
    app.file_tree.model.selected = 0;
    perform(&mut app, Effect::ToggleExpandSelected, &d);
    assert!(app.file_tree.model.entries[0].is_expanded);
    mouse_at(&mut app, MouseKind::LeftDown, 5, 1, false, &d);
    assert!(!app.file_tree.model.entries[0].is_expanded, "clicking expanded directory should collapse it");
}

#[test]
fn click_on_tree_with_scroll_offset_selects_correct_entry() {
    let files = numbered_files(20);
    let refs: Vec<&str> = files.iter().map(|s| s.as_str()).collect();
    let d = setup_dir(&refs, &[]);
    let mut app = tree_click_app(&d);
    app.file_tree.visible_height = 10;
    app.file_tree.scroll_offset = 5;
    mouse_at(&mut app, MouseKind::LeftDown, 5, 1, false, &d);
    assert_eq!(app.file_tree.model.selected, 5);
}

#[test]
fn click_beyond_tree_entries_is_noop() {
    let d = setup_dir(&["a.rs", "b.rs"], &[]);
    let mut app = tree_click_app(&d);
    app.file_tree.model.selected = 0;
    mouse_at(&mut app, MouseKind::LeftDown, 5, 10, false, &d);
    assert_eq!(app.file_tree.model.selected, 0, "selection should not change");
}

#[test]
fn click_on_tree_pane_focuses_tree() {
    let d = setup_dir(&["file.rs"], &[]);
    let mut app = make_app(&d, None);
    app.border_column = 30;
    app.focus = Focus::Viewer;
    mouse(&mut app, MouseKind::LeftDown, 10, &d);
    assert_eq!(app.focus, Focus::Tree);
}

#[test]
fn click_on_viewer_pane_focuses_viewer() {
    let d = setup_dir(&["file.rs"], &[]);
    let mut app = make_app(&d, None);
    app.border_column = 30;
    app.focus = Focus::Tree;
    mouse(&mut app, MouseKind::LeftDown, 50, &d);
    assert_eq!(app.focus, Focus::Viewer);
}

#[test]
fn click_on_border_does_not_change_focus() {
    let d = setup_dir(&["file.rs"], &[]);
    let mut app = make_app(&d, None);
    app.border_column = 30;
    app.focus = Focus::Tree;
    mouse(&mut app, MouseKind::LeftDown, 30, &d);
    assert_eq!(app.focus, Focus::Tree);
}

// Character selection with the mouse

fn char_select_app(content: &str) -> (App, Dir) {
    let d = file_dir(content);
    let mut app = make_app(&d, Some("file.rs"));
    app.border_column = 30;
    app.file_viewer.content_rect = Some(Area { x: 31, y: 1, width: 69, height: 20 });
    app.file_viewer.scroll_offset = 0;
    (app, d)
}

#[test]
fn mouse_click_on_viewer_enters_char_select() {
    let (mut app, d) = char_select_app("line0\nline1\nline2\nline3\nline4\n");
    mouse_at(&mut app, MouseKind::LeftDown, 40, 3, false, &d);
    assert_eq!(app.focus, Focus::Viewer);
    assert_eq!(app.file_viewer.cursor_line, 2);
    match &app.input_mode {
        InputMode::CharSelect { anchor_line, .. } => assert_eq!(*anchor_line, 3),
        other => panic!("Expected CharSelect, got {:?}", other),
    }
}

#[test]
fn mouse_drag_extends_char_select() {
    let (mut app, d) = char_select_app("line0\nline1\nline2\nline3\nline4\n");
    mouse_at(&mut app, MouseKind::LeftDown, 40, 2, false, &d);
    assert!(matches!(app.input_mode, InputMode::CharSelect { .. }));
    mouse_at(&mut app, MouseKind::LeftDrag, 40, 5, false, &d);
    assert_eq!(app.file_viewer.cursor_line, 4);
    match &app.input_mode {
        InputMode::CharSelect { anchor_line, .. } => assert_eq!(*anchor_line, 2),
        other => panic!("Expected CharSelect after drag, got {:?}", other),
    }
}

#[test]
fn mouse_up_single_position_cancels_char_select() {
    let (mut app, d) = char_select_app("line0\nline1\nline2\n");
    mouse_at(&mut app, MouseKind::LeftDown, 40, 2, false, &d);
    assert!(matches!(app.input_mode, InputMode::CharSelect { .. }));
    mouse_at(&mut app, MouseKind::LeftUp, 40, 2, false, &d);
    assert!(matches!(app.input_mode, InputMode::Normal));
}

#[test]
fn mouse_up_multi_line_keeps_char_select() {
    let (mut app, d) = char_select_app("line0\nline1\nline2\nline3\n");
    mouse_at(&mut app, MouseKind::LeftDown, 40, 2, false, &d);
    mouse_at(&mut app, MouseKind::LeftDrag, 40, 4, false, &d);
    mouse_at(&mut app, MouseKind::LeftUp, 40, 4, false, &d);
    match &app.input_mode {
        InputMode::CharSelect { anchor_line, .. } => {
            assert_eq!(*anchor_line, 2);
            assert_eq!(app.file_viewer.cursor_file_line().unwrap(), 4);
        }
        other => panic!("Expected CharSelect to persist after multi-line drag, got {:?}", other),
    }
}

#[test]
fn ctrl_c_copies_char_selection_and_quits_otherwise() {
    let (mut app, d) = char_select_app("line0\nline1\nline2\nline3\n");
    mouse_at(&mut app, MouseKind::LeftDown, 40, 2, false, &d);
    mouse_at(&mut app, MouseKind::LeftDrag, 40, 4, false, &d);
    let ctrl_c = Key { code: KeyCode::Char('c'), shift: false, control: true, alt: false, other: false };
    let r = key(&mut app, ctrl_c, &d);
    // From the click column to the drag column of lines 2 to 4.
    assert!(matches!(r.effect, Effect::Yank(_)));
    app.input_mode = InputMode::Normal;
    let r = key(&mut app, ctrl_c, &d);
    assert_eq!(r.effect, Effect::Quit);
}

// Flash messages

#[test]
fn export_sets_flash_message_on_success() {
    let d = setup_dir(&["file.rs"], &[]);
    let mut app = make_app(&d, Some("file.rs"));
    app.comment_store.add(&full("file.rs"), 1, 1, "A comment".into(), vec![]);
    match app.export_comments() {
        Effect::Export { text, count } => {
            assert!(!text.is_empty());
            app.exported(count, true);
        }
        other => panic!("Expected an export, got {:?}", other),
    }
    let flash = app.flash_message.as_ref().expect("flash_message should be set");
    assert!(flash.text.contains("1 comment(s)"));
    assert_eq!(flash.kind, FlashKind::Success);
}

#[test]
fn export_sets_flash_message_when_empty() {
    let d = setup_dir(&["file.rs"], &[]);
    let mut app = make_app(&d, None);
    assert_eq!(app.export_comments(), Effect::Nothing);
    let flash = app.flash_message.as_ref().expect("flash_message should be set");
    assert_eq!(flash.text, "No comments to export");
    assert_eq!(flash.kind, FlashKind::Notice);
}

#[test]
fn flash_message_not_shown_in_comment_input_mode() {
    let d = setup_dir(&["file.rs"], &[]);
    let mut app = make_app(&d, Some("file.rs"));
    app.yanked(true);
    app.input_mode = comment_mode("");
    // In comment input mode the hints show the editor's keys, not the flash
    let (hints, tone) = app.hint_bar();
    assert!(hints.contains("Editing comment"));
    assert_eq!(hints, "Editing comment on L1  Enter save  Esc cancel");
    assert_eq!(tone, HintTone::Dim);
    let data = app.prepare_for_render();
    let edit = data.comment_edit.expect("the comment editor is shown");
    assert_eq!((edit.start_line, edit.target_line), (1, 1));
    assert_eq!(data.line_select_range, Some((1, 1)));
}

// Content search highlights in the viewer

#[test]
fn content_search_highlights_ignore_case() {
    let d = file_dir("Hello hello\nnothing\nHELLO\n");
    let mut app = make_app(&d, Some("file.rs"));
    let m = app.compute_content_search_highlights("hello");
    assert_eq!(m, vec![(0, 0, 5), (0, 6, 11), (2, 0, 5)]);
    app.file_tree.enter_content_search();
    let e = app.request_content_search();
    assert_eq!(e, Effect::StopContentSearch);
}

#[test]
fn content_search_starts_with_two_bytes() {
    let d = setup_dir(&["file.rs"], &[]);
    let mut app = make_app(&d, None);
    app.file_tree.enter_content_search();
    if let Some(cs) = app.file_tree.content_search.as_mut() {
        cs.query = "ab".to_string();
    }
    let e = app.handle_action(Action::ContentSearchRequested);
    assert_eq!(e, Effect::StartContentSearch { query: "ab".to_string(), max_matches: 1000 });
    assert!(app.file_tree.content_search.as_ref().unwrap().searching);
}

#[test]
fn hint_bar_follows_mode_flash_and_panes() {
    let d = setup_dir(&["file.rs"], &[]);
    let mut app = make_app(&d, Some("file.rs"));
    assert_eq!(app.hint_bar(), ("? help  q quit".to_string(), HintTone::Dim));
    app.yanked(true);
    let (text, tone) = app.hint_bar();
    assert_eq!(tone, HintTone::Flash(FlashKind::Success));
    assert_eq!(Some(text), app.flash_message.as_ref().map(|f| f.text.clone()));
    app.input_mode = comment_mode("");
    if let InputMode::CommentInput { end_line, .. } = &mut app.input_mode {
        *end_line = 3;
    }
    assert_eq!(app.hint_bar().0, "Editing comment on L1-3  Enter save  Esc cancel");
}

#[test]
fn place_panes_records_border_and_tree_rows() {
    let d = setup_dir(&["file.rs"], &[]);
    let mut app = make_app(&d, Some("file.rs"));
    app.place_panes(gati::file_viewer::Area { x: 0, y: 0, width: 30, height: 20 });
    assert_eq!(app.border_column, 30);
    assert_eq!(app.tree_inner_y, 1);
    assert_eq!(app.file_tree.visible_height, 18);
    app.toggle_focus_mode();
    app.place_panes(gati::file_viewer::Area { x: 0, y: 0, width: 0, height: 1 });
    assert_eq!(app.border_column, 0);
    assert_eq!(app.file_tree.visible_height, 0);
}

#[test]
fn saved_comment_keeps_the_code_it_covers_as_context() {
    let mut d = setup_dir(&["placeholder"], &[]);
    d.files.push(("file.rs".to_string(), "first\nsecond\nthird\n".to_string()));
    let mut app = make_app(&d, Some("file.rs"));
    app.input_mode = InputMode::CommentInput {
        file: full("file.rs"),
        start_line: 2,
        end_line: 3,
        text: "Look here".to_string(),
        previous: None,
    };
    key(&mut app, Key::plain(KeyCode::Enter), &d);
    let c = app.comment_store.find_exact(&full("file.rs"), 2, 3).expect("the comment is stored");
    assert_eq!(c.text, "Look here");
    assert_eq!(c.code_context, vec!["second".to_string(), "third".to_string()]);
}

#[test]
fn empty_comment_is_not_saved_on_enter() {
    let d = setup_dir(&["file.rs"], &[]);
    let mut app = make_app(&d, Some("file.rs"));
    app.input_mode = comment_mode("");
    key(&mut app, Key::plain(KeyCode::Enter), &d);
    assert_eq!(app.input_mode, InputMode::Normal);
    assert!(app.comment_store.is_empty());
}

#[test]
fn mouse_events_are_ignored_while_help_is_shown() {
    let d = setup_dir(&["a.rs", "b.rs"], &[]);
    let mut app = make_app(&d, None);
    app.show_help = true;
    let before_focus = app.focus;
    let before_selected = app.file_tree.model.selected;
    let e = app.handle_mouse(Mouse { kind: MouseKind::LeftDown, column: 2, row: 3, shift: false }, 100);
    assert_eq!(e, Effect::Nothing);
    let e = app.handle_mouse(Mouse { kind: MouseKind::ScrollDown, column: 2, row: 3, shift: false }, 100);
    assert_eq!(e, Effect::Nothing);
    assert!(app.show_help);
    assert_eq!(app.focus, before_focus);
    assert_eq!(app.file_tree.model.selected, before_selected);
    assert!(!app.resizing);
}

#[test]
fn reload_fits_checks_comment_ranges_against_the_line_count() {
    let d = setup_dir(&["file.rs"], &[]);
    let mut app = make_app(&d, Some("file.rs"));
    let content = classify_content(&full("file.rs"), b"a\nb\n", "Plain Text".to_string());
    assert!(app.reload_fits(&content));
    app.comment_store.add(&full("file.rs"), 3, 1, "backwards".into(), vec!["a".into()]);
    assert!(!app.reload_fits(&content));
}
