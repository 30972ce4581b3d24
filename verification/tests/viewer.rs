use gati::comments::{Comment, CommentStore};
use gati::components::{Action, Key, KeyCode};
use gati::app::InputMode;
use gati::app::comment_ops::{delete_comment_at_cursor, handle_comment_input, handle_line_select, line_selection_text, start_comment, SelectOutcome};
use gati::file_viewer::content::{classify_content, split_lines, ViewerContent};
use gati::file_viewer::FileViewer;

fn viewer_with(lines: &[&str]) -> FileViewer {
    let mut v = FileViewer::new();
    v.load_file(ViewerContent::File {
        path: String::from("/w/f.rs"),
        lines: lines.iter().map(|s| s.to_string()).collect(),
        syntax_name: String::from("Rust"),
    });
    v
}

fn key(code: KeyCode) -> Key {
    Key::plain(code)
}

#[test]
fn j_and_k_return_cursor_actions() {
    let mut v = viewer_with(&["a", "b"]);
    assert_eq!(v.handle_key(&key(KeyCode::Char('j'))), Action::CursorDown);
    assert_eq!(v.handle_key(&key(KeyCode::Up)), Action::CursorUp);
    assert_eq!(v.handle_key(&key(KeyCode::Tab)), Action::SwitchFocus);
    assert_eq!(v.handle_key(&key(KeyCode::Char('q'))), Action::Quit);
}

#[test]
fn cursor_moves_and_clamps() {
    let mut v = viewer_with(&["a", "b", "c"]);
    v.cursor_down(&[]);
    assert_eq!(v.cursor_line, 1);
    v.cursor_down(&[]);
    v.cursor_down(&[]);
    assert_eq!(v.cursor_line, 2);
    v.cursor_up(&[]);
    v.cursor_up(&[]);
    v.cursor_up(&[]);
    assert_eq!(v.cursor_line, 0);
}

fn line_one_comment() -> Comment {
    Comment { file: String::from("/w/f.rs"), start_line: 1, end_line: 1, text: String::from("x"), code_context: vec![] }
}

#[test]
fn cursor_stops_on_comment_row() {
    let mut v = viewer_with(&["a", "b", "c"]);
    v.cursor_down(&[(line_one_comment(), false)]);
    assert_eq!(v.cursor_on_comment, Some((1, 1)));
    assert_eq!(v.cursor_line, 0);
    v.cursor_down(&[(line_one_comment(), false)]);
    assert_eq!(v.cursor_on_comment, None);
    assert_eq!(v.cursor_line, 1);
}

#[test]
fn cursor_scrolls_viewport_when_moving_below() {
    let lines: Vec<String> = (0..50).map(|i| format!("line {i}")).collect();
    let refs: Vec<&str> = lines.iter().map(|s| s.as_str()).collect();
    let mut v = viewer_with(&refs);
    v.visible_height = 10;
    for _ in 0..12 {
        v.cursor_down(&[]);
    }
    assert_eq!(v.cursor_line, 12);
    assert_eq!(v.scroll_offset, 3);
}

#[test]
fn ctrl_d_scrolls_half_page_and_moves_cursor() {
    let lines: Vec<String> = (0..100).map(|i| format!("line {i}")).collect();
    let refs: Vec<&str> = lines.iter().map(|s| s.as_str()).collect();
    let mut v = viewer_with(&refs);
    v.visible_height = 20;
    let k = Key { code: KeyCode::Char('d'), shift: false, control: true, alt: false, other: false };
    assert_eq!(v.handle_key(&k), Action::NoAction);
    assert_eq!(v.scroll_offset, 10);
    assert_eq!(v.cursor_line, 10);
}

#[test]
fn word_moves_with_alt_arrows() {
    let mut v = viewer_with(&["hello world"]);
    v.cursor_col = Some(0);
    let right = Key { code: KeyCode::Right, shift: false, control: false, alt: true, other: false };
    v.handle_key(&right);
    assert_eq!(v.cursor_col, Some(6));
    let left = Key { code: KeyCode::Left, shift: false, control: false, alt: true, other: false };
    v.handle_key(&left);
    assert_eq!(v.cursor_col, Some(0));
}

#[test]
fn classify_detects_binary_empty_and_text() {
    assert!(matches!(classify_content("p", b"a\0b", String::from("Plain Text")), ViewerContent::Binary(_)));
    assert!(matches!(classify_content("p", b"", String::from("Plain Text")), ViewerContent::Empty(_)));
    match classify_content("p", b"one\r\ntwo\n", String::from("Plain Text")) {
        ViewerContent::File { lines, .. } => assert_eq!(lines, vec!["one", "two"]),
        _ => panic!("expected a file"),
    }
}

#[test]
fn split_lines_matches_str_lines() {
    for s in ["", "a", "a\n", "a\r\nb", "a\n\nb\n", "x\r"] {
        let expected: Vec<String> = s.lines().map(String::from).collect();
        assert_eq!(split_lines(s), expected);
    }
}

#[test]
fn comment_round_trip_through_input_mode() {
    let mut v = viewer_with(&["a", "b", "c"]);
    let mut store = CommentStore::new();
    v.cursor_line = 1;
    let mut mode = start_comment(&v, &store).unwrap();
    for c in "note".chars() {
        handle_comment_input(&mut mode, &key(KeyCode::Char(c)), &mut store, &v.content);
    }
    let saved = handle_comment_input(&mut mode, &key(KeyCode::Enter), &mut store, &v.content);
    assert!(saved);
    assert_eq!(mode, InputMode::Normal);
    let c = store.find_exact("/w/f.rs", 2, 2).unwrap();
    assert_eq!(c.text, "note");
    assert_eq!(c.code_context, vec!["b".to_string()]);
    delete_comment_at_cursor(&mut v, &mut store);
    assert!(store.is_empty());
}

#[test]
fn line_select_copies_and_comments_range() {
    let mut v = viewer_with(&["a", "b", "c"]);
    let store = CommentStore::new();
    let mut mode = InputMode::LineSelect { file: String::from("/w/f.rs"), anchor: 1 };
    handle_line_select(&mut mode, &key(KeyCode::Char('j')), &mut v, &store);
    handle_line_select(&mut mode, &key(KeyCode::Char('j')), &mut v, &store);
    match handle_line_select(&mut mode, &key(KeyCode::Char('y')), &mut v, &store) {
        SelectOutcome::Copy(t) => assert_eq!(t, "a\nb\nc"),
        _ => panic!("expected a copy"),
    }
    handle_line_select(&mut mode, &key(KeyCode::Char('c')), &mut v, &store);
    match &mode {
        InputMode::CommentInput { start_line, end_line, text, previous, .. } => {
            assert_eq!((*start_line, *end_line), (1, 3));
            assert!(text.is_empty());
            assert!(previous.is_some());
        }
        _ => panic!("expected comment input"),
    }
    handle_comment_input(&mut mode, &key(KeyCode::Esc), &mut CommentStore::new(), &v.content);
    assert!(matches!(mode, InputMode::LineSelect { anchor: 1, .. }));
}

#[test]
fn line_selection_text_clamps_range() {
    let lines: Vec<String> = vec!["x".into(), "y".into()];
    assert_eq!(line_selection_text(&lines, 5, 1), "x\ny");
}
