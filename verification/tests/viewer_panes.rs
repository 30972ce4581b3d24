use gati::comments::Comment;
use gati::components::{Action, Key, KeyCode};
use gati::diff::{UnifiedDiff, UnifiedDiffLine};
use gati::file_viewer::content::{classify_content, deleted_message, unreadable_message, ViewerContent};
use gati::file_viewer::{Area, FileViewer, VisualRowContent, H_SCROLL_AMOUNT, H_SCROLL_PADDING, V_SCROLL_PADDING};

fn lines_text(n: usize) -> Vec<u8> {
    (0..n).map(|i| format!("line {i}\n")).collect::<String>().into_bytes()
}

fn loaded(name: &str, content: &[u8]) -> FileViewer {
    let mut v = FileViewer::new();
    v.load_file(classify_content(&format!("/tmp/t/{name}"), content, "Plain Text".to_string()));
    v
}

fn key(code: KeyCode) -> Key {
    Key::plain(code)
}

fn ctrl(c: char) -> Key {
    Key { code: KeyCode::Char(c), shift: false, control: true, alt: false, other: false }
}

fn handle_and_apply(v: &mut FileViewer, k: Key) -> Action {
    let a = v.handle_key(&k);
    match a {
        Action::CursorDown => v.cursor_down(&[]),
        Action::CursorUp => v.cursor_up(&[]),
        _ => {}
    }
    a
}

fn make_comment(start: usize, end: usize) -> Comment {
    Comment { file: "/tmp/t/test.txt".to_string(), start_line: start, end_line: end, text: "test comment".into(), code_context: vec![] }
}

fn make_diff_viewer(lines: Vec<UnifiedDiffLine>) -> FileViewer {
    let mut v = FileViewer::new();
    v.diff.unified_diff = Some(UnifiedDiff { lines });
    v.diff.compute_line_numbers();
    v
}

#[test]
fn file_viewer_load_file_reads_contents_into_lines() {
    let v = loaded("test.rs", b"line1\nline2\nline3");
    match &v.content {
        ViewerContent::File { lines, .. } => assert_eq!(lines, &vec!["line1", "line2", "line3"]),
        other => panic!("Expected File content, got {:?}", other),
    }
}

#[test]
fn file_viewer_initial_cursor_line_is_zero() {
    let v = loaded("test.rs", b"line1\nline2\nline3");
    assert_eq!(v.cursor_line, 0);
}

#[test]
fn file_viewer_j_moves_cursor_down() {
    let mut v = loaded("long.txt", &lines_text(100));
    handle_and_apply(&mut v, key(KeyCode::Char('j')));
    assert_eq!(v.cursor_line, 1);
}

#[test]
fn file_viewer_k_moves_cursor_up() {
    let mut v = loaded("long.txt", &lines_text(100));
    v.cursor_line = 5;
    handle_and_apply(&mut v, key(KeyCode::Char('k')));
    assert_eq!(v.cursor_line, 4);
}

#[test]
fn file_viewer_cursor_clamped_at_end() {
    let mut v = loaded("short.txt", b"line1\nline2");
    v.cursor_line = 1;
    handle_and_apply(&mut v, key(KeyCode::Char('j')));
    assert_eq!(v.cursor_line, 1);
}

#[test]
fn file_viewer_cursor_clamped_at_beginning() {
    let mut v = loaded("short.txt", b"line1\nline2");
    handle_and_apply(&mut v, key(KeyCode::Char('k')));
    assert_eq!(v.cursor_line, 0);
}

#[test]
fn file_viewer_cursor_scrolls_viewport_when_moving_below() {
    let mut v = FileViewer::new();
    v.visible_height = 10;
    v.load_file(classify_content("/tmp/t/long.txt", &lines_text(100), "Plain Text".to_string()));
    v.cursor_line = 9;
    handle_and_apply(&mut v, key(KeyCode::Char('j')));
    assert_eq!(v.cursor_line, 10);
    assert!(v.scroll_offset > 0);
}

#[test]
fn file_viewer_scroll_down_stops_when_last_line_at_viewport_bottom() {
    let mut v = FileViewer::new();
    v.visible_height = 20;
    v.load_file(classify_content("/tmp/t/long.txt", &lines_text(100), "Plain Text".to_string()));
    for _ in 0..200 {
        v.scroll_down(1);
    }
    assert_eq!(v.scroll_offset, 100 + V_SCROLL_PADDING - 20);
}

#[test]
fn file_viewer_short_file_does_not_scroll() {
    let mut v = FileViewer::new();
    v.visible_height = 20;
    v.load_file(classify_content("/tmp/t/short.txt", b"line1\nline2\nline3", "Plain Text".to_string()));
    v.scroll_down(10);
    assert_eq!(v.scroll_offset, 0);
}

#[test]
fn file_viewer_cursor_scrolls_viewport_when_moving_above() {
    let mut v = FileViewer::new();
    v.visible_height = 10;
    v.load_file(classify_content("/tmp/t/long.txt", &lines_text(100), "Plain Text".to_string()));
    v.scroll_offset = 20;
    v.cursor_line = 20;
    handle_and_apply(&mut v, key(KeyCode::Char('k')));
    assert_eq!(v.cursor_line, 19);
    assert!(v.scroll_offset <= 19);
}

#[test]
fn file_viewer_arrow_keys_move_cursor() {
    let mut v = loaded("file.txt", &lines_text(10));
    handle_and_apply(&mut v, key(KeyCode::Down));
    assert_eq!(v.cursor_line, 1);
    handle_and_apply(&mut v, key(KeyCode::Up));
    assert_eq!(v.cursor_line, 0);
}

#[test]
fn file_viewer_ctrl_d_scrolls_half_page_and_moves_cursor() {
    let mut v = FileViewer::new();
    v.visible_height = 20;
    v.load_file(classify_content("/tmp/t/long.txt", &lines_text(100), "Plain Text".to_string()));
    v.handle_key(&ctrl('d'));
    assert_eq!(v.scroll_offset, 10);
    assert_eq!(v.cursor_line, 10);
}

#[test]
fn file_viewer_ctrl_u_scrolls_half_page_and_moves_cursor() {
    let mut v = FileViewer::new();
    v.visible_height = 20;
    v.load_file(classify_content("/tmp/t/long.txt", &lines_text(100), "Plain Text".to_string()));
    v.scroll_offset = 20;
    v.cursor_line = 20;
    v.handle_key(&ctrl('u'));
    assert_eq!(v.scroll_offset, 10);
    assert_eq!(v.cursor_line, 10);
}

#[test]
fn file_viewer_detects_binary_file() {
    let v = loaded("binary.dat", &[0x48, 0x65, 0x00, 0x6C, 0x6C, 0x6F]);
    assert!(matches!(v.content, ViewerContent::Binary(_)));
}

#[test]
fn file_viewer_text_file_not_detected_as_binary() {
    let v = loaded("text.txt", b"Hello, world!");
    assert!(matches!(v.content, ViewerContent::File { .. }));
}

#[test]
fn file_viewer_empty_file_shows_empty_message() {
    let v = loaded("empty.txt", b"");
    assert!(matches!(v.content, ViewerContent::Empty(_)));
}

#[test]
fn file_viewer_no_file_selected_shows_placeholder() {
    let v = FileViewer::new();
    assert_eq!(v.content, ViewerContent::Placeholder);
}

#[test]
fn file_viewer_unreadable_file_shows_error() {
    let mut v = FileViewer::new();
    v.load_file(unreadable_message("/tmp/t/secret.txt", "Permission denied"));
    assert!(matches!(v.content, ViewerContent::Error(_)), "Expected Error content, got {:?}", v.content);
}

#[test]
fn file_viewer_tab_returns_switch_focus() {
    let mut v = FileViewer::new();
    assert_eq!(v.handle_key(&key(KeyCode::Tab)), Action::SwitchFocus);
}

#[test]
fn file_viewer_q_returns_quit() {
    let mut v = FileViewer::new();
    assert_eq!(v.handle_key(&key(KeyCode::Char('q'))), Action::Quit);
}

#[test]
fn file_viewer_nonexistent_file_shows_deleted_message() {
    let mut v = FileViewer::new();
    v.load_file(deleted_message("/nonexistent/deleted_file.rs"));
    match &v.content {
        ViewerContent::Error(msg) => {
            assert!(msg.contains("deleted") || msg.contains("Deleted"), "got: {msg}");
            assert!(!msg.contains("os error"), "got: {msg}");
        }
        other => panic!("Expected Error content, got {:?}", other),
    }
}

#[test]
fn file_viewer_diff_mode_total_lines_excludes_hunk_headers() {
    let mut v = loaded("test.rs", b"line1\n");
    let diff = UnifiedDiff { lines: vec![
        UnifiedDiffLine::HunkHeader("@@ -1,1 +1,1 @@".to_string()),
        UnifiedDiffLine::Context("line1".to_string()),
    ] };
    v.set_diff(None, Some(diff));
    v.diff.diff_mode = true;
    assert_eq!(v.total_lines(), 1);
}

#[test]
fn file_viewer_h_scroll_defaults_to_zero() {
    let v = FileViewer::new();
    assert_eq!(v.h_scroll, 0);
}

#[test]
fn file_viewer_h_scroll_resets_on_load_file() {
    let mut v = FileViewer::new();
    v.h_scroll = 8;
    v.load_file(classify_content("/tmp/t/test.rs", b"line1\nline2", "Plain Text".to_string()));
    assert_eq!(v.h_scroll, 0);
}

#[test]
fn file_viewer_scroll_right_increases_h_scroll() {
    let mut v = loaded("wide.txt", b"a]234567890123456789012345678901234567890");
    v.scroll_right();
    assert_eq!(v.h_scroll, H_SCROLL_AMOUNT);
}

#[test]
fn file_viewer_scroll_right_stops_when_longest_line_at_pane_edge() {
    let mut v = loaded("wide.txt", b"123456789012345678901234567890");
    v.visible_content_width = 10;
    for _ in 0..100 {
        v.scroll_right();
    }
    assert_eq!(v.h_scroll, 30 + H_SCROLL_PADDING - 10);
}

#[test]
fn file_viewer_scroll_right_no_scroll_when_content_fits_viewport() {
    let mut v = loaded("short.txt", b"abcde\nhi");
    v.visible_content_width = 20;
    v.scroll_right();
    assert_eq!(v.h_scroll, 0);
}

#[test]
fn file_viewer_scroll_right_no_file_loaded_stays_zero() {
    let mut v = FileViewer::new();
    v.scroll_right();
    assert_eq!(v.h_scroll, 0);
}

#[test]
fn file_viewer_scroll_left_decreases_h_scroll() {
    let mut v = FileViewer::new();
    v.h_scroll = 8;
    v.scroll_left();
    assert_eq!(v.h_scroll, 4);
}

#[test]
fn file_viewer_scroll_left_floors_at_zero() {
    let mut v = FileViewer::new();
    v.h_scroll = 2;
    v.scroll_left();
    assert_eq!(v.h_scroll, 0);
}

#[test]
fn file_viewer_h_key_scrolls_left_in_viewer() {
    let mut v = FileViewer::new();
    v.h_scroll = 8;
    v.handle_key(&key(KeyCode::Char('h')));
    assert_eq!(v.h_scroll, 4);
}

#[test]
fn file_viewer_l_key_scrolls_right_in_viewer() {
    let mut v = loaded("wide.txt", b"abcdefghijklmnopqrstuvwxyz");
    v.handle_key(&key(KeyCode::Char('l')));
    assert_eq!(v.h_scroll, H_SCROLL_AMOUNT);
}

#[test]
fn mod_load_file_reads_contents_into_lines() {
    let v = loaded("test.rs", b"line1\nline2\nline3");
    match &v.content {
        ViewerContent::File { lines, .. } => assert_eq!(lines, &vec!["line1", "line2", "line3"]),
        other => panic!("Expected File content, got {:?}", other),
    }
}

#[test]
fn mod_initial_cursor_line_is_zero() {
    let v = loaded("test.rs", b"line1\nline2\nline3");
    assert_eq!(v.cursor_line, 0);
}

#[test]
fn mod_j_moves_cursor_down() {
    let mut v = loaded("long.txt", &lines_text(100));
    handle_and_apply(&mut v, key(KeyCode::Char('j')));
    assert_eq!(v.cursor_line, 1);
}

#[test]
fn mod_k_moves_cursor_up() {
    let mut v = loaded("long.txt", &lines_text(100));
    v.cursor_line = 5;
    handle_and_apply(&mut v, key(KeyCode::Char('k')));
    assert_eq!(v.cursor_line, 4);
}

#[test]
fn mod_cursor_clamped_at_end() {
    let mut v = loaded("short.txt", b"line1\nline2");
    v.cursor_line = 1;
    handle_and_apply(&mut v, key(KeyCode::Char('j')));
    assert_eq!(v.cursor_line, 1);
}

#[test]
fn mod_cursor_clamped_at_beginning() {
    let mut v = loaded("short.txt", b"line1\nline2");
    handle_and_apply(&mut v, key(KeyCode::Char('k')));
    assert_eq!(v.cursor_line, 0);
}

#[test]
fn mod_cursor_scrolls_viewport_when_moving_below() {
    let mut v = FileViewer::new();
    v.visible_height = 10;
    v.load_file(classify_content("/tmp/t/long.txt", &lines_text(100), "Plain Text".to_string()));
    v.cursor_line = 9;
    handle_and_apply(&mut v, key(KeyCode::Char('j')));
    assert_eq!(v.cursor_line, 10);
    assert!(v.scroll_offset > 0);
}

#[test]
fn mod_scroll_down_stops_when_last_line_at_viewport_bottom() {
    let mut v = FileViewer::new();
    v.visible_height = 20;
    v.load_file(classify_content("/tmp/t/long.txt", &lines_text(100), "Plain Text".to_string()));
    for _ in 0..200 {
        v.scroll_down(1);
    }
    assert_eq!(v.scroll_offset, 100 + V_SCROLL_PADDING - 20);
}

#[test]
fn mod_short_file_does_not_scroll() {
    let mut v = FileViewer::new();
    v.visible_height = 20;
    v.load_file(classify_content("/tmp/t/short.txt", b"line1\nline2\nline3", "Plain Text".to_string()));
    v.scroll_down(10);
    assert_eq!(v.scroll_offset, 0);
}

#[test]
fn mod_cursor_scrolls_viewport_when_moving_above() {
    let mut v = FileViewer::new();
    v.visible_height = 10;
    v.load_file(classify_content("/tmp/t/long.txt", &lines_text(100), "Plain Text".to_string()));
    v.scroll_offset = 20;
    v.cursor_line = 20;
    handle_and_apply(&mut v, key(KeyCode::Char('k')));
    assert_eq!(v.cursor_line, 19);
    assert!(v.scroll_offset <= 19);
}

#[test]
fn mod_arrow_keys_move_cursor() {
    let mut v = loaded("file.txt", &lines_text(10));
    handle_and_apply(&mut v, key(KeyCode::Down));
    assert_eq!(v.cursor_line, 1);
    handle_and_apply(&mut v, key(KeyCode::Up));
    assert_eq!(v.cursor_line, 0);
}

#[test]
fn mod_ctrl_d_scrolls_half_page_and_moves_cursor() {
    let mut v = FileViewer::new();
    v.visible_height = 20;
    v.load_file(classify_content("/tmp/t/long.txt", &lines_text(100), "Plain Text".to_string()));
    v.handle_key(&ctrl('d'));
    assert_eq!(v.scroll_offset, 10);
    assert_eq!(v.cursor_line, 10);
}

#[test]
fn mod_ctrl_u_scrolls_half_page_and_moves_cursor() {
    let mut v = FileViewer::new();
    v.visible_height = 20;
    v.load_file(classify_content("/tmp/t/long.txt", &lines_text(100), "Plain Text".to_string()));
    v.scroll_offset = 20;
    v.cursor_line = 20;
    v.handle_key(&ctrl('u'));
    assert_eq!(v.scroll_offset, 10);
    assert_eq!(v.cursor_line, 10);
}

#[test]
fn mod_detects_binary_file() {
    let v = loaded("binary.dat", &[0x48, 0x65, 0x00, 0x6C, 0x6C, 0x6F]);
    assert!(matches!(v.content, ViewerContent::Binary(_)));
}

#[test]
fn mod_text_file_not_detected_as_binary() {
    let v = loaded("text.txt", b"Hello, world!");
    assert!(matches!(v.content, ViewerContent::File { .. }));
}

#[test]
fn mod_empty_file_shows_empty_message() {
    let v = loaded("empty.txt", b"");
    assert!(matches!(v.content, ViewerContent::Empty(_)));
}

#[test]
fn mod_no_file_selected_shows_placeholder() {
    let v = FileViewer::new();
    assert_eq!(v.content, ViewerContent::Placeholder);
}

#[test]
fn mod_unreadable_file_shows_error() {
    let mut v = FileViewer::new();
    v.load_file(unreadable_message("/tmp/t/secret.txt", "Permission denied"));
    assert!(matches!(v.content, ViewerContent::Error(_)), "Expected Error content, got {:?}", v.content);
}

#[test]
fn mod_tab_returns_switch_focus() {
    let mut v = FileViewer::new();
    assert_eq!(v.handle_key(&key(KeyCode::Tab)), Action::SwitchFocus);
}

#[test]
fn mod_q_returns_quit() {
    let mut v = FileViewer::new();
    assert_eq!(v.handle_key(&key(KeyCode::Char('q'))), Action::Quit);
}

#[test]
fn mod_nonexistent_file_shows_deleted_message() {
    let mut v = FileViewer::new();
    v.load_file(deleted_message("/nonexistent/deleted_file.rs"));
    match &v.content {
        ViewerContent::Error(msg) => {
            assert!(msg.contains("deleted") || msg.contains("Deleted"), "got: {msg}");
            assert!(!msg.contains("os error"), "got: {msg}");
        }
        other => panic!("Expected Error content, got {:?}", other),
    }
}

#[test]
fn mod_diff_mode_total_lines_excludes_hunk_headers() {
    let mut v = loaded("test.rs", b"line1\n");
    let diff = UnifiedDiff { lines: vec![
        UnifiedDiffLine::HunkHeader("@@ -1,1 +1,1 @@".to_string()),
        UnifiedDiffLine::Context("line1".to_string()),
    ] };
    v.set_diff(None, Some(diff));
    v.diff.diff_mode = true;
    assert_eq!(v.total_lines(), 1);
}

#[test]
fn mod_h_scroll_defaults_to_zero() {
    let v = FileViewer::new();
    assert_eq!(v.h_scroll, 0);
}

#[test]
fn mod_h_scroll_resets_on_load_file() {
    let mut v = FileViewer::new();
    v.h_scroll = 8;
    v.load_file(classify_content("/tmp/t/test.rs", b"line1\nline2", "Plain Text".to_string()));
    assert_eq!(v.h_scroll, 0);
}

#[test]
fn mod_scroll_right_increases_h_scroll() {
    let mut v = loaded("wide.txt", b"a]234567890123456789012345678901234567890");
    v.scroll_right();
    assert_eq!(v.h_scroll, H_SCROLL_AMOUNT);
}

#[test]
fn mod_scroll_right_stops_when_longest_line_at_pane_edge() {
    let mut v = loaded("wide.txt", b"123456789012345678901234567890");
    v.visible_content_width = 10;
    for _ in 0..100 {
        v.scroll_right();
    }
    assert_eq!(v.h_scroll, 30 + H_SCROLL_PADDING - 10);
}

#[test]
fn mod_scroll_right_no_scroll_when_content_fits_viewport() {
    let mut v = loaded("short.txt", b"abcde\nhi");
    v.visible_content_width = 20;
    v.scroll_right();
    assert_eq!(v.h_scroll, 0);
}

#[test]
fn mod_scroll_right_no_file_loaded_stays_zero() {
    let mut v = FileViewer::new();
    v.scroll_right();
    assert_eq!(v.h_scroll, 0);
}

#[test]
fn mod_scroll_left_decreases_h_scroll() {
    let mut v = FileViewer::new();
    v.h_scroll = 8;
    v.scroll_left();
    assert_eq!(v.h_scroll, 4);
}

#[test]
fn mod_scroll_left_floors_at_zero() {
    let mut v = FileViewer::new();
    v.h_scroll = 2;
    v.scroll_left();
    assert_eq!(v.h_scroll, 0);
}

#[test]
fn mod_h_key_scrolls_left_in_viewer() {
    let mut v = FileViewer::new();
    v.h_scroll = 8;
    v.handle_key(&key(KeyCode::Char('h')));
    assert_eq!(v.h_scroll, 4);
}

#[test]
fn mod_l_key_scrolls_right_in_viewer() {
    let mut v = loaded("wide.txt", b"abcdefghijklmnopqrstuvwxyz");
    v.handle_key(&key(KeyCode::Char('l')));
    assert_eq!(v.h_scroll, H_SCROLL_AMOUNT);
}

#[test]
fn left_arrow_moves_cursor_col_left() {
    let mut v = loaded("test.txt", b"hello");
    v.cursor_col = Some(3);
    v.handle_key(&key(KeyCode::Left));
    assert_eq!(v.cursor_col, Some(2));
}

#[test]
fn left_arrow_clamps_at_zero() {
    let mut v = FileViewer::new();
    v.cursor_col = Some(0);
    v.handle_key(&key(KeyCode::Left));
    assert_eq!(v.cursor_col, Some(0));
}

#[test]
fn right_arrow_moves_cursor_col_right() {
    let mut v = loaded("test.txt", b"hello");
    v.cursor_col = Some(2);
    v.handle_key(&key(KeyCode::Right));
    assert_eq!(v.cursor_col, Some(3));
}

#[test]
fn right_arrow_clamps_at_line_length() {
    let mut v = loaded("test.txt", b"abc");
    v.cursor_col = Some(3);
    v.handle_key(&key(KeyCode::Right));
    assert_eq!(v.cursor_col, Some(3));
}

#[test]
fn cursor_down_stops_on_comment_row() {
    let mut v = loaded("test.txt", &lines_text(10));
    let comments = vec![(make_comment(3, 3), false)];
    v.cursor_line = 1;
    v.cursor_down(&comments);
    assert_eq!(v.cursor_line, 2);
    assert!(v.cursor_on_comment.is_none());
    v.cursor_down(&comments);
    assert_eq!(v.cursor_line, 2);
    assert_eq!(v.cursor_on_comment, Some((3, 3)));
}

#[test]
fn cursor_down_from_comment_moves_to_next_code_line() {
    let mut v = loaded("test.txt", &lines_text(10));
    let comments = vec![(make_comment(3, 3), false)];
    v.cursor_line = 2;
    v.cursor_on_comment = Some((3, 3));
    v.cursor_down(&comments);
    assert!(v.cursor_on_comment.is_none());
    assert_eq!(v.cursor_line, 3);
}

#[test]
fn cursor_up_stops_on_comment_row() {
    let mut v = loaded("test.txt", &lines_text(10));
    let comments = vec![(make_comment(3, 3), false)];
    v.cursor_line = 3;
    v.cursor_up(&comments);
    assert_eq!(v.cursor_line, 2);
    assert_eq!(v.cursor_on_comment, Some((3, 3)));
}

#[test]
fn cursor_up_from_comment_moves_to_code_line_above() {
    let mut v = loaded("test.txt", &lines_text(10));
    let comments = vec![(make_comment(3, 3), false)];
    v.cursor_line = 2;
    v.cursor_on_comment = Some((3, 3));
    v.cursor_up(&comments);
    assert!(v.cursor_on_comment.is_none());
    assert_eq!(v.cursor_line, 2);
}

#[test]
fn ctrl_d_clears_cursor_on_comment() {
    let mut v = FileViewer::new();
    v.visible_height = 20;
    v.load_file(classify_content("/tmp/t/long.txt", &lines_text(100), "Plain Text".to_string()));
    v.cursor_on_comment = Some((3, 3));
    v.handle_key(&ctrl('d'));
    assert!(v.cursor_on_comment.is_none());
}

#[test]
fn ctrl_u_clears_cursor_on_comment() {
    let mut v = FileViewer::new();
    v.visible_height = 20;
    v.load_file(classify_content("/tmp/t/long.txt", &lines_text(100), "Plain Text".to_string()));
    v.cursor_line = 30;
    v.scroll_offset = 20;
    v.cursor_on_comment = Some((25, 25));
    v.handle_key(&ctrl('u'));
    assert!(v.cursor_on_comment.is_none());
}

#[test]
fn load_file_clears_cursor_on_comment() {
    let mut v = FileViewer::new();
    v.cursor_on_comment = Some((1, 1));
    v.load_file(classify_content("/tmp/t/test.txt", b"line1\nline2", "Plain Text".to_string()));
    assert!(v.cursor_on_comment.is_none());
}

#[test]
fn cursor_file_line_normal_mode() {
    let mut v = loaded("test.txt", &lines_text(5));
    v.cursor_line = 0;
    assert_eq!(v.cursor_file_line(), Some(1));
    v.cursor_line = 3;
    assert_eq!(v.cursor_file_line(), Some(4));
}

#[test]
fn cursor_file_line_diff_mode_context_line() {
    let mut v = make_diff_viewer(vec![
        UnifiedDiffLine::Context("a".into()),
        UnifiedDiffLine::Added("b".into()),
        UnifiedDiffLine::Removed("c".into()),
    ]);
    v.diff.diff_mode = true;
    v.cursor_line = 0;
    assert_eq!(v.cursor_file_line(), Some(1));
    v.cursor_line = 1;
    assert_eq!(v.cursor_file_line(), Some(2));
}

#[test]
fn cursor_file_line_diff_mode_removed_line_is_none() {
    let mut v = make_diff_viewer(vec![
        UnifiedDiffLine::Context("a".into()),
        UnifiedDiffLine::Removed("old".into()),
        UnifiedDiffLine::Added("new".into()),
    ]);
    v.diff.diff_mode = true;
    v.cursor_line = 1;
    assert_eq!(v.cursor_file_line(), None);
}

#[test]
fn diff_mode_cursor_down_skips_removed_for_comments() {
    let mut v = loaded("test.txt", b"ctx1\nnew\nctx2\n");
    v.diff.diff_mode = true;
    v.diff.unified_diff = Some(UnifiedDiff { lines: vec![
        UnifiedDiffLine::Context("ctx1".into()),
        UnifiedDiffLine::Removed("old".into()),
        UnifiedDiffLine::Added("new".into()),
        UnifiedDiffLine::Context("ctx2".into()),
    ] });
    v.diff.compute_line_numbers();
    let comments = vec![(make_comment(1, 1), false)];
    v.cursor_line = 0;
    v.cursor_down(&comments);
    assert_eq!(v.cursor_on_comment, Some((1, 1)));
    assert_eq!(v.cursor_line, 0);
    v.cursor_down(&comments);
    assert!(v.cursor_on_comment.is_none());
    assert_eq!(v.cursor_line, 1);
    v.cursor_down(&comments);
    assert!(v.cursor_on_comment.is_none());
    assert_eq!(v.cursor_line, 2);
}

#[test]
fn diff_mode_cursor_up_stops_on_comment() {
    let mut v = loaded("test.txt", b"ctx1\nnew\nctx2\n");
    v.diff.diff_mode = true;
    v.diff.unified_diff = Some(UnifiedDiff { lines: vec![
        UnifiedDiffLine::Context("ctx1".into()),
        UnifiedDiffLine::Added("new".into()),
        UnifiedDiffLine::Context("ctx2".into()),
    ] });
    v.diff.compute_line_numbers();
    let comments = vec![(make_comment(1, 1), false)];
    v.cursor_line = 1;
    v.cursor_up(&comments);
    assert_eq!(v.cursor_on_comment, Some((1, 1)));
    assert_eq!(v.cursor_line, 0);
    v.cursor_up(&comments);
    assert!(v.cursor_on_comment.is_none());
    assert_eq!(v.cursor_line, 0);
}

#[test]
fn click_line_moves_cursor_to_clicked_row() {
    let mut v = loaded("test.txt", &lines_text(20));
    v.visible_height = 10;
    v.scroll_offset = 0;
    v.content_rect = Some(Area { x: 5, y: 2, width: 80, height: 10 });
    assert!(v.click_line(5, 10));
    assert_eq!(v.cursor_line, 3);
    assert!(v.cursor_on_comment.is_none());
}

#[test]
fn click_line_with_scroll_offset() {
    let mut v = loaded("test.txt", &lines_text(20));
    v.visible_height = 10;
    v.scroll_offset = 5;
    v.content_rect = Some(Area { x: 5, y: 2, width: 80, height: 10 });
    assert!(v.click_line(4, 10));
    assert_eq!(v.cursor_line, 7);
}

#[test]
fn click_line_clamps_to_max_line() {
    let mut v = loaded("test.txt", &lines_text(5));
    v.visible_height = 10;
    v.scroll_offset = 0;
    v.content_rect = Some(Area { x: 0, y: 0, width: 80, height: 10 });
    assert!(v.click_line(8, 10));
    assert_eq!(v.cursor_line, 4);
}

#[test]
fn click_line_outside_content_rect_returns_false() {
    let mut v = FileViewer::new();
    v.content_rect = Some(Area { x: 5, y: 2, width: 80, height: 10 });
    assert!(!v.click_line(1, 10));
    assert!(!v.click_line(5, 3));
}

#[test]
fn click_line_without_content_rect_returns_false() {
    let mut v = FileViewer::new();
    assert!(!v.click_line(5, 10));
}

#[test]
fn click_line_accounts_for_comment_rows() {
    let mut v = loaded("test.txt", &lines_text(10));
    v.visible_height = 20;
    v.scroll_offset = 0;
    v.content_rect = Some(Area { x: 0, y: 0, width: 80, height: 20 });
    v.row_map = vec![
        VisualRowContent::CodeLine(0),
        VisualRowContent::CodeLine(1),
        VisualRowContent::CodeLine(2),
        VisualRowContent::CommentRow(2, 3),
        VisualRowContent::CommentRow(2, 3),
        VisualRowContent::CodeLine(3),
        VisualRowContent::CodeLine(4),
    ];
    assert!(v.click_line(5, 10));
    assert_eq!(v.cursor_line, 3);
    assert!(v.cursor_on_comment.is_none());
    assert!(v.click_line(3, 10));
    assert_eq!(v.cursor_line, 2);
    assert_eq!(v.cursor_on_comment, Some((2, 3)));
    assert!(v.click_line(0, 10));
    assert_eq!(v.cursor_line, 0);
    assert!(v.cursor_on_comment.is_none());
    assert!(v.click_line(15, 10));
    assert_eq!(v.cursor_line, 9);
    assert!(v.cursor_on_comment.is_none());
}

#[test]
fn toggle_preview_to_diff_preserves_position() {
    let mut v = loaded("test.txt", &lines_text(20));
    v.visible_height = 10;
    let diff_lines: Vec<UnifiedDiffLine> = (0..20).map(|i| UnifiedDiffLine::Context(format!("line {i}"))).collect();
    v.set_diff(None, Some(UnifiedDiff { lines: diff_lines }));
    v.cursor_line = 12;
    v.scroll_offset = 8;
    v.handle_key(&key(KeyCode::Char('d')));
    assert!(v.diff.diff_mode);
    assert_eq!(v.cursor_line, 12);
    assert_eq!(v.scroll_offset, 8);
}

#[test]
fn toggle_diff_to_preview_preserves_position() {
    let mut v = loaded("test.txt", &lines_text(20));
    v.visible_height = 10;
    let diff_lines: Vec<UnifiedDiffLine> = (0..20).map(|i| UnifiedDiffLine::Context(format!("line {i}"))).collect();
    v.set_diff(None, Some(UnifiedDiff { lines: diff_lines }));
    v.diff.diff_mode = true;
    v.diff.compute_line_numbers();
    v.cursor_line = 15;
    v.scroll_offset = 11;
    v.handle_key(&key(KeyCode::Char('d')));
    assert!(!v.diff.diff_mode);
    assert_eq!(v.cursor_line, 15);
    assert_eq!(v.scroll_offset, 11);
}

#[test]
fn toggle_from_removed_line_preserves_position() {
    let mut v = loaded("test.txt", b"ctx\nnew\nctx2\n");
    v.visible_height = 10;
    v.diff.diff_mode = true;
    v.diff.unified_diff = Some(UnifiedDiff { lines: vec![
        UnifiedDiffLine::Context("ctx".into()),
        UnifiedDiffLine::Removed("old".into()),
        UnifiedDiffLine::Added("new".into()),
        UnifiedDiffLine::Context("ctx2".into()),
    ] });
    v.diff.compute_line_numbers();
    v.cursor_line = 1;
    v.scroll_offset = 0;
    v.handle_key(&key(KeyCode::Char('d')));
    assert!(!v.diff.diff_mode);
    assert_eq!(v.cursor_line, 1);
}

#[test]
fn toggle_clamps_scroll_offset() {
    let mut v = loaded("test.txt", &lines_text(5));
    v.visible_height = 10;
    v.diff.diff_mode = true;
    let mut diff_lines: Vec<UnifiedDiffLine> = Vec::new();
    for i in 0..5 {
        diff_lines.push(UnifiedDiffLine::Removed(format!("old {i}")));
        diff_lines.push(UnifiedDiffLine::Added(format!("line {i}")));
    }
    v.diff.unified_diff = Some(UnifiedDiff { lines: diff_lines });
    v.diff.compute_line_numbers();
    v.cursor_line = 8;
    v.scroll_offset = 5;
    v.handle_key(&key(KeyCode::Char('d')));
    assert!(!v.diff.diff_mode);
    assert!(v.scroll_offset <= v.max_scroll());
    assert!(v.cursor_line < v.total_lines());
}

#[test]
fn range_comment_navigation_round_trip() {
    let mut v = loaded("test.txt", &lines_text(10));
    let comments = vec![(make_comment(2, 5), false)];
    v.cursor_line = 3;
    v.cursor_down(&comments);
    assert!(v.cursor_on_comment.is_none());
    assert_eq!(v.cursor_line, 4);
    v.cursor_down(&comments);
    assert_eq!(v.cursor_on_comment, Some((2, 5)));
    assert_eq!(v.cursor_line, 4);
    v.cursor_down(&comments);
    assert!(v.cursor_on_comment.is_none());
    assert_eq!(v.cursor_line, 5);
    v.cursor_up(&comments);
    assert_eq!(v.cursor_on_comment, Some((2, 5)));
    assert_eq!(v.cursor_line, 4);
    v.cursor_up(&comments);
    assert!(v.cursor_on_comment.is_none());
    assert_eq!(v.cursor_line, 4);
}

#[test]
fn diff_toggle_twice_returns_to_the_same_row() {
    let mut v = loaded("test.txt", b"ctx\nnew\nctx2\n");
    v.visible_height = 10;
    v.diff.diff_mode = true;
    v.diff.unified_diff = Some(UnifiedDiff { lines: vec![
        UnifiedDiffLine::HunkHeader("@@ -1,3 +1,3 @@".into()),
        UnifiedDiffLine::Context("ctx".into()),
        UnifiedDiffLine::Removed("old".into()),
        UnifiedDiffLine::Added("new".into()),
        UnifiedDiffLine::Context("ctx2".into()),
    ] });
    v.diff.compute_line_numbers();
    for row in [0usize, 2, 3] {
        v.cursor_line = row;
        v.toggle_diff_mode();
        assert!(!v.diff.diff_mode);
        v.toggle_diff_mode();
        assert!(v.diff.diff_mode);
        assert_eq!(v.cursor_line, row);
    }
}
