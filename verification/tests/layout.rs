use gati::comments::Comment;
use gati::diff::{UnifiedDiff, UnifiedDiffLine};
use gati::file_viewer::content::classify_content;
use gati::file_viewer::minimap::{split_minimap, viewport_rows, MINIMAP_MIN_WIDTH, MINIMAP_WIDTH};
use gati::file_viewer::{line_shade, Area, CharSelectRange, FileViewer, LineShade, VisualRowContent};

use VisualRowContent::{CodeLine, CommentRow};

fn loaded(n: usize) -> FileViewer {
    let text: String = (0..n).map(|i| format!("line {i}\n")).collect();
    let mut v = FileViewer::new();
    v.load_file(classify_content("/tmp/t/a.rs", text.as_bytes(), "Plain Text".to_string()));
    v
}

fn comment(start: usize, end: usize) -> (Comment, bool) {
    (Comment { file: "/tmp/t/a.rs".to_string(), start_line: start, end_line: end, text: "c".into(), code_context: vec![] }, false)
}

#[test]
fn layout_puts_comment_rows_under_their_end_line() {
    let v = loaded(5);
    let rows = v.layout_rows(10, &[comment(1, 2)], None);
    assert_eq!(rows, vec![CodeLine(0), CodeLine(1), CommentRow(1, 2), CommentRow(1, 2), CodeLine(2), CodeLine(3), CodeLine(4)]);
}

#[test]
fn layout_stops_at_the_area_height_and_clips_a_block() {
    let mut v = loaded(5);
    v.scroll_offset = 1;
    let rows = v.layout_rows(2, &[comment(2, 2)], None);
    assert_eq!(rows, vec![CodeLine(1), CommentRow(2, 2)]);
    assert!(v.layout_rows(0, &[], None).is_empty());
}

#[test]
fn layout_shows_the_editor_instead_of_a_comment_on_its_target_line() {
    let v = loaded(3);
    let rows = v.layout_rows(10, &[comment(1, 1)], Some((1, 1)));
    assert_eq!(rows, vec![CodeLine(0), CommentRow(1, 1), CommentRow(1, 1), CodeLine(1), CodeLine(2)]);
    let rows = v.layout_rows(10, &[comment(1, 1)], Some((2, 3)));
    assert_eq!(rows, vec![CodeLine(0), CommentRow(1, 1), CommentRow(1, 1), CodeLine(1), CodeLine(2), CommentRow(2, 3), CommentRow(2, 3)]);
}

#[test]
fn layout_in_diff_mode_follows_the_diff_line_numbers() {
    let mut v = FileViewer::new();
    v.diff.unified_diff = Some(UnifiedDiff {
        lines: vec![
            UnifiedDiffLine::HunkHeader("@@ -1,2 +1,2 @@".into()),
            UnifiedDiffLine::Removed("old".into()),
            UnifiedDiffLine::Added("new".into()),
            UnifiedDiffLine::Context("same".into()),
        ],
    });
    v.diff.compute_line_numbers();
    v.diff.diff_mode = true;
    let rows = v.layout_rows(10, &[comment(1, 1)], None);
    // the removed row shows no file line, so no comment follows it
    assert_eq!(rows, vec![CodeLine(0), CodeLine(1), CommentRow(1, 1), CommentRow(1, 1), CodeLine(2)]);
}

#[test]
fn columns_on_covers_the_selected_part_of_each_line() {
    let one = CharSelectRange { start_line: 2, start_col: 1, end_line: 2, end_col: 9 };
    assert_eq!(one.columns_on(2, 5), Some((1, 5)));
    assert_eq!(one.columns_on(3, 5), None);
    let many = CharSelectRange { start_line: 2, start_col: 3, end_line: 4, end_col: 2 };
    assert_eq!(many.columns_on(2, 10), Some((3, 10)));
    assert_eq!(many.columns_on(3, 7), Some((0, 7)));
    assert_eq!(many.columns_on(4, 10), Some((0, 2)));
    assert_eq!(many.columns_on(1, 10), None);
}

#[test]
fn line_shade_prefers_selection_then_first_comment() {
    let stale = (comment(1, 3).0, true);
    let cs = vec![stale, comment(2, 4)];
    assert_eq!(line_shade(2, None, &cs, false), LineShade::StaleComment);
    assert_eq!(line_shade(4, None, &cs, false), LineShade::CommentRange);
    assert_eq!(line_shade(5, None, &cs, false), LineShade::Plain);
    assert_eq!(line_shade(2, Some((2, 2)), &cs, false), LineShade::LineSelected);
    assert_eq!(line_shade(2, Some((2, 2)), &cs, true), LineShade::Plain);
}

#[test]
fn minimap_takes_the_right_edge_of_a_wide_file_view() {
    let inner = Area { x: 10, y: 1, width: 40, height: 20 };
    let (content, minimap) = split_minimap(inner, true);
    assert_eq!(content, Area { x: 10, y: 1, width: 38, height: 20 });
    assert_eq!(minimap, Some(Area { x: 48, y: 1, width: MINIMAP_WIDTH, height: 20 }));
    assert_eq!(split_minimap(inner, false), (inner, None));
    let narrow = Area { width: MINIMAP_MIN_WIDTH - 1, ..inner };
    assert_eq!(split_minimap(narrow, true), (narrow, None));
}

#[test]
fn minimap_viewport_rows() {
    assert_eq!(viewport_rows(100, 10, 20, 20), (2, 6));
    assert_eq!(viewport_rows(0, 0, 20, 8), (0, 8));
    // a view taller than the file covers all of it
    assert_eq!(viewport_rows(5, 0, 50, 10), (0, 10));
    // the viewport always covers at least one row
    assert_eq!(viewport_rows(1000, 500, 0, 4), (2, 3));
}
