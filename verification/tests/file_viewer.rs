use gati::diff::{DiffLineKind, LineDiff, UnifiedDiff, UnifiedDiffLine};
use gati::file_viewer::content::is_binary;
use gati::file_viewer::diff_state::{parse_hunk_new_start, DiffState};
use gati::file_viewer::minimap::{compute_markers, row_to_line, MinimapMarker};
use gati::file_viewer::render_utils::line_number_width;
use gati::file_viewer::{word_boundary_left, word_boundary_right};
use gati::comments::Comment;

#[test]
fn file_viewer_line_number_width_for_various_sizes() {
    assert_eq!(line_number_width(1), 1);
    assert_eq!(line_number_width(9), 1);
    assert_eq!(line_number_width(10), 2);
    assert_eq!(line_number_width(99), 2);
    assert_eq!(line_number_width(100), 3);
    assert_eq!(line_number_width(1000), 4);
}

#[test]
fn render_utils_line_number_width_for_various_sizes() {
    assert_eq!(line_number_width(1), 1);
    assert_eq!(line_number_width(9), 1);
    assert_eq!(line_number_width(10), 2);
    assert_eq!(line_number_width(99), 2);
    assert_eq!(line_number_width(100), 3);
    assert_eq!(line_number_width(1000), 4);
}

#[test]
fn line_number_width_of_empty_file_is_one() {
    assert_eq!(line_number_width(0), 1);
}

#[test]
fn row_to_line_basic() {
    // 10 total lines, 5 row minimap
    assert_eq!(row_to_line(0, 5, 10), 0);
    assert_eq!(row_to_line(2, 5, 10), 4);
    assert_eq!(row_to_line(4, 5, 10), 8);
}

#[test]
fn row_to_line_zero_height_returns_zero() {
    assert_eq!(row_to_line(0, 0, 10), 0);
}

#[test]
fn row_to_line_zero_lines_returns_zero() {
    assert_eq!(row_to_line(3, 5, 0), 0);
}

#[test]
fn row_to_line_clamps_to_last_line() {
    assert_eq!(row_to_line(9, 5, 10), 9);
}

#[test]
fn word_boundary_left_basic() {
    assert_eq!(word_boundary_left("hello world", 11), 6);
    assert_eq!(word_boundary_left("hello world", 6), 0);
    assert_eq!(word_boundary_left("hello world", 0), 0);
}

#[test]
fn word_boundary_left_underscore_word() {
    assert_eq!(word_boundary_left("foo_bar baz", 11), 8);
    assert_eq!(word_boundary_left("foo_bar baz", 7), 0);
}

#[test]
fn word_boundary_left_punctuation() {
    assert_eq!(word_boundary_left("a::b", 4), 3);
    assert_eq!(word_boundary_left("a::b", 3), 1);
    assert_eq!(word_boundary_left("a::b", 1), 0);
}

#[test]
fn word_boundary_right_basic() {
    assert_eq!(word_boundary_right("hello world", 0), 6);
    assert_eq!(word_boundary_right("hello world", 6), 11);
    assert_eq!(word_boundary_right("hello world", 11), 11);
}

#[test]
fn word_boundary_right_punctuation() {
    assert_eq!(word_boundary_right("a::b", 0), 1);
    assert_eq!(word_boundary_right("a::b", 1), 3);
    assert_eq!(word_boundary_right("a::b", 3), 4);
}

#[test]
fn word_boundary_empty_string() {
    assert_eq!(word_boundary_left("", 0), 0);
    assert_eq!(word_boundary_right("", 0), 0);
}

#[test]
fn word_boundary_unicode_letters_form_words() {
    assert_eq!(word_boundary_right("héllo wörld", 0), 6);
    assert_eq!(word_boundary_left("héllo wörld", 11), 6);
}

#[test]
fn line_kind_out_of_bounds_returns_unchanged() {
    let diff = LineDiff { lines: vec![DiffLineKind::Added] };
    assert_eq!(diff.line_kind(0), DiffLineKind::Unchanged);
    assert_eq!(diff.line_kind(2), DiffLineKind::Unchanged);
}

#[test]
fn line_kind_in_bounds_returns_recorded_kind() {
    let diff = LineDiff { lines: vec![DiffLineKind::Unchanged, DiffLineKind::Modified] };
    assert_eq!(diff.line_kind(2), DiffLineKind::Modified);
}

#[test]
fn is_binary_detects_null_in_prefix_only() {
    assert!(is_binary(b"ab\0cd"));
    assert!(!is_binary(b"plain text"));
    let mut late = vec![b'a'; 600];
    late[550] = 0;
    assert!(!is_binary(&late));
    late[511] = 0;
    assert!(is_binary(&late));
}

fn make_diff_state(diff_lines: Vec<UnifiedDiffLine>) -> DiffState {
    let mut state = DiffState::new();
    state.set(None, Some(UnifiedDiff { lines: diff_lines }));
    state
}

#[test]
fn compute_line_numbers_context_added_removed() {
    let state = make_diff_state(vec![
        UnifiedDiffLine::Context("ctx1".into()),
        UnifiedDiffLine::Removed("old".into()),
        UnifiedDiffLine::Added("new".into()),
        UnifiedDiffLine::Context("ctx2".into()),
    ]);
    assert_eq!(state.diff_line_numbers, vec![Some(1), None, Some(2), Some(3)]);
}

#[test]
fn compute_line_numbers_skips_hunk_headers() {
    let state = make_diff_state(vec![
        UnifiedDiffLine::HunkHeader("@@ ... @@".into()),
        UnifiedDiffLine::Context("a".into()),
        UnifiedDiffLine::Added("b".into()),
    ]);
    assert_eq!(state.diff_line_numbers, vec![Some(1), Some(2)]);
}

#[test]
fn display_index_for_file_line_exact_match() {
    let state = make_diff_state(vec![
        UnifiedDiffLine::Context("a".into()),
        UnifiedDiffLine::Removed("b".into()),
        UnifiedDiffLine::Added("c".into()),
        UnifiedDiffLine::Context("d".into()),
    ]);
    assert_eq!(state.display_index_for_file_line(1), 0);
    assert_eq!(state.display_index_for_file_line(2), 2);
    assert_eq!(state.display_index_for_file_line(3), 3);
}

#[test]
fn display_index_for_file_line_nearest() {
    let mut state = DiffState::new();
    state.diff_line_numbers = vec![Some(5), None, Some(10)];
    assert_eq!(state.display_index_for_file_line(7), 0);
    assert_eq!(state.display_index_for_file_line(8), 2);
}

#[test]
fn resolve_nearest_file_line_on_context() {
    let state = make_diff_state(vec![
        UnifiedDiffLine::Context("a".into()),
        UnifiedDiffLine::Added("b".into()),
    ]);
    assert_eq!(state.resolve_nearest_file_line(0), Some(1));
}

#[test]
fn resolve_nearest_file_line_on_removed() {
    let state = make_diff_state(vec![
        UnifiedDiffLine::Context("a".into()),
        UnifiedDiffLine::Removed("b".into()),
        UnifiedDiffLine::Added("c".into()),
    ]);
    assert_eq!(state.resolve_nearest_file_line(1), Some(2));
}

#[test]
fn resolve_nearest_file_line_searches_up_last() {
    let state = make_diff_state(vec![
        UnifiedDiffLine::Context("a".into()),
        UnifiedDiffLine::Removed("b".into()),
    ]);
    assert_eq!(state.resolve_nearest_file_line(1), Some(1));
    assert_eq!(state.resolve_nearest_file_line(7), Some(1));
}

#[test]
fn total_lines_excludes_hunk_headers() {
    let state = make_diff_state(vec![
        UnifiedDiffLine::HunkHeader("@@ -1,1 +1,1 @@".into()),
        UnifiedDiffLine::Context("line1".into()),
    ]);
    assert_eq!(state.total_lines(), 1);
}

fn make_comment(start: usize, end: usize) -> Comment {
    Comment { file: String::from("test.txt"), start_line: start, end_line: end, text: String::from("c"), code_context: vec![] }
}

#[test]
fn compute_markers_empty() {
    let diff = DiffState::new();
    let markers = compute_markers(0, 5, &diff, &[]);
    assert_eq!(markers.len(), 5);
    assert!(markers.iter().all(|m| m.is_none()));
}

#[test]
fn compute_markers_comment_overwrites_diff() {
    let mut diff = DiffState::new();
    diff.set(Some(LineDiff { lines: vec![DiffLineKind::Added, DiffLineKind::Unchanged, DiffLineKind::Modified] }), None);
    let comments = vec![(make_comment(1, 1), false), (make_comment(3, 3), true)];
    let markers = compute_markers(3, 3, &diff, &comments);
    assert_eq!(markers[0], Some(MinimapMarker::Comment));
    assert_eq!(markers[1], None);
    assert_eq!(markers[2], Some(MinimapMarker::StaleComment));
}

#[test]
fn compute_markers_diff_mode_uses_unified_rows() {
    let mut diff = make_diff_state(vec![
        UnifiedDiffLine::HunkHeader("@@".into()),
        UnifiedDiffLine::Context("a".into()),
        UnifiedDiffLine::Removed("b".into()),
        UnifiedDiffLine::Added("c".into()),
    ]);
    diff.diff_mode = true;
    let markers = compute_markers(3, 3, &diff, &[]);
    assert_eq!(markers, vec![None, Some(MinimapMarker::Removed), Some(MinimapMarker::Added)]);
}

#[test]
fn stale_comment_minimap_marker() {
    let fresh = Comment { file: "test.txt".into(), start_line: 1, end_line: 1, text: "ok".into(), code_context: vec!["line1".into()] };
    let stale = Comment { file: "test.txt".into(), start_line: 2, end_line: 2, text: "old".into(), code_context: vec!["original_line2".into()] };
    let comments = vec![(fresh, false), (stale, true)];
    let diff = DiffState::new();
    // total_lines=3, minimap_height=6
    let markers = compute_markers(3, 6, &diff, &comments);
    // Line 1 (fresh) -> a comment marker
    assert_eq!(markers[0], Some(MinimapMarker::Comment));
    // Line 2 (stale) -> a stale comment marker
    assert_eq!(markers[2], Some(MinimapMarker::StaleComment));
}

#[test]
fn compute_line_numbers_start_at_the_hunk_header() {
    let mut st = DiffState::new();
    st.unified_diff = Some(UnifiedDiff {
        lines: vec![
            UnifiedDiffLine::HunkHeader("@@ -10,2 +10,3 @@".into()),
            UnifiedDiffLine::Context("a".into()),
            UnifiedDiffLine::Added("b".into()),
            UnifiedDiffLine::Context("c".into()),
        ],
    });
    st.compute_line_numbers();
    assert_eq!(st.file_line_at_display(0), Some(10));
    assert_eq!(st.file_line_at_display(1), Some(11));
    assert_eq!(st.file_line_at_display(2), Some(12));
}

#[test]
fn compute_line_numbers_restart_at_each_hunk() {
    let state = make_diff_state(vec![
        UnifiedDiffLine::HunkHeader("@@ -1,2 +1,2 @@".into()),
        UnifiedDiffLine::Context("a".into()),
        UnifiedDiffLine::Removed("x".into()),
        UnifiedDiffLine::Added("b".into()),
        UnifiedDiffLine::HunkHeader("@@ -40 +40,2 @@ fn main() {".into()),
        UnifiedDiffLine::Context("c".into()),
        UnifiedDiffLine::Added("d".into()),
    ]);
    assert_eq!(state.diff_line_numbers, vec![Some(1), None, Some(2), Some(40), Some(41)]);
}

#[test]
fn hunk_header_start_is_parsed_after_the_plus() {
    assert_eq!(parse_hunk_new_start("@@ -10,2 +10,3 @@"), Some(10));
    assert_eq!(parse_hunk_new_start("@@ -1 +7 @@"), Some(7));
    assert_eq!(parse_hunk_new_start("@@ ... @@"), None);
    assert_eq!(parse_hunk_new_start("@@ -1,2 + @@"), None);
    assert_eq!(parse_hunk_new_start("@@ -0,0 +99999999999999999999999,1 @@"), Some(isize::MAX as usize));
}
