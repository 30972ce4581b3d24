use gati::app::comment_ops::{extract_char_range, extract_code_context};
use gati::app::mouse::clamp_tree_percent;
use gati::file_viewer::content::ViewerContent;

#[test]
fn single_line_selection() {
    let lines = vec!["hello world".to_string()];
    assert_eq!(extract_char_range(&lines, 0, 6, 0, 11), "world");
}

#[test]
fn single_line_partial() {
    let lines = vec!["abcdefgh".to_string()];
    assert_eq!(extract_char_range(&lines, 0, 2, 0, 5), "cde");
}

#[test]
fn multi_line_selection() {
    let lines = vec![
        "first line".to_string(),
        "second line".to_string(),
        "third line".to_string(),
    ];
    let result = extract_char_range(&lines, 0, 6, 2, 5);
    assert_eq!(result, "line\nsecond line\nthird");
}

#[test]
fn multi_line_two_lines() {
    let lines = vec!["hello world".to_string(), "goodbye world".to_string()];
    let result = extract_char_range(&lines, 0, 6, 1, 7);
    assert_eq!(result, "world\ngoodbye");
}

#[test]
fn empty_lines() {
    let lines: Vec<String> = vec![];
    assert_eq!(extract_char_range(&lines, 0, 0, 0, 5), "");
}

#[test]
fn empty_line_content() {
    let lines = vec!["".to_string(), "abc".to_string()];
    let result = extract_char_range(&lines, 0, 0, 1, 2);
    assert_eq!(result, "\nab");
}

#[test]
fn multibyte_characters() {
    let lines = vec!["こんにちは世界".to_string()];
    assert_eq!(extract_char_range(&lines, 0, 3, 0, 5), "ちは");
}

#[test]
fn col_beyond_line_length() {
    let lines = vec!["abc".to_string()];
    assert_eq!(extract_char_range(&lines, 0, 1, 0, 100), "bc");
}

#[test]
fn zero_width_selection() {
    let lines = vec!["abc".to_string()];
    assert_eq!(extract_char_range(&lines, 0, 2, 0, 2), "");
}

#[test]
fn char_range_past_last_line_clamps_end() {
    let lines = vec!["abc".to_string(), "defg".to_string()];
    assert_eq!(extract_char_range(&lines, 0, 1, 9, 2), "bc\nde");
}

#[test]
fn char_range_start_after_end_is_empty() {
    let lines = vec!["abc".to_string(), "def".to_string()];
    assert_eq!(extract_char_range(&lines, 1, 0, 0, 2), "");
}

#[test]
fn clamp_tree_percent_enforces_minimum() {
    // Terminal 100 cols wide: min = max(10, 10) = 10 cols → 10%
    assert_eq!(clamp_tree_percent(5, 100), 10);
    // Terminal 80 cols wide: min = max(8, 10) = 10 cols → 12%
    assert_eq!(clamp_tree_percent(3, 80), 12);
}

#[test]
fn clamp_tree_percent_enforces_maximum() {
    // Terminal 100 cols wide: max = min(70, 100-10) = 70 cols → 70%
    assert_eq!(clamp_tree_percent(90, 100), 70);
    // Terminal 40 cols wide: max = min(28, 40-10) = 28 cols → 70%
    assert_eq!(clamp_tree_percent(35, 40), 70);
}

#[test]
fn clamp_tree_percent_allows_valid_values() {
    assert_eq!(clamp_tree_percent(50, 100), 50);
    assert_eq!(clamp_tree_percent(30, 100), 30);
}

#[test]
fn extract_code_context_returns_correct_lines() {
    let content = ViewerContent::File {
        path: String::from("test.rs"),
        lines: vec![
            "line 1".into(),
            "line 2".into(),
            "line 3".into(),
            "line 4".into(),
            "line 5".into(),
        ],
        syntax_name: "Rust".into(),
    };
    let result = extract_code_context(&content, "test.rs", 2, 4);
    assert_eq!(result, vec!["line 2", "line 3", "line 4"]);
}

#[test]
fn extract_code_context_clamps_to_file_length() {
    let content = ViewerContent::File {
        path: String::from("test.rs"),
        lines: vec!["line 1".into(), "line 2".into(), "line 3".into()],
        syntax_name: "Rust".into(),
    };
    let result = extract_code_context(&content, "test.rs", 2, 10);
    assert_eq!(result, vec!["line 2", "line 3"]);
}

#[test]
fn extract_code_context_returns_empty_for_wrong_file() {
    let content = ViewerContent::File {
        path: String::from("other.rs"),
        lines: vec!["line 1".into()],
        syntax_name: "Rust".into(),
    };
    let result = extract_code_context(&content, "test.rs", 1, 1);
    assert!(result.is_empty());
}

#[test]
fn extract_code_context_returns_empty_for_placeholder() {
    let content = ViewerContent::Placeholder;
    let result = extract_code_context(&content, "test.rs", 1, 1);
    assert!(result.is_empty());
}

#[test]
fn clamp_tree_percent_keeps_the_default_for_a_zero_width_terminal() {
    assert_eq!(clamp_tree_percent(50, 0), 30);
    assert!(gati::app::mouse::is_resizable(0));
}
