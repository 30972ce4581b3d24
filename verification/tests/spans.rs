use gati::file_tree::build_highlighted_spans;
use gati::file_viewer::render_utils::skip_chars_in_spans;
use ratatui::style::{Color, Style};

#[test]
fn file_viewer_skip_chars_in_spans_single_span() {
    let spans = vec![("Hello World".to_string(), Style::default())];
    let result = skip_chars_in_spans(spans, 6);
    assert_eq!(result.len(), 1);
    assert_eq!(result[0].0.as_str(), "World");
}

#[test]
fn file_viewer_skip_chars_in_spans_multi_span_preserves_style() {
    let spans = vec![
        ("Hello".to_string(), Style::default().fg(Color::Red)),
        (" World".to_string(), Style::default().fg(Color::Blue)),
    ];
    let result = skip_chars_in_spans(spans, 7);
    assert_eq!(result.len(), 1);
    assert_eq!(result[0].0.as_str(), "orld");
    assert_eq!(result[0].1, Style::default().fg(Color::Blue));
}

#[test]
fn file_viewer_skip_chars_in_spans_skip_exceeding_total_returns_empty() {
    let spans = vec![("Hello".to_string(), Style::default())];
    let result = skip_chars_in_spans(spans, 10);
    assert!(result.is_empty());
}

#[test]
fn file_viewer_skip_chars_in_spans_multibyte_chars() {
    // "→" is 3 bytes but 1 character; skip counts characters, not bytes
    let spans = vec![(" → hello".to_string(), Style::default())];
    let result = skip_chars_in_spans(spans, 3);
    assert_eq!(result.len(), 1);
    assert_eq!(result[0].0.as_str(), "hello");
}

#[test]
fn file_viewer_skip_chars_in_spans_skip_zero_returns_unchanged() {
    let spans = vec![("Hello".to_string(), Style::default())];
    let result = skip_chars_in_spans(spans, 0);
    assert_eq!(result.len(), 1);
    assert_eq!(result[0].0.as_str(), "Hello");
}

#[test]
fn render_utils_skip_chars_in_spans_single_span() {
    let spans = vec![("Hello World".to_string(), Style::default())];
    let result = skip_chars_in_spans(spans, 6);
    assert_eq!(result.len(), 1);
    assert_eq!(result[0].0.as_str(), "World");
}

#[test]
fn render_utils_skip_chars_in_spans_multi_span_preserves_style() {
    let spans = vec![
        ("Hello".to_string(), Style::default().fg(Color::Red)),
        (" World".to_string(), Style::default().fg(Color::Blue)),
    ];
    let result = skip_chars_in_spans(spans, 7);
    assert_eq!(result.len(), 1);
    assert_eq!(result[0].0.as_str(), "orld");
    assert_eq!(result[0].1, Style::default().fg(Color::Blue));
}

#[test]
fn render_utils_skip_chars_in_spans_skip_exceeding_total_returns_empty() {
    let spans = vec![("Hello".to_string(), Style::default())];
    let result = skip_chars_in_spans(spans, 10);
    assert!(result.is_empty());
}

#[test]
fn render_utils_skip_chars_in_spans_multibyte_chars() {
    // "→" is 3 bytes but 1 character; skip counts characters, not bytes
    let spans = vec![(" → hello".to_string(), Style::default())];
    let result = skip_chars_in_spans(spans, 3);
    assert_eq!(result.len(), 1);
    assert_eq!(result[0].0.as_str(), "hello");
}

#[test]
fn render_utils_skip_chars_in_spans_skip_zero_returns_unchanged() {
    let spans = vec![("Hello".to_string(), Style::default())];
    let result = skip_chars_in_spans(spans, 0);
    assert_eq!(result.len(), 1);
    assert_eq!(result[0].0.as_str(), "Hello");
}

#[test]
fn skip_chars_drops_wholly_skipped_spans_and_keeps_later_ones() {
    let spans = vec![("ab".to_string(), 1u8), ("".to_string(), 2u8), ("cd".to_string(), 3u8), ("".to_string(), 4u8)];
    let result = skip_chars_in_spans(spans, 2);
    // the empty span after the skipped prefix stays, with its style
    assert_eq!(result, vec![("".to_string(), 2u8), ("cd".to_string(), 3u8), ("".to_string(), 4u8)]);
    let spans = vec![("ab".to_string(), 1u8), ("cd".to_string(), 3u8)];
    assert_eq!(skip_chars_in_spans(spans, 3), vec![("d".to_string(), 3u8)]);
}

#[test]
fn highlight_spans_marks_single_match() {
    let spans = build_highlighted_spans("  :10 ", "hello world", "world");
    // prefix + "hello " + "world"
    assert_eq!(spans.len(), 3);
    assert_eq!(spans[0].0, "  :10 ");
    assert_eq!(spans[1].0, "hello ");
    assert_eq!(spans[2].0, "world");
    assert!(spans[2].1);
}

#[test]
fn highlight_spans_case_insensitive() {
    let spans = build_highlighted_spans("", "Hello WORLD", "hello");
    // prefix("") + "Hello" (highlighted) + " WORLD"
    assert_eq!(spans.len(), 3);
    assert_eq!(spans[1].0, "Hello"); // preserves original casing
    assert!(spans[1].1);
    assert_eq!(spans[2].0, " WORLD");
}

#[test]
fn highlight_spans_multiple_occurrences() {
    let spans = build_highlighted_spans("", "abcabc", "abc");
    // prefix("") + "abc" (hl) + "abc" (hl)
    assert_eq!(spans.len(), 3);
    assert!(spans[1..].iter().all(|s| s.1));
}

#[test]
fn highlight_spans_no_match_returns_full_text() {
    let spans = build_highlighted_spans("", "hello", "xyz");
    // prefix("") + "hello"
    assert_eq!(spans.len(), 2);
    assert_eq!(spans[1].0, "hello");
    assert!(!spans[1].1);
}

#[test]
fn highlight_spans_empty_query_no_highlight() {
    let spans = build_highlighted_spans("P ", "text", "");
    assert_eq!(spans.len(), 2); // prefix + text
    assert_eq!(spans[0].0, "P ");
    assert_eq!(spans[1].0, "text");
}

#[test]
fn highlight_spans_matches_do_not_overlap() {
    let spans = build_highlighted_spans("", "aaaa", "aa");
    let got: Vec<(&str, bool)> = spans.iter().map(|(t, m)| (t.as_str(), *m)).collect();
    assert_eq!(got, vec![("", false), ("aa", true), ("aa", true)]);
    let spans = build_highlighted_spans(":", "xAbyab", "AB");
    let got: Vec<(&str, bool)> = spans.iter().map(|(t, m)| (t.as_str(), *m)).collect();
    assert_eq!(got, vec![(":", false), ("x", false), ("Ab", true), ("y", false), ("ab", true)]);
}
