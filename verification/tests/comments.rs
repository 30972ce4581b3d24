use gati::comments::{Comment, CommentStore};


#[test]
fn add_and_retrieve_single_line_comment() {
    let mut store = CommentStore::new();
    let file = String::from("/tmp/test.rs");
    store.add(&file, 5, 5, "Fix this".into(), vec![]);

    let comments = store.for_file(&file);
    assert_eq!(comments.len(), 1);
    assert_eq!(comments[0].start_line, 5);
    assert_eq!(comments[0].text, "Fix this");
}

#[test]
fn add_and_retrieve_range_comment() {
    let mut store = CommentStore::new();
    let file = String::from("/tmp/test.rs");
    store.add(&file, 10, 15, "Refactor this block".into(), vec![]);

    let comments = store.for_file(&file);
    assert_eq!(comments.len(), 1);
    assert_eq!(comments[0].start_line, 10);
    assert_eq!(comments[0].end_line, 15);
}

#[test]
fn replace_comment_on_same_range() {
    let mut store = CommentStore::new();
    let file = String::from("/tmp/test.rs");
    store.add(&file, 5, 5, "Original".into(), vec![]);
    store.add(&file, 5, 5, "Updated".into(), vec![]);

    let comments = store.for_file(&file);
    assert_eq!(comments.len(), 1);
    assert_eq!(comments[0].text, "Updated");
}

#[test]
fn find_at_line_within_range() {
    let mut store = CommentStore::new();
    let file = String::from("/tmp/test.rs");
    store.add(&file, 10, 15, "Range comment".into(), vec![]);

    assert!(store.find_at_line(&file, 12).is_some());
    assert!(store.find_at_line(&file, 10).is_some());
    assert!(store.find_at_line(&file, 15).is_some());
    assert!(store.find_at_line(&file, 9).is_none());
    assert!(store.find_at_line(&file, 16).is_none());
}

#[test]
fn delete_comment() {
    let mut store = CommentStore::new();
    let file = String::from("/tmp/test.rs");
    store.add(&file, 5, 5, "Delete me".into(), vec![]);

    assert!(store.delete(&file, 5, 5));
    assert!(store.for_file(&file).is_empty());
}

#[test]
fn delete_nonexistent_returns_false() {
    let mut store = CommentStore::new();
    let file = String::from("/tmp/test.rs");
    assert!(!store.delete(&file, 5, 5));
}

#[test]
fn for_file_returns_sorted_by_start_line() {
    let mut store = CommentStore::new();
    let file = String::from("/tmp/test.rs");
    store.add(&file, 20, 20, "Second".into(), vec![]);
    store.add(&file, 5, 5, "First".into(), vec![]);

    let comments = store.for_file(&file);
    assert_eq!(comments[0].start_line, 5);
    assert_eq!(comments[1].start_line, 20);
}

#[test]
fn for_file_filters_by_file() {
    let mut store = CommentStore::new();
    let file_a = String::from("/tmp/a.rs");
    let file_b = String::from("/tmp/b.rs");
    store.add(&file_a, 1, 1, "A comment".into(), vec![]);
    store.add(&file_b, 1, 1, "B comment".into(), vec![]);

    assert_eq!(store.for_file(&file_a).len(), 1);
    assert_eq!(store.for_file(&file_b).len(), 1);
}

#[test]
fn export_single_line_format() {
    let mut store = CommentStore::new();
    let file = String::from("src/main.rs");
    store.add(&file, 5, 5, "Fix this".into(), vec![]);

    let output = store.export();
    assert!(output.contains("## src/main.rs"));
    assert!(output.contains("L5: Fix this"));
}

#[test]
fn export_range_format() {
    let mut store = CommentStore::new();
    let file = String::from("src/main.rs");
    store.add(&file, 10, 15, "Refactor".into(), vec![]);

    let output = store.export();
    assert!(output.contains("L10-15: Refactor"));
}

#[test]
fn export_empty_returns_empty_string() {
    let store = CommentStore::new();
    assert!(store.export().is_empty());
}

#[test]
fn is_empty_works() {
    let mut store = CommentStore::new();
    assert!(store.is_empty());
    store.add("f", 1, 1, "x".into(), vec![]);
    assert!(!store.is_empty());
}

#[test]
fn export_single_line_with_code_context() {
    let mut store = CommentStore::new();
    let file = String::from("src/main.rs");
    store.add(
        &file,
        5,
        5,
        "Fix this".into(),
        vec!["fn example() {".into()],
    );

    let output = store.export();
    assert!(output.contains("L5: Fix this\n"));
    assert!(output.contains("```\n5 | fn example() {\n```"));
}

#[test]
fn export_range_with_code_context() {
    let mut store = CommentStore::new();
    let file = String::from("src/main.rs");
    store.add(
        &file,
        10,
        12,
        "Refactor this".into(),
        vec![
            "fn long_function() {".into(),
            "    let x = 1;".into(),
            "    let y = 2;".into(),
        ],
    );

    let output = store.export();
    assert!(output.contains("L10-12: Refactor this\n"));
    assert!(output.contains("10 | fn long_function() {"));
    assert!(output.contains("11 |     let x = 1;"));
    assert!(output.contains("12 |     let y = 2;"));
}

#[test]
fn is_stale_returns_false_for_empty_code_context() {
    let comment = Comment {
        file: String::from("test.rs"),
        start_line: 1,
        end_line: 1,
        text: "note".into(),
        code_context: vec![],
    };
    let lines = vec!["anything".to_string()];
    assert!(!comment.is_stale(&lines));
}

#[test]
fn is_stale_returns_false_when_lines_match() {
    let comment = Comment {
        file: String::from("test.rs"),
        start_line: 2,
        end_line: 3,
        text: "note".into(),
        code_context: vec!["line2".into(), "line3".into()],
    };
    let lines = vec!["line1".into(), "line2".into(), "line3".into()];
    assert!(!comment.is_stale(&lines));
}

#[test]
fn is_stale_returns_true_when_lines_differ() {
    let comment = Comment {
        file: String::from("test.rs"),
        start_line: 1,
        end_line: 1,
        text: "note".into(),
        code_context: vec!["original".into()],
    };
    let lines = vec!["modified".to_string()];
    assert!(comment.is_stale(&lines));
}

#[test]
fn is_stale_returns_true_when_lines_removed() {
    let comment = Comment {
        file: String::from("test.rs"),
        start_line: 3,
        end_line: 5,
        text: "note".into(),
        code_context: vec!["a".into(), "b".into(), "c".into()],
    };
    // File now only has 2 lines — comment range exceeds file length
    let lines = vec!["x".into(), "y".into()];
    assert!(comment.is_stale(&lines));
}

#[test]
fn files_with_comments_returns_correct_set() {
    let mut store = CommentStore::new();
    let file_a = String::from("/tmp/a.rs");
    let file_b = String::from("/tmp/b.rs");
    store.add(&file_a, 1, 1, "comment a".into(), vec![]);
    store.add(&file_a, 5, 5, "comment a2".into(), vec![]);
    store.add(&file_b, 2, 2, "comment b".into(), vec![]);

    let files = store.files_with_comments();
    assert_eq!(files.len(), 2);
    assert!(files.contains(&file_a));
    assert!(files.contains(&file_b));
}

#[test]
fn export_no_code_context_omits_fenced_block() {
    let mut store = CommentStore::new();
    let file = String::from("src/main.rs");
    store.add(&file, 5, 5, "Fix this".into(), vec![]);

    let output = store.export();
    assert!(output.contains("L5: Fix this"));
    assert!(!output.contains("```"));
}

#[test]
fn is_stale_returns_false_when_lines_shifted() {
    // Comment on L10, then 3 lines inserted before it → code moves to L13
    let comment = Comment {
        file: String::from("test.rs"),
        start_line: 10,
        end_line: 10,
        text: "note".into(),
        code_context: vec!["target_line".into()],
    };
    let mut lines: Vec<String> = (1..=9).map(|i| format!("line{i}")).collect();
    // Insert 3 new lines before the target
    lines.push("inserted1".into());
    lines.push("inserted2".into());
    lines.push("inserted3".into());
    lines.push("target_line".into()); // now at index 12 (L13)
    assert!(!comment.is_stale(&lines));
}

#[test]
fn is_stale_returns_true_when_content_actually_changed() {
    let comment = Comment {
        file: String::from("test.rs"),
        start_line: 2,
        end_line: 3,
        text: "note".into(),
        code_context: vec!["old_a".into(), "old_b".into()],
    };
    // The original code is nowhere in the file
    let lines = vec![
        "line1".into(),
        "new_a".into(),
        "new_b".into(),
        "line4".into(),
    ];
    assert!(comment.is_stale(&lines));
}

#[test]
fn relocate_updates_line_numbers_on_shift() {
    let mut store = CommentStore::new();
    let file = String::from("test.rs");
    store.add(&file, 5, 6, "note".into(), vec!["aa".into(), "bb".into()]);

    // 3 lines inserted at the beginning → original content shifted by 3
    let lines = vec![
        "new1".into(),
        "new2".into(),
        "new3".into(),
        "xx".into(),
        "yy".into(),
        "zz".into(),
        "aa".into(), // index 6 → L7
        "bb".into(), // index 7 → L8
    ];
    store.relocate_comments(&file, &lines);

    let comments = store.for_file(&file);
    assert_eq!(comments[0].start_line, 7);
    assert_eq!(comments[0].end_line, 8);
}

#[test]
fn relocate_picks_nearest_match() {
    let mut store = CommentStore::new();
    let file = String::from("test.rs");
    // Comment at L5 with context "dup"
    store.add(&file, 5, 5, "note".into(), vec!["dup".into()]);

    // "dup" appears at index 1 (L2) and index 6 (L7); L7 is closer to L5
    let lines = vec![
        "x".into(),
        "dup".into(), // index 1, distance |1-4|=3
        "y".into(),
        "z".into(),
        "w".into(),
        "v".into(),
        "dup".into(), // index 6, distance |6-4|=2
        "u".into(),
    ];
    store.relocate_comments(&file, &lines);

    let comments = store.for_file(&file);
    assert_eq!(comments[0].start_line, 7); // index 6 + 1
}

#[test]
fn relocate_noop_when_already_at_correct_position() {
    let mut store = CommentStore::new();
    let file = String::from("test.rs");
    store.add(&file, 2, 3, "note".into(), vec!["aa".into(), "bb".into()]);

    let lines = vec!["xx".into(), "aa".into(), "bb".into(), "yy".into()];
    store.relocate_comments(&file, &lines);

    let comments = store.for_file(&file);
    assert_eq!(comments[0].start_line, 2);
    assert_eq!(comments[0].end_line, 3);
}

#[test]
fn read_after_add_gives_the_written_comment() {
    let mut store = CommentStore::new();
    store.add("/tmp/a.rs", 3, 4, "first".into(), vec![]);
    store.add("/tmp/a.rs", 3, 4, "second".into(), vec!["ctx".into()]);
    let c = store.find_exact("/tmp/a.rs", 3, 4).expect("the comment is found");
    assert_eq!(c.text, "second");
    assert_eq!(c.code_context, vec!["ctx".to_string()]);
    assert!(store.find_exact("/tmp/a.rs", 3, 5).is_none());
}

#[test]
fn delete_after_add_restores_the_store() {
    let mut store = CommentStore::new();
    store.add("/tmp/a.rs", 1, 1, "keep".into(), vec![]);
    store.add("/tmp/b.rs", 2, 2, "keep too".into(), vec![]);
    store.add("/tmp/a.rs", 5, 6, "temporary".into(), vec![]);
    assert!(store.delete("/tmp/a.rs", 5, 6));
    assert_eq!(store.len(), 2);
    assert!(store.find_exact("/tmp/a.rs", 5, 6).is_none());
    assert_eq!(store.find_exact("/tmp/a.rs", 1, 1).map(|c| c.text.clone()), Some("keep".to_string()));
    assert!(!store.delete("/tmp/a.rs", 5, 6));
}

#[test]
fn relocating_twice_changes_nothing_more() {
    let mut store = CommentStore::new();
    store.add("/tmp/a.rs", 2, 3, "moved".into(), vec!["b".into(), "c".into()]);
    let lines: Vec<String> = vec!["x".into(), "y".into(), "a".into(), "b".into(), "c".into()];
    store.relocate_comments("/tmp/a.rs", &lines);
    let once: Vec<(usize, usize)> = store.for_file("/tmp/a.rs").iter().map(|c| (c.start_line, c.end_line)).collect();
    assert_eq!(once, vec![(4, 5)]);
    store.relocate_comments("/tmp/a.rs", &lines);
    let twice: Vec<(usize, usize)> = store.for_file("/tmp/a.rs").iter().map(|c| (c.start_line, c.end_line)).collect();
    assert_eq!(twice, once);
}
