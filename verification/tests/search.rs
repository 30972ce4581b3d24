use gati::tree::{content_matches, search_files};

fn walk(items: &[(&str, bool)]) -> Vec<(String, bool, bool)> {
    items.iter().map(|(p, d)| (p.to_string(), *d, !*d)).collect()
}

#[test]
fn search_entries_keeps_matches_and_their_directories() {
    let w = walk(&[
        ("/r/docs", true),
        ("/r/docs/readme.md", false),
        ("/r/src", true),
        ("/r/src/main.rs", false),
        ("/r/src/ui", true),
        ("/r/src/ui/Main_view.rs", false),
    ]);
    let r = search_files("/r", &w, "MAIN");
    let paths: Vec<&str> = r.iter().map(|e| e.path.as_str()).collect();
    assert_eq!(paths, vec!["/r/src", "/r/src/main.rs", "/r/src/ui", "/r/src/ui/Main_view.rs"]);
    assert_eq!(r[0].depth, 0);
    assert!(r[0].is_directory && r[0].is_expanded);
    assert_eq!(r[1].depth, 1);
    assert_eq!(r[3].depth, 2);
    assert!(!r[3].is_directory);
}

#[test]
fn search_entries_matches_file_names_only() {
    let w = walk(&[("/r/main", true), ("/r/main/lib.rs", false)]);
    assert!(search_files("/r", &w, "main").is_empty());
}

#[test]
fn content_matches_finds_lines_case_insensitively() {
    let lines: Vec<String> = vec!["Hello world".into(), "nothing".into(), "  say HELLO  ".into()];
    let m = content_matches("/r/a.rs", b"Hello world\n", &lines, "hello", 10);
    assert_eq!(m.len(), 2);
    assert_eq!(m[0].line_number, 1);
    assert_eq!(m[1].line_number, 3);
    assert_eq!(m[1].line_text, "say HELLO");
    assert_eq!(m[0].file, "/r/a.rs");
}

#[test]
fn content_matches_respects_room() {
    let lines: Vec<String> = vec!["x".into(), "x".into(), "x".into()];
    assert_eq!(content_matches("f", b"x\nx\nx\n", &lines, "x", 2).len(), 2);
    assert_eq!(content_matches("f", b"x\nx\nx\n", &lines, "x", 0).len(), 0);
}

#[test]
fn content_matches_skips_binary_files() {
    let lines: Vec<String> = vec!["ab\0cd".into(), "find me".into()];
    assert!(content_matches("f", b"ab\0cd\nfind me\n", &lines, "find", 5).is_empty());
}

#[test]
fn content_matches_skips_files_with_a_null_byte_after_the_first_line() {
    let lines: Vec<String> = vec!["find me".into(), "x\0y".into()];
    assert!(content_matches("f", b"find me\nx\0y\n", &lines, "find", 5).is_empty());
    // a null byte past the first 512 bytes does not make the file binary
    let mut head = vec![b'a'; 512];
    head.push(0);
    assert_eq!(content_matches("f", &head, &lines, "find", 5).len(), 1);
}
