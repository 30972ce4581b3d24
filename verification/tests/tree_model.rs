use gati::tree::{content_matches, ContentMatch, FileTreeModel, TreeEntry};

const ROOT: &str = "/work";

fn full(rel: &str) -> String {
    format!("{ROOT}/{rel}")
}

/// The scan of the root of a directory with these files and subdirectories.
fn scan_root(files: &[&str], dirs: &[&str]) -> Vec<TreeEntry> {
    let mut v = Vec::new();
    for d in dirs {
        if !d.contains('/') {
            v.push(TreeEntry::directory(full(d), 0));
        }
    }
    for f in files {
        if !f.contains('/') {
            v.push(TreeEntry::file(full(f), 0));
        }
    }
    v
}

fn names(model: &FileTreeModel) -> Vec<String> {
    model.entries.iter().map(|e| e.name().to_string()).collect()
}

#[test]
fn model_from_dir_lists_root_contents_sorted() {
    let model = FileTreeModel::from_dir(ROOT, scan_root(&["b.rs", "a.rs"], &["src"]), None);
    assert_eq!(names(&model), vec!["src", "a.rs", "b.rs"]);
}

#[test]
fn model_from_dir_selects_first_entry() {
    let model = FileTreeModel::from_dir(ROOT, scan_root(&["file.txt"], &[]), None);
    assert_eq!(model.selected, 0);
}

fn sub_children() -> Vec<TreeEntry> {
    vec![TreeEntry::file(full("sub/child.rs"), 1)]
}

#[test]
fn toggle_expand_expands_collapsed_directory() {
    let mut model = FileTreeModel::from_dir(ROOT, scan_root(&[], &["sub"]), None);
    assert!(model.entries[0].is_directory);
    assert!(!model.entries[0].is_expanded);
    model.selected = 0;
    model.toggle_expand(sub_children());
    assert!(model.entries[0].is_expanded);
    assert!(model.entries.len() > 1);
    assert_eq!(model.entries[1].name(), "child.rs");
}

#[test]
fn toggle_expand_collapses_expanded_directory() {
    let mut model = FileTreeModel::from_dir(ROOT, scan_root(&[], &["sub"]), None);
    model.selected = 0;
    model.toggle_expand(sub_children());
    let expanded_len = model.entries.len();
    model.selected = 0;
    model.toggle_expand(Vec::new());
    assert!(!model.entries[0].is_expanded);
    assert!(model.entries.len() < expanded_len);
}

#[test]
fn toggle_expand_on_file_is_noop() {
    let mut model = FileTreeModel::from_dir(ROOT, scan_root(&["file.txt"], &[]), None);
    let len_before = model.entries.len();
    model.selected = 0;
    model.toggle_expand(Vec::new());
    assert_eq!(model.entries.len(), len_before);
}

#[test]
fn toggle_expand_on_empty_directory() {
    let mut model = FileTreeModel::from_dir(ROOT, scan_root(&[], &["empty"]), None);
    assert_eq!(model.entries[0].name(), "empty");
    model.selected = 0;
    model.toggle_expand(Vec::new());
    assert!(model.entries[0].is_expanded);
    assert_eq!(model.entries.len(), 1);
}

/// Search files as the walk does: by name ignoring ASCII case, each file's
/// lines up to the first that is not UTF-8, stopping at `max` matches.
fn search(files: &[(&str, &[u8])], query: &str, max: usize) -> Vec<ContentMatch> {
    let mut sorted: Vec<&(&str, &[u8])> = files.iter().collect();
    sorted.sort_by_key(|(n, _)| n.to_ascii_lowercase());
    let mut out: Vec<ContentMatch> = Vec::new();
    for (name, bytes) in sorted {
        if out.len() >= max {
            break;
        }
        let mut lines: Vec<String> = Vec::new();
        for raw in bytes.split(|b| *b == b'\n') {
            match std::str::from_utf8(raw) {
                Ok(s) => lines.push(s.strip_suffix('\r').unwrap_or(s).to_string()),
                Err(_) => break,
            }
        }
        if bytes.ends_with(b"\n") {
            lines.pop();
        }
        let room = max - out.len();
        let head = &bytes[..bytes.len().min(512)];
        out.extend(content_matches(&full(name), head, &lines, query, room));
    }
    out
}

#[test]
fn search_file_contents_finds_matching_lines() {
    let files: Vec<(&str, &[u8])> = vec![
        ("hello.txt", b"line one\nfind me here\nline three"),
        ("world.rs", b"fn main() {}\nfind me too"),
    ];
    let results = search(&files, "find me", 100);
    assert_eq!(results.len(), 2);
    assert!(results.iter().all(|m| m.line_text.contains("find me")));
}

#[test]
fn search_file_contents_case_insensitive() {
    let files: Vec<(&str, &[u8])> = vec![("test.txt", b"Hello World\nhello world\nHELLO WORLD")];
    let results = search(&files, "hello", 100);
    assert_eq!(results.len(), 3, "Case-insensitive search should match all three lines");
}

#[test]
fn search_file_contents_respects_max_matches() {
    let content = (0..100).map(|i| format!("match line {i}")).collect::<Vec<_>>().join("\n");
    let files: Vec<(&str, &[u8])> = vec![("many.txt", content.as_bytes())];
    let results = search(&files, "match", 5);
    assert_eq!(results.len(), 5, "Should stop at max_matches");
}

#[test]
fn search_file_contents_skips_binary_files() {
    let files: Vec<(&str, &[u8])> = vec![
        ("text.txt", b"searchable text"),
        ("binary.bin", b"\x00\x01\x02searchable\x03"),
    ];
    let results = search(&files, "searchable", 100);
    assert_eq!(results.len(), 1, "Should only find match in text file, not binary");
    assert!(results[0].file.ends_with("text.txt"));
}

#[test]
fn search_file_contents_returns_correct_line_numbers() {
    let files: Vec<(&str, &[u8])> = vec![("lines.txt", b"alpha\nbeta\ngamma\nbeta again")];
    let results = search(&files, "beta", 100);
    assert_eq!(results.len(), 2);
    assert_eq!(results[0].line_number, 2);
    assert_eq!(results[1].line_number, 4);
}

#[test]
fn search_file_contents_trims_line_text() {
    let files: Vec<(&str, &[u8])> = vec![("spaces.txt", b"  leading spaces  \n\ttabbed\t")];
    let results = search(&files, "leading", 100);
    assert_eq!(results[0].line_text, "leading spaces");
    let results = search(&files, "tabbed", 100);
    assert_eq!(results[0].line_text, "tabbed");
}

// Refreshing rebuilds the tree from new listings of the directories.

#[test]
fn refresh_tree_picks_up_new_root_file() {
    let mut model = FileTreeModel::from_dir(ROOT, scan_root(&["a.rs"], &[]), None);
    assert_eq!(model.entries.len(), 1);
    // b.rs was created
    model.refresh_tree(scan_root(&["a.rs", "b.rs"], &[]), Vec::new());
    let names = names(&model);
    assert!(names.contains(&"b.rs".to_string()), "New file should appear after refresh");
    assert!(names.contains(&"a.rs".to_string()), "Existing file should still be present");
}

#[test]
fn refresh_tree_removes_deleted_file() {
    let mut model = FileTreeModel::from_dir(ROOT, scan_root(&["a.rs", "b.rs"], &[]), None);
    assert_eq!(model.entries.len(), 2);
    // b.rs was removed
    model.refresh_tree(scan_root(&["a.rs"], &[]), Vec::new());
    let names = names(&model);
    assert!(names.contains(&"a.rs".to_string()));
    assert!(!names.contains(&"b.rs".to_string()), "Deleted file should be gone after refresh");
}

#[test]
fn refresh_tree_preserves_expanded_directories() {
    let mut model = FileTreeModel::from_dir(ROOT, scan_root(&["other.rs"], &["sub"]), None);
    model.selected = 0; // sub directory
    model.toggle_expand(sub_children());
    assert!(model.entries[0].is_expanded);
    assert_eq!(model.entries[1].name(), "child.rs");
    // new.rs was created at the root; the expanded directory is listed again
    let expanded = model.expanded_paths();
    assert_eq!(expanded, vec![full("sub")]);
    let scans: Vec<(String, Vec<TreeEntry>)> = expanded.into_iter().map(|p| (p, sub_children())).collect();
    model.refresh_tree(scan_root(&["other.rs", "new.rs"], &["sub"]), scans);
    let sub = model.entries.iter().find(|e| e.name() == "sub").unwrap();
    assert!(sub.is_expanded, "Expanded directory should stay expanded after refresh");
    let names = names(&model);
    assert!(names.contains(&"child.rs".to_string()), "Children of expanded dir should be present");
    assert!(names.contains(&"new.rs".to_string()), "New file should appear");
}

#[test]
fn refresh_tree_preserves_selection() {
    let mut model = FileTreeModel::from_dir(ROOT, scan_root(&["a.rs", "b.rs", "c.rs"], &[]), None);
    let b_idx = model.entries.iter().position(|e| e.name() == "b.rs").unwrap();
    model.selected = b_idx;
    // d.rs was created
    model.refresh_tree(scan_root(&["a.rs", "b.rs", "c.rs", "d.rs"], &[]), Vec::new());
    assert_eq!(model.entries[model.selected].name(), "b.rs", "Selection should be preserved after refresh");
}

#[test]
fn root_listing_check_rejects_deep_and_expanded_entries() {
    assert!(gati::tree::is_root_listing(&scan_root(&["a.rs"], &["src"])));
    assert!(gati::tree::is_root_listing(&vec![TreeEntry::directory(full(".git"), 0)]));
    assert!(!gati::tree::is_root_listing(&vec![TreeEntry::file(full("src/a.rs"), 1)]));
    let mut open = TreeEntry::directory(full("src"), 0);
    open.is_expanded = true;
    assert!(!gati::tree::is_root_listing(&vec![open]));
}

#[test]
fn model_from_dir_never_shows_git_directory() {
    let model = FileTreeModel::from_dir(ROOT, scan_root(&[".gitignore", "a.rs"], &[".git", ".github"]), None);
    assert_eq!(names(&model), vec![".github", ".gitignore", "a.rs"]);
}

#[test]
fn filter_toggle_never_shows_git_directory() {
    let mut model = FileTreeModel::from_dir(ROOT, scan_root(&["a.rs"], &[]), None);
    model.toggle_filter(scan_root(&["a.rs"], &[".git"]));
    assert_eq!(names(&model), vec!["a.rs"]);
}

#[test]
fn dropping_git_keeps_the_other_entries_in_order() {
    let kept = gati::tree::drop_git_entries(vec![
        TreeEntry::file(full("b.rs"), 0),
        TreeEntry::directory(full(".git"), 0),
        TreeEntry::directory(full(".github"), 0),
        TreeEntry::file(full("a.rs"), 0),
    ]);
    let names: Vec<&str> = kept.iter().map(|e| e.name()).collect();
    assert_eq!(names, vec!["b.rs", ".github", "a.rs"]);
}

fn lines_of(v: &[&str]) -> Vec<String> {
    v.iter().map(|s| s.to_string()).collect()
}

#[test]
fn content_search_stops_at_the_match_limit_across_files() {
    let mut found: Vec<ContentMatch> = Vec::new();
    gati::tree::add_file_matches(&mut found, "/work/a.rs", 10, b"todo", &lines_of(&["TODO one", "todo two"]), "todo", 3);
    assert_eq!(found.len(), 2);
    gati::tree::add_file_matches(&mut found, "/work/b.rs", 10, b"todo", &lines_of(&["todo three", "todo four"]), "todo", 3);
    assert_eq!(found.len(), 3);
    assert_eq!(found[2].file, "/work/b.rs");
    assert_eq!(found[2].line_number, 1);
    assert_eq!(found[2].line_text, "todo three");
    gati::tree::add_file_matches(&mut found, "/work/c.rs", 10, b"todo", &lines_of(&["todo five"]), "todo", 3);
    assert_eq!(found.len(), 3);
    assert!(gati::tree::search_full(found.len(), 3));
}

#[test]
fn content_search_skips_files_over_one_mebibyte() {
    let mut found: Vec<ContentMatch> = Vec::new();
    gati::tree::add_file_matches(&mut found, "/work/big.log", 1_048_577, b"x", &lines_of(&["needle"]), "needle", 10);
    assert!(found.is_empty());
    gati::tree::add_file_matches(&mut found, "/work/edge.log", 1_048_576, b"x", &lines_of(&["needle"]), "needle", 10);
    assert_eq!(found.len(), 1);
    assert!(!gati::tree::file_searched(0, 10, 1_048_577));
    assert!(gati::tree::file_searched(0, 10, 1_048_576));
    assert!(!gati::tree::file_searched(10, 10, 5));
}

#[test]
fn depth_limit_check_flags_an_entry_at_the_largest_depth() {
    let mut model = FileTreeModel::from_dir(ROOT, scan_root(&["a.rs"], &["src"]), None);
    assert!(model.depths_in_limits());
    model.entries.push(TreeEntry::file(full("deep.rs"), usize::MAX));
    assert!(!model.depths_in_limits());
}
