use gati::comments::CommentListEntry;
use gati::components::Action;
use gati::file_tree::{ContentSearchEntry, FileTree, SearchState};
use gati::tree::ContentMatch;
use gati::tree::TreeEntry;

fn scanned(root: &str, files: &[&str], dirs: &[&str]) -> Vec<TreeEntry> {
    let mut v = Vec::new();
    for d in dirs {
        v.push(TreeEntry::directory(format!("{root}/{d}"), 0));
    }
    for f in files {
        v.push(TreeEntry::file(format!("{root}/{f}"), 0));
    }
    v
}

fn make_content_search_tree() -> FileTree {
    let root = "/work";
    let mut tree = FileTree::new(root, scanned(root, &["a.rs", "b.rs"], &[]), None);
    tree.enter_content_search();
    let matches = vec![
        ContentMatch { file: format!("{root}/a.rs"), line_number: 10, line_text: "hello world".into() },
        ContentMatch { file: format!("{root}/a.rs"), line_number: 20, line_text: "hello again".into() },
        ContentMatch { file: format!("{root}/b.rs"), line_number: 5, line_text: "hello there".into() },
    ];
    tree.apply_content_search_results(matches);
    tree
}

#[test]
fn content_search_apply_creates_grouped_entries() {
    let tree = make_content_search_tree();
    let cs = tree.content_search.as_ref().unwrap();
    assert_eq!(cs.match_count, 3);
    // 2 headers + 3 matches = 5 entries
    assert_eq!(cs.entries.len(), 5);
    assert!(matches!(cs.entries[0], ContentSearchEntry::Header { .. }));
    assert!(matches!(cs.entries[1], ContentSearchEntry::Match { .. }));
    assert!(matches!(cs.entries[2], ContentSearchEntry::Match { .. }));
    assert!(matches!(cs.entries[3], ContentSearchEntry::Header { .. }));
    assert!(matches!(cs.entries[4], ContentSearchEntry::Match { .. }));
    // Selected should be first Match (index 1)
    assert_eq!(cs.selected, 1);
}

#[test]
fn content_search_headers_show_paths_below_root() {
    let tree = make_content_search_tree();
    let cs = tree.content_search.as_ref().unwrap();
    assert_eq!(cs.root, "/work");
    match &cs.entries[0] {
        ContentSearchEntry::Header { display_name } => assert_eq!(display_name, "a.rs"),
        _ => panic!("expected a header"),
    }
    match &cs.entries[3] {
        ContentSearchEntry::Header { display_name } => assert_eq!(display_name, "b.rs"),
        _ => panic!("expected a header"),
    }
}

#[test]
fn content_search_click_on_match_returns_jump_action() {
    let mut tree = make_content_search_tree();
    // Click row 0 = Header → no action
    let action = tree.click_entry(0);
    assert_eq!(action, Action::NoAction);

    // Click row 1 = first Match
    let action = tree.click_entry(1);
    assert!(matches!(action, Action::CommentJumped { line: 10, .. }));

    // Click row 4 = third Match (b.rs:5)
    let action = tree.click_entry(4);
    assert!(matches!(action, Action::CommentJumped { line: 5, .. }));
}

#[test]
fn content_search_click_updates_selected() {
    let mut tree = make_content_search_tree();
    tree.click_entry(4); // Click on last Match
    let cs = tree.content_search.as_ref().unwrap();
    assert_eq!(cs.selected, 4);
}

#[test]
fn content_search_scroll_down_updates_scroll_offset() {
    let mut tree = make_content_search_tree();
    tree.visible_height = 2;
    tree.scroll_down(1);
    let cs = tree.content_search.as_ref().unwrap();
    assert_eq!(cs.scroll_offset, 1);
}

#[test]
fn content_search_scroll_up_updates_scroll_offset() {
    let mut tree = make_content_search_tree();
    tree.visible_height = 2;
    tree.scroll_down(3);
    tree.scroll_up(1);
    let cs = tree.content_search.as_ref().unwrap();
    assert_eq!(cs.scroll_offset, 2);
}

#[test]
fn content_search_scroll_clamps_at_boundaries() {
    let mut tree = make_content_search_tree();
    tree.visible_height = 2;
    tree.scroll_up(100); // Should clamp at 0
    assert_eq!(tree.content_search.as_ref().unwrap().scroll_offset, 0);
    tree.scroll_down(100); // Should clamp at max
    let cs = tree.content_search.as_ref().unwrap();
    assert_eq!(cs.scroll_offset, cs.entries.len() - tree.visible_height);
}

#[test]
fn content_search_move_skips_headers() {
    let mut tree = make_content_search_tree();
    tree.visible_height = 10;
    assert_eq!(tree.content_search.as_ref().unwrap().selected, 1);
    tree.content_search_move(true);
    assert_eq!(tree.content_search.as_ref().unwrap().selected, 2);
    tree.content_search_move(true);
    assert_eq!(tree.content_search.as_ref().unwrap().selected, 4);
    tree.content_search_move(true);
    assert_eq!(tree.content_search.as_ref().unwrap().selected, 4);
    tree.content_search_move(false);
    assert_eq!(tree.content_search.as_ref().unwrap().selected, 2);
}

#[test]
fn exit_content_search_restores_tree() {
    let mut tree = make_content_search_tree();
    tree.exit_content_search();
    assert!(tree.content_search.is_none());
    assert_eq!(tree.model.entries.len(), 2);
    assert_eq!(tree.model.selected, 0);
}

#[test]
fn new_for_test_is_empty() {
    let s = SearchState::new_for_test();
    assert!(s.query.is_empty());
    assert!(s.saved_entries.is_empty());
    assert_eq!(s.saved_selected, 0);
}

#[test]
fn move_selection_reports_file_under_cursor() {
    let root = "/work";
    let mut tree = FileTree::new(root, scanned(root, &["a.rs", "b.rs", "c.rs"], &[]), None);
    let action = tree.move_selection(1);
    assert_eq!(tree.model.selected, 1);
    assert_eq!(action, Action::FileSelected(String::from("/work/b.rs")));
    tree.move_selection(10);
    assert_eq!(tree.model.selected, 2);
    tree.move_selection(-10);
    assert_eq!(tree.model.selected, 0);
}

#[test]
fn ensure_visible_scrolls_down() {
    let root = "/work";
    let mut tree = FileTree::new(root, scanned(root, &["a.rs", "b.rs", "c.rs", "d.rs", "e.rs"], &[]), None);
    tree.model.selected = 4;
    tree.ensure_visible(3);
    assert_eq!(tree.scroll_offset, 2);
}

#[test]
fn ensure_visible_scrolls_up() {
    let root = "/work";
    let mut tree = FileTree::new(root, scanned(root, &["a.rs", "b.rs", "c.rs"], &[]), None);
    tree.scroll_offset = 2;
    tree.model.selected = 0;
    tree.ensure_visible(3);
    assert_eq!(tree.scroll_offset, 0);
}

#[test]
fn expand_then_fold_to_root_collapses_ancestor() {
    let root = "/work";
    let mut tree = FileTree::new(root, scanned(root, &[], &["parent"]), None);
    tree.visible_height = 40;
    let kids = vec![TreeEntry::file(String::from("/work/parent/child.rs"), 1)];
    tree.expand_at(0, kids);
    assert!(tree.model.entries[0].is_expanded);
    assert_eq!(tree.model.entries.len(), 2);
    tree.model.selected = 1;
    assert_eq!(tree.find_parent_index(), Some(0));
    tree.fold_to_root();
    assert_eq!(tree.model.selected, 0);
    assert!(!tree.model.entries[0].is_expanded);
    assert_eq!(tree.model.entries.len(), 1);
}

#[test]
fn next_collapsed_dir_stops_at_subtree_end() {
    let root = "/work";
    let mut tree = FileTree::new(root, scanned(root, &["z.rs"], &["a", "b"]), None);
    // entries: a/, b/, z.rs — all collapsed at depth 0
    assert_eq!(tree.next_collapsed_dir(0, 0), Some(0));
    let kids = vec![TreeEntry::directory(String::from("/work/a/inner"), 1)];
    tree.expand_at(0, kids);
    // a/ is expanded, its child inner/ is collapsed and in the subtree
    assert_eq!(tree.next_collapsed_dir(0, 1), Some(1));
    // past the subtree (b/ at depth 0) nothing more is found
    assert_eq!(tree.next_collapsed_dir(0, 2), None);
}

#[test]
fn comment_list_selects_first_comment() {
    let root = "/work";
    let mut tree = FileTree::new(root, scanned(root, &["a.rs"], &[]), None);
    tree.enter_comment_list(vec![
        CommentListEntry::Header { file: String::from("/work/a.rs"), display_name: String::from("a.rs") },
        CommentListEntry::Comment { file: String::from("/work/a.rs"), start_line: 3, end_line: 4, text: String::from("note") },
    ]);
    assert!(tree.is_comment_list_mode());
    assert!(matches!(tree.selected_comment(), Some(CommentListEntry::Comment { start_line: 3, .. })));
    tree.exit_comment_list();
    assert!(!tree.is_comment_list_mode());
    assert!(tree.selected_comment().is_none());
}
