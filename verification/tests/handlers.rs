use gati::components::{Action, Key, KeyCode};
use gati::file_tree::{FileTree, TapTimer, TreeCommand};
use gati::tree::TreeEntry;

fn key(code: KeyCode) -> Key {
    Key::plain(code)
}

fn tree(files: &[&str], dirs: &[&str]) -> FileTree {
    let mut v = Vec::new();
    for d in dirs {
        v.push(TreeEntry::directory(format!("/w/{d}"), 0));
    }
    for f in files {
        v.push(TreeEntry::file(format!("/w/{f}"), 0));
    }
    FileTree::new("/w", v, None)
}

#[test]
fn move_down_with_j_selects_next_entry() {
    let mut t = tree(&["a.rs", "b.rs", "c.rs"], &[]);
    let r = t.handle_key(&key(KeyCode::Char('j')), false, false);
    assert_eq!(t.model.selected, 1);
    assert!(matches!(r.action, Action::FileSelected(_)));
}

#[test]
fn selection_clamped_at_bottom_and_top() {
    let mut t = tree(&["a.rs", "b.rs"], &[]);
    t.model.selected = 1;
    t.handle_key(&key(KeyCode::Char('j')), false, false);
    assert_eq!(t.model.selected, 1);
    t.model.selected = 0;
    t.handle_key(&key(KeyCode::Char('k')), false, false);
    assert_eq!(t.model.selected, 0);
}

#[test]
fn l_on_collapsed_directory_asks_for_scan() {
    let mut t = tree(&[], &["sub"]);
    let r = t.handle_key(&key(KeyCode::Char('l')), false, false);
    assert_eq!(r.command, TreeCommand::ExpandSelected);
    assert_eq!(r.expand_timer, TapTimer::Start);
    t.model.toggle_expand(vec![TreeEntry::file(String::from("/w/sub/child.rs"), 1)]);
    assert!(t.model.entries[0].is_expanded);
    let r = t.handle_key(&key(KeyCode::Char('l')), true, false);
    assert_eq!(r.command, TreeCommand::ExpandAllBelowSelected);
    assert_eq!(r.expand_timer, TapTimer::Clear);
}

#[test]
fn h_collapses_expanded_directory() {
    let mut t = tree(&[], &["sub"]);
    t.model.toggle_expand(vec![TreeEntry::file(String::from("/w/sub/child.rs"), 1)]);
    let r = t.handle_key(&key(KeyCode::Char('h')), false, false);
    assert_eq!(r.action, Action::NoAction);
    assert_eq!(r.collapse_timer, TapTimer::Start);
    assert!(!t.model.entries[0].is_expanded);
    assert_eq!(t.model.entries.len(), 1);
}

#[test]
fn h_on_child_folds_parent() {
    let mut t = tree(&[], &["sub"]);
    t.model.toggle_expand(vec![TreeEntry::file(String::from("/w/sub/child.rs"), 1)]);
    t.model.selected = 1;
    t.handle_key(&key(KeyCode::Char('h')), false, false);
    assert_eq!(t.model.selected, 0);
    assert!(!t.model.entries[0].is_expanded);
}

#[test]
fn enter_opens_file_and_tab_switches_and_q_quits() {
    let mut t = tree(&["a.rs"], &[]);
    let r = t.handle_key(&key(KeyCode::Enter), false, false);
    assert_eq!(r.action, Action::FileOpened(String::from("/w/a.rs")));
    assert_eq!(t.handle_key(&key(KeyCode::Tab), false, false).action, Action::SwitchFocus);
    assert_eq!(t.handle_key(&key(KeyCode::Char('q')), false, false).action, Action::Quit);
    assert_eq!(t.handle_key(&key(KeyCode::Char('c')), false, false).action, Action::EnterCommentList);
    assert_eq!(t.handle_key(&key(KeyCode::Char('g')), false, false).command, TreeCommand::ToggleFilter);
}

#[test]
fn slash_enters_search_and_esc_restores() {
    let mut t = tree(&["a.rs", "b.rs"], &[]);
    t.model.selected = 1;
    t.handle_key(&key(KeyCode::Char('/')), false, false);
    assert!(t.search.is_some());
    let r = t.handle_key(&key(KeyCode::Char('x')), false, false);
    assert_eq!(r.command, TreeCommand::RunFileSearch);
    assert_eq!(t.search.as_ref().unwrap().query, "x");
    t.apply_search_results(vec![]);
    assert!(t.model.entries.is_empty());
    t.handle_key(&key(KeyCode::Esc), false, false);
    assert!(t.search.is_none());
    assert_eq!(t.model.entries.len(), 2);
    assert_eq!(t.model.selected, 1);
}

#[test]
fn backspace_to_empty_query_restores_saved_entries() {
    let mut t = tree(&["a.rs", "b.rs"], &[]);
    t.handle_key(&key(KeyCode::Char('/')), false, false);
    t.handle_key(&key(KeyCode::Char('a')), false, false);
    t.apply_search_results(vec![TreeEntry::file(String::from("/w/a.rs"), 0)]);
    assert_eq!(t.model.entries.len(), 1);
    t.handle_key(&key(KeyCode::Backspace), false, false);
    t.apply_search_results(vec![]);
    assert_eq!(t.model.entries.len(), 2);
}

#[test]
fn content_search_keys_edit_query() {
    let mut t = tree(&["a.rs"], &[]);
    t.enter_content_search();
    let r = t.handle_key(&key(KeyCode::Char('h')), false, false);
    assert_eq!(r.action, Action::ContentSearchRequested);
    assert_eq!(t.content_search.as_ref().unwrap().query, "h");
    t.handle_key(&key(KeyCode::Backspace), false, false);
    assert_eq!(t.content_search.as_ref().unwrap().query, "");
    t.handle_key(&key(KeyCode::Esc), false, false);
    assert!(t.content_search.is_none());
}
