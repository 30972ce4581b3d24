use gati::comments::{Comment, CommentListEntry};
use gati::file_tree::{ContentSearchEntry, ContentSearchState, FileTree};
use gati::file_viewer::{comment_block_text, editor_row_text, range_label_string, CommentEditState};
use gati::git_status::{FileStatus, GitStatus, StatusFlags};
use gati::pane_text::{
    comment_list_row_text, header_row_text, line_label_string, search_row_segments, truncate_end, truncate_start, EntryMarker,
};
use gati::tree::TreeEntry;

const ROOT: &str = "/work";

fn search_state(query: &str, searching: bool, entries: Vec<ContentSearchEntry>, match_count: usize) -> ContentSearchState {
    ContentSearchState {
        query: query.to_string(),
        entries,
        selected: 0,
        scroll_offset: 0,
        match_count,
        searching,
        saved_entries: Vec::new(),
        saved_selected: 0,
        saved_scroll_offset: 0,
        root: ROOT.to_string(),
    }
}

#[test]
fn truncate_start_keeps_the_end_behind_an_ellipsis() {
    assert_eq!(truncate_start("src/main.rs", 20), "src/main.rs");
    assert_eq!(truncate_start("src/main.rs", 5), "…n.rs");
    assert_eq!(truncate_start("abc", 0), "…");
    assert_eq!(truncate_start("日本語のファイル", 4), "…ァイル");
}

#[test]
fn truncate_end_cuts_on_a_character_boundary() {
    assert_eq!(truncate_end("hello world", 20), "hello world");
    assert_eq!(truncate_end("hello world", 8), "hello...");
    // "é" takes two bytes and is never split
    assert_eq!(truncate_end("héllo", 5), "h...");
    assert_eq!(truncate_end("héllo", 6), "héllo");
    assert_eq!(truncate_end("héllo wörld", 7), "hél...");
    assert_eq!(truncate_end("abcdef", 2), "...");
}

#[test]
fn comment_list_rows_fit_the_width() {
    let header = CommentListEntry::Header { file: format!("{ROOT}/src/lib.rs"), display_name: "src/lib.rs".into() };
    assert_eq!(comment_list_row_text(&header, 40), "▼ src/lib.rs");
    assert_eq!(comment_list_row_text(&header, 10), "▼ …ib.rs");
    let one = CommentListEntry::Comment { file: String::new(), start_line: 3, end_line: 3, text: "Fix the loop bound".into() };
    assert_eq!(comment_list_row_text(&one, 40), "  :3 Fix the loop bound");
    let range = CommentListEntry::Comment { file: String::new(), start_line: 3, end_line: 12, text: "Fix the loop bound".into() };
    // width 20 leaves 20 - (5 + 4) = 11 bytes for the text
    assert_eq!(comment_list_row_text(&range, 20), "  :3-12 Fix the ...");
    assert_eq!(header_row_text("x", 0), "▼ …");
    assert_eq!(line_label_string(7, 7), ":7");
    assert_eq!(line_label_string(7, 9), ":7-9");
}

#[test]
fn search_rows_mark_the_query_in_the_preview() {
    let m = ContentSearchEntry::Match { file: format!("{ROOT}/a.rs"), line_number: 42, text_preview: "let Value = value;".into() };
    let segs = search_row_segments(&m, 40, "value");
    let got: Vec<(&str, bool)> = segs.iter().map(|(t, b)| (t.as_str(), *b)).collect();
    assert_eq!(got, vec![("  :42 ", false), ("let ", false), ("Value", true), (" = ", false), ("value", true), (";", false)]);
    let h = ContentSearchEntry::Header { display_name: "a.rs".into() };
    assert_eq!(search_row_segments(&h, 40, "value"), vec![("▼ a.rs".to_string(), false)]);
    // width 12 leaves 12 - (3 + 4) = 5 bytes: two characters and "..."
    let segs = search_row_segments(&m, 12, "le");
    let got: Vec<(&str, bool)> = segs.iter().map(|(t, b)| (t.as_str(), *b)).collect();
    assert_eq!(got, vec![("  :42 ", false), ("le", true), ("...", false)]);
}

#[test]
fn search_titles_and_notices() {
    let short = search_state("a", false, Vec::new(), 0);
    assert_eq!(short.title(), " Search [a] ");
    assert_eq!(short.notice(), Some("Type 2+ chars to search".to_string()));
    let running = search_state("ab", true, Vec::new(), 0);
    assert_eq!(running.title(), " Search [ab] (searching...) ");
    assert_eq!(running.notice(), None);
    let none = search_state("ab", false, Vec::new(), 0);
    assert_eq!(none.title(), " Search [ab] (no matches) ");
    assert_eq!(none.notice(), Some("No matches".to_string()));
    let found = search_state("ab", false, vec![ContentSearchEntry::Header { display_name: "x".into() }], 12);
    assert_eq!(found.title(), " Search [ab] (12 matches) ");
    assert_eq!(found.notice(), None);
}

#[test]
fn tree_titles_follow_the_mode() {
    let mut tree = FileTree::new(ROOT, vec![TreeEntry::file(format!("{ROOT}/a.rs"), 0)], None);
    assert_eq!(tree.title(), " Files ");
    tree.model.filter_changed = true;
    assert_eq!(tree.title(), " Changed Files ");
    tree.enter_search();
    if let Some(s) = tree.search.as_mut() {
        s.query = "ma".into();
    }
    assert_eq!(tree.title(), " Files [/ma] ");
}

fn modified() -> StatusFlags {
    StatusFlags {
        index_new: false,
        index_modified: false,
        index_deleted: false,
        index_renamed: false,
        index_typechange: false,
        wt_new: false,
        wt_modified: true,
        wt_deleted: false,
        wt_typechange: false,
        wt_renamed: false,
    }
}

#[test]
fn entry_rows_show_indent_arrow_marker_and_comments() {
    let gs = GitStatus::from_listing(vec![(format!("{ROOT}/src/lib.rs"), modified())]);
    let tree = FileTree::new(ROOT, vec![TreeEntry::directory(format!("{ROOT}/src"), 0)], Some(gs));
    let commented = vec![format!("{ROOT}/src/lib.rs")];

    let dir = tree.model.entries[0].clone();
    let row = tree.entry_row(&dir, &commented);
    assert_eq!(row.text, "▶ src");
    assert_eq!(row.marker, Some(EntryMarker::ChangedBelow));
    assert!(row.has_comments);

    let mut file = TreeEntry::file(format!("{ROOT}/src/lib.rs"), 1);
    file.git_status = Some(FileStatus::Modified);
    let row = tree.entry_row(&file, &commented);
    assert_eq!(row.text, "    lib.rs");
    assert_eq!(row.marker, Some(EntryMarker::Status(FileStatus::Modified)));
    assert!(row.has_comments);

    let other = TreeEntry::file(format!("{ROOT}/src/libx.rs"), 1);
    let row = tree.entry_row(&other, &commented);
    assert_eq!(row.marker, None);
    assert!(!row.has_comments);

    let mut open = TreeEntry::directory(format!("{ROOT}/srcx"), 0);
    open.is_expanded = true;
    let row = tree.entry_row(&open, &commented);
    assert_eq!(row.text, "▼ srcx");
    assert_eq!(row.marker, None);
    assert!(!row.has_comments, "a sibling with a longer name is not below the directory");
}

#[test]
fn inline_comment_and_editor_rows() {
    let c = Comment { file: "f".into(), start_line: 2, end_line: 4, text: "why".into(), code_context: vec![] };
    assert_eq!(comment_block_text(&c, false), "  💬 L2-4: why");
    assert_eq!(comment_block_text(&c, true), "  ⚠\u{fe0f} L2-4: why");
    assert_eq!(range_label_string(5, 5), "L5");
    let edit = CommentEditState { start_line: 3, target_line: 3, text: "abcdef".into() };
    // the prefix "  ✏️ L3: " is 9 characters; width 40 shows all the text
    assert_eq!(editor_row_text(&edit, 40), "  ✏\u{fe0f} L3: abcdef█");
    // width 13 leaves 13 - (9 + 1) = 3 characters: the end of the text
    assert_eq!(editor_row_text(&edit, 13), "  ✏\u{fe0f} L3: def█");
}
