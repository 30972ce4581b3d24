use gati::tree::{sort_entries, TreeEntry};

#[test]
fn file_entry_is_not_directory_and_not_expanded() {
    let entry = TreeEntry::file(String::from("src/main.rs"), 1);
    assert!(!entry.is_directory);
    assert!(!entry.is_expanded);
    assert_eq!(entry.depth, 1);
}

#[test]
fn directory_entry_is_directory_and_not_expanded() {
    let entry = TreeEntry::directory(String::from("src"), 0);
    assert!(entry.is_directory);
    assert!(!entry.is_expanded);
}

#[test]
fn name_returns_file_name_only() {
    let entry = TreeEntry::file(String::from("src/main.rs"), 1);
    assert_eq!(entry.name(), "main.rs");
}

#[test]
fn name_returns_directory_name_only() {
    let entry = TreeEntry::directory(String::from("src/components"), 1);
    assert_eq!(entry.name(), "components");
}

#[test]
fn sort_entries_puts_directories_before_files() {
    let mut entries = vec![
        TreeEntry::file(String::from("b.rs"), 0),
        TreeEntry::directory(String::from("src"), 0),
        TreeEntry::file(String::from("a.rs"), 0),
    ];
    sort_entries(&mut entries);
    assert!(entries[0].is_directory, "First entry should be a directory");
    assert!(!entries[1].is_directory);
    assert!(!entries[2].is_directory);
}

#[test]
fn sort_entries_alphabetical_case_insensitive() {
    let mut entries = vec![
        TreeEntry::file(String::from("README.md"), 0),
        TreeEntry::file(String::from("api.rs"), 0),
        TreeEntry::file(String::from("Build.rs"), 0),
    ];
    sort_entries(&mut entries);
    let names: Vec<&str> = entries.iter().map(|e| e.name()).collect();
    assert_eq!(names, vec!["api.rs", "Build.rs", "README.md"]);
}
