use gati::startup::{resolve_target, terminal_size_error};

#[test]
fn resolve_target_with_directory_returns_dir_and_no_selected_file() {
    let target = resolve_target("src", true, false).unwrap();
    assert_eq!(target.dir, String::from("src"));
    assert_eq!(target.selected_file, None);
}

#[test]
fn resolve_target_with_file_returns_parent_dir_and_selected_file() {
    let target = resolve_target("src/main.rs", true, true).unwrap();
    assert_eq!(target.dir, String::from("src"));
    assert_eq!(target.selected_file, Some(String::from("src/main.rs")));
}

#[test]
fn resolve_target_with_nonexistent_path_returns_error() {
    let result = resolve_target("/nonexistent/path", false, false);
    assert!(result.is_err());
    let err_msg = result.unwrap_err();
    assert!(
        err_msg.contains("does not exist"),
        "Expected 'does not exist' in error message, got: {err_msg}"
    );
}

#[test]
fn resolve_target_with_bare_file_name_uses_empty_parent() {
    let target = resolve_target("main.rs", true, true).unwrap();
    assert_eq!(target.dir, String::from(""));
    assert_eq!(target.selected_file, Some(String::from("main.rs")));
}

#[test]
fn terminal_at_the_minimum_size_is_accepted() {
    assert_eq!(terminal_size_error(40, 10), None);
    assert_eq!(terminal_size_error(200, 60), None);
}

#[test]
fn terminal_below_the_minimum_size_is_refused_with_its_size() {
    assert_eq!(
        terminal_size_error(39, 24),
        Some("Terminal too small (39x24). Minimum size is 40x10.".to_string())
    );
    assert_eq!(
        terminal_size_error(80, 9),
        Some("Terminal too small (80x9). Minimum size is 40x10.".to_string())
    );
}
