use gati::git_status::FileStatus;

#[test]
fn marker_strings_are_correct() {
    assert_eq!(FileStatus::Modified.marker(), "[M]");
    assert_eq!(FileStatus::Added.marker(), "[A]");
    assert_eq!(FileStatus::Deleted.marker(), "[D]");
    assert_eq!(FileStatus::Renamed.marker(), "[R]");
    assert_eq!(FileStatus::Untracked.marker(), "[?]");
}
