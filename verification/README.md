# gati

A terminal tool for reviewing code: a file tree, a file viewer with git
diffs, and inline comments that can be exported to the clipboard.

The logic of the tool is a library proved with Verus; a thin program drives
the terminal around it.

- `src/` — the verified library. Every operation states its result in its
  contract, over mathematical models (sequences of characters for text,
  sequences of entries for the tree and the comment list).
  - `tree.rs`, `file_tree.rs`: the tree model (sorting, expanding, filtering
    changed files, refreshing, filename and content search) and the tree
    pane's state and keys.
  - `file_viewer/`: the viewer's cursor, scrolling, selections, diff mode,
    minimap markers and the layout of code rows and inline comments.
  - `comments.rs`: the comment store (add, find, delete, stale detection and
    relocation, export text).
  - `app/`: the application's decisions: keys, mouse, actions, and the
    effects that the program carries out.
  - `diff.rs`, `git_status.rs`: line and unified diffs from libgit2's hunks,
    and the status markers of files and directories.
  - `pane_text.rs`: titles and row texts of the tree pane.
  - `paths.rs`, `text.rs`, `unicode.rs`, `clipboard.rs`, `bug_report.rs`,
    `startup.rs`: paths, strings, UTF-8 offsets, the OSC 52 sequence, issue
    URLs and the startup target.
- `app/` — the program: arguments, the terminal, the event loop, disk and git
  access, the file watcher, syntax highlighting and drawing.
- `tests/` — tests of the library.
