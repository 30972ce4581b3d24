//! Where the application starts: the directory shown and the file selected.
use vstd::prelude::*;
use crate::paths::{parent_of, parent_path};
use crate::text::{push_str, to_owned_string, decimal, decimal_string};

verus! {

/// Resolved startup target from the command-line path.
#[derive(Debug, PartialEq)]
pub struct StartupTarget {
    /// Directory to display in the file tree.
    pub dir: String,
    /// File to select in the tree (if the user passed a file path).
    pub selected_file: Option<String>,
}

/// The message for a path that does not exist.
pub open spec fn missing_path_message(path: Seq<char>) -> Seq<char> {
    "Path does not exist: "@ + path
}

/// Resolve the command-line `path`, which `exists` on disk and is a file
/// when `is_file` says so, into a directory and an optional selected file:
/// a directory is used as it is; a file gives its parent directory (`.`
/// when it has none) and is selected; a missing path is an error.
pub fn resolve_target(path: &str, exists: bool, is_file: bool) -> (r: Result<StartupTarget, String>)
    ensures
        match r {
            Err(m) => !exists && m@ == missing_path_message(path@),
            Ok(t) => exists && if is_file {
                &&& t.selected_file is Some
                &&& t.selected_file->0@ == path@
                &&& t.dir@ == match parent_of(path@) { Some(p) => p, None => "."@ }
            } else {
                t.selected_file is None && t.dir@ == path@
            },
        },
{
    if !exists {
        let mut m = to_owned_string("Path does not exist: ");
        proof {
            reveal_strlit("Path does not exist: ");
        }
        push_str(&mut m, path);
        return Err(m);
    }
    if is_file {
        let dir = match parent_path(path) {
            Some(p) => p,
            None => to_owned_string("."),
        };
        Ok(StartupTarget { dir, selected_file: Some(to_owned_string(path)) })
    } else {
        Ok(StartupTarget { dir: to_owned_string(path), selected_file: None })
    }
}

/// The narrowest terminal the interface is laid out for.
pub const MIN_WIDTH: u16 = 40;
/// The shortest terminal the interface is laid out for.
pub const MIN_HEIGHT: u16 = 10;

/// The message shown when the terminal is smaller than the minimum.
pub open spec fn too_small_message(width: u16, height: u16) -> Seq<char> {
    "Terminal too small ("@ + decimal(width as nat) + "x"@ + decimal(height as nat)
        + "). Minimum size is "@ + decimal(MIN_WIDTH as nat) + "x"@ + decimal(MIN_HEIGHT as nat) + "."@
}

/// Checks the terminal size before the interface starts: `None` when it is
/// at least the minimum in both directions, else the message to show.
pub fn terminal_size_error(width: u16, height: u16) -> (r: Option<String>)
    ensures
        r is None <==> (width >= MIN_WIDTH && height >= MIN_HEIGHT),
        r matches Some(m) ==> m@ == too_small_message(width, height),
{
    if width >= MIN_WIDTH && height >= MIN_HEIGHT {
        return None;
    }
    let mut m = to_owned_string("Terminal too small (");
    let w = decimal_string(width as usize);
    push_str(&mut m, w.as_str());
    push_str(&mut m, "x");
    let h = decimal_string(height as usize);
    push_str(&mut m, h.as_str());
    push_str(&mut m, "). Minimum size is ");
    let mw = decimal_string(MIN_WIDTH as usize);
    push_str(&mut m, mw.as_str());
    push_str(&mut m, "x");
    let mh = decimal_string(MIN_HEIGHT as usize);
    push_str(&mut m, mh.as_str());
    push_str(&mut m, ".");
    Some(m)
}

} // verus!
