//! What a pane's key handler asks the application to do.
use vstd::prelude::*;

verus! {

/// Action returned by a component's event handler.
#[derive(Debug, Clone, PartialEq)]
pub enum Action {
    /// No action needed.
    NoAction,
    /// Move cursor down one line in the viewer.
    CursorDown,
    /// Move cursor up one line in the viewer.
    CursorUp,
    /// Quit the application.
    Quit,
    /// Switch focus to the other pane.
    SwitchFocus,
    /// The selected file changed (path provided for viewer to load).
    FileSelected(String),
    /// Enter was pressed on a file — switch focus to viewer too.
    FileOpened(String),
    /// User pressed `c` to add/edit a comment on the cursor line.
    StartComment,
    /// User pressed `V` to enter line-select mode.
    StartLineSelect,
    /// User pressed `e` to export comments.
    ExportComments,
    /// User pressed `x` to delete comment on cursor line.
    DeleteComment,
    /// User pressed `B` to open bug report / feedback URL.
    BugReport,
    /// Enter comment list mode (tree → app → tree).
    EnterCommentList,
    /// A comment in the list was focused — preview file at line.
    CommentFocused { file: String, line: usize },
    /// Enter was pressed on a comment — jump to file at line.
    CommentJumped { file: String, line: usize },
    /// Delete a specific comment identified by file and line range.
    DeleteCommentAt { file: String, start_line: usize, end_line: usize },
    /// User updated the content search query — App should spawn a worker.
    ContentSearchRequested,
}

/// The key of a key press.
#[derive(Debug, Clone, Copy, PartialEq, Eq, Structural)]
pub enum KeyCode {
    Char(char),
    Enter,
    Esc,
    Backspace,
    Delete,
    Tab,
    BackTab,
    Up,
    Down,
    Left,
    Right,
    Home,
    End,
    PageUp,
    PageDown,
    /// Any other key (function keys and the like).
    Other,
}

/// A key press: the key and the modifiers held.
#[derive(Debug, Clone, Copy, PartialEq, Eq, Structural)]
pub struct Key {
    pub code: KeyCode,
    pub shift: bool,
    pub control: bool,
    pub alt: bool,
    /// Any other modifier (super, hyper, meta).
    pub other: bool,
}

impl Key {
    /// A key pressed with no modifier.
    pub fn plain(code: KeyCode) -> (r: Key)
        ensures
            r.code == code,
            r.is_plain(),
    {
        Key { code, shift: false, control: false, alt: false, other: false }
    }

    /// No modifier is held.
    pub open spec fn is_plain(self) -> bool {
        !self.shift && !self.control && !self.alt && !self.other
    }

    /// Exactly the shift modifier is held.
    pub open spec fn is_shifted(self) -> bool {
        self.shift && !self.control && !self.alt && !self.other
    }

    /// Exactly the control modifier is held.
    pub open spec fn is_control(self) -> bool {
        !self.shift && self.control && !self.alt && !self.other
    }

    /// Exactly the alt modifier is held.
    pub open spec fn is_alt(self) -> bool {
        !self.shift && !self.control && self.alt && !self.other
    }

    /// The character `c` pressed with no modifier.
    pub open spec fn is_char(self, c: char) -> bool {
        self.code == KeyCode::Char(c) && self.is_plain()
    }

    /// Whether no modifier is held.
    pub fn no_modifiers(&self) -> (r: bool)
        ensures
            r == self.is_plain(),
    {
        !self.shift && !self.control && !self.alt && !self.other
    }

    /// Whether this is character `c` with no modifier.
    pub fn char_plain(&self, c: char) -> (r: bool)
        ensures
            r == self.is_char(c),
    {
        match self.code {
            KeyCode::Char(x) => x == c && self.no_modifiers(),
            _ => false,
        }
    }
}

} // verus!
