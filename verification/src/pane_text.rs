//! What the tree pane says: its titles, notices and the text of its rows
//! (tree entries, the comment list, content search results), fitted to the
//! pane's width. Drawing them is left to the caller.
use vstd::prelude::*;
use crate::comments::CommentListEntry;
use crate::file_tree::{FileTree, ContentSearchState, ContentSearchEntry, build_highlighted_spans, highlighted_segments, segment_views};
use crate::git_status::{FileStatus, changed_dirs_of};
use crate::paths::{is_below, strip_root};
use crate::text::{chars_of, decimal, decimal_string, push_str, push_char, string_from_char_range, to_owned_string, str_eq};
use crate::tree::{TreeEntry, EntryView, lowercase, name_of};
use crate::unicode::{utf8_of, byte_len, fitting_chars, fitting_char_count};

verus! {

/// `a - b`, or 0 when `b > a`.
pub open spec fn minus(a: int, b: int) -> int {
    if a >= b { a - b } else { 0 }
}

/// `s` shortened from the start to at most `max` characters: when longer,
/// an ellipsis followed by its last `max - 1` characters.
pub open spec fn ellipsis_start(s: Seq<char>, max: int) -> Seq<char> {
    if s.len() > max {
        seq!['\u{2026}'] + s.skip(s.len() - minus(max, 1))
    } else {
        s
    }
}

/// `s` shortened at the end to fit `max_bytes` UTF-8 bytes: when longer, the
/// characters that fit in `max_bytes - 3` bytes followed by `...`.
pub open spec fn ellipsis_end(s: Seq<char>, max_bytes: int) -> Seq<char> {
    if utf8_of(s).len() > max_bytes {
        s.take(fitting_chars(s, minus(max_bytes, 3))) + "..."@
    } else {
        s
    }
}

/// Shorten `name` from the start to at most `max` characters, marking the
/// cut with an ellipsis.
pub fn truncate_start(name: &str, max: usize) -> (r: String)
    ensures
        r@ == ellipsis_start(name@, max as int),
{
    let cs = chars_of(name);
    if cs.len() > max {
        let keep: usize = if max >= 1 { max - 1 } else { 0 };
        let mut r = String::new();
        push_char(&mut r, '\u{2026}');
        push_str(&mut r, string_from_char_range(&cs, cs.len() - keep, cs.len()).as_str());
        proof {
            assert(cs@.subrange(cs@.len() - keep, cs@.len() as int) =~= name@.skip(name@.len() - minus(max as int, 1)));
            assert(r@ =~= ellipsis_start(name@, max as int));
        }
        r
    } else {
        to_owned_string(name)
    }
}

/// Shorten `text` at the end to fit `max_bytes` bytes, never splitting a
/// character, marking the cut with `...`.
pub fn truncate_end(text: &str, max_bytes: usize) -> (r: String)
    ensures
        r@ == ellipsis_end(text@, max_bytes as int),
{
    if byte_len(text) > max_bytes {
        let budget: usize = if max_bytes >= 3 { max_bytes - 3 } else { 0 };
        let k = fitting_char_count(text, budget);
        let cs = chars_of(text);
        let mut r = string_from_char_range(&cs, 0, k);
        push_str(&mut r, "...");
        proof {
            assert(cs@.subrange(0, k as int) =~= text@.take(k as int));
        }
        r
    } else {
        to_owned_string(text)
    }
}

/// The text of a file header row: a marker, then the name shortened from
/// the start to the `width` of the pane (less the marker's four bytes).
pub open spec fn header_row(name: Seq<char>, width: int) -> Seq<char> {
    "\u{25bc} "@ + ellipsis_start(name, minus(width, 4))
}

/// The text of a file header row of a list `width` columns wide.
pub fn header_row_text(name: &str, width: usize) -> (r: String)
    ensures
        r@ == header_row(name@, width as int),
{
    let mut r = to_owned_string("\u{25bc} ");
    let max: usize = if width >= 4 { width - 4 } else { 0 };
    push_str(&mut r, truncate_start(name, max).as_str());
    r
}

/// `:<start>` for one line, `:<start>-<end>` for a range.
pub open spec fn line_label(start: usize, end: usize) -> Seq<char> {
    ":"@ + decimal(start as nat) + if start == end { Seq::empty() } else { "-"@ + decimal(end as nat) }
}

/// Builds [`line_label`].
pub fn line_label_string(start: usize, end: usize) -> (r: String)
    ensures
        r@ == line_label(start, end),
{
    let mut r = to_owned_string(":");
    push_str(&mut r, decimal_string(start).as_str());
    if start != end {
        push_str(&mut r, "-");
        push_str(&mut r, decimal_string(end).as_str());
    }
    proof {
        assert(r@ =~= line_label(start, end));
    }
    r
}

/// The text of a comment row of the comment list: its line label, then its
/// text shortened to what is left of the `width` (less the label and four
/// columns).
pub open spec fn comment_row(start: usize, end: usize, text: Seq<char>, width: int) -> Seq<char> {
    "  "@ + line_label(start, end) + " "@ + ellipsis_end(text, minus(width, line_label(start, end).len() + 4int))
}

/// The text of an entry of the comment list `width` columns wide.
pub open spec fn comment_list_row(e: CommentListEntry, width: int) -> Seq<char> {
    match e {
        CommentListEntry::Header { display_name, .. } => header_row(display_name@, width),
        CommentListEntry::Comment { start_line, end_line, text, .. } => comment_row(start_line, end_line, text@, width),
    }
}

/// The text of an entry of the comment list in a pane `width` columns wide.
pub fn comment_list_row_text(entry: &CommentListEntry, width: usize) -> (r: String)
    ensures
        r@ == comment_list_row(*entry, width as int),
{
    match entry {
        CommentListEntry::Header { display_name, .. } => header_row_text(display_name.as_str(), width),
        CommentListEntry::Comment { start_line, end_line, text, .. } => {
            let label = line_label_string(*start_line, *end_line);
            let used = chars_of(label.as_str()).len();
            let max: usize = if used < width && width - used >= 4 { width - used - 4 } else { 0 };
            let mut r = to_owned_string("  ");
            push_str(&mut r, label.as_str());
            push_str(&mut r, " ");
            push_str(&mut r, truncate_end(text.as_str(), max).as_str());
            proof {
                assert(max == minus(width as int, line_label(*start_line, *end_line).len() + 4int));
                assert(r@ =~= comment_row(*start_line, *end_line, text@, width as int));
            }
            r
        },
    }
}

/// The line label of a content search match.
pub open spec fn match_label(line: usize) -> Seq<char> {
    ":"@ + decimal(line as nat)
}

/// The preview of a content search match, shortened to what is left of the
/// `width` (less its label and four columns).
pub open spec fn match_preview(line: usize, text: Seq<char>, width: int) -> Seq<char> {
    ellipsis_end(text, minus(width, match_label(line).len() + 4int))
}

/// The segments of a content search row `width` columns wide: a header's
/// text plain, or a match's label then its preview with every occurrence of
/// `query` marked (ignoring case).
pub open spec fn search_row(e: ContentSearchEntry, width: int, query: Seq<char>) -> Seq<(Seq<char>, bool)> {
    match e {
        ContentSearchEntry::Header { display_name } => seq![(header_row(display_name@, width), false)],
        ContentSearchEntry::Match { line_number, text_preview, .. } => {
            let preview = match_preview(line_number, text_preview@, width);
            highlighted_segments("  "@ + match_label(line_number) + " "@, preview, query, lowercase(preview), lowercase(query))
        },
    }
}

/// The segments of a content search row in a pane `width` columns wide,
/// each with whether it is a match of `query` to highlight.
pub fn search_row_segments(entry: &ContentSearchEntry, width: usize, query: &str) -> (r: Vec<(String, bool)>)
    ensures
        segment_views(r@) == search_row(*entry, width as int, query@),
{
    match entry {
        ContentSearchEntry::Header { display_name } => {
            let mut r: Vec<(String, bool)> = Vec::new();
            r.push((header_row_text(display_name.as_str(), width), false));
            proof {
                assert(segment_views(r@) =~= search_row(*entry, width as int, query@));
            }
            r
        },
        ContentSearchEntry::Match { line_number, text_preview, .. } => {
            let mut label = to_owned_string(":");
            push_str(&mut label, decimal_string(*line_number).as_str());
            let used = chars_of(label.as_str()).len();
            let max: usize = if used < width && width - used >= 4 { width - used - 4 } else { 0 };
            let preview = truncate_end(text_preview.as_str(), max);
            let mut prefix = to_owned_string("  ");
            push_str(&mut prefix, label.as_str());
            push_str(&mut prefix, " ");
            proof {
                assert(label@ =~= match_label(*line_number));
                assert(max == minus(width as int, match_label(*line_number).len() + 4int));
                assert(prefix@ =~= "  "@ + match_label(*line_number) + " "@);
            }
            build_highlighted_spans(prefix.as_str(), preview.as_str(), query)
        },
    }
}

/// The title of the tree pane: the filename search and its query, the
/// changed-files view, or the plain file list.
pub open spec fn tree_title(t: FileTree) -> Seq<char> {
    match t.search {
        Some(s) => " Files [/"@ + s.query@ + "] "@,
        None => if t.model.filter_changed { " Changed Files "@ } else { " Files "@ },
    }
}

/// The title of the content search pane: the query, and whether the search
/// runs, found matches (how many) or found none; only the query while it is
/// under two bytes long.
pub open spec fn search_title(cs: ContentSearchState) -> Seq<char> {
    let head = " Search ["@ + cs.query@ + "] "@;
    if cs.searching {
        head + "(searching...) "@
    } else if utf8_of(cs.query@).len() < 2 {
        head
    } else if cs.match_count > 0 {
        head + "("@ + decimal(cs.match_count as nat) + " matches) "@
    } else {
        head + "(no matches) "@
    }
}

/// What the content search pane says in place of results: a prompt while
/// the query is under two bytes long, that nothing matched when the finished
/// search found nothing; nothing while it runs or has results.
pub open spec fn search_notice(cs: ContentSearchState) -> Option<Seq<char>> {
    if cs.searching {
        None
    } else if utf8_of(cs.query@).len() < 2 {
        Some("Type 2+ chars to search"@)
    } else if cs.entries@.len() == 0 {
        Some("No matches"@)
    } else {
        None
    }
}

impl ContentSearchState {
    /// The title of the content search pane (see [`search_title`]).
    pub fn title(&self) -> (r: String)
        ensures
            r@ == search_title(*self),
    {
        let mut r = to_owned_string(" Search [");
        push_str(&mut r, self.query.as_str());
        push_str(&mut r, "] ");
        let ghost head = r@;
        if self.searching {
            push_str(&mut r, "(searching...) ");
        } else if byte_len(self.query.as_str()) < 2 {
        } else if self.match_count > 0 {
            push_str(&mut r, "(");
            push_str(&mut r, decimal_string(self.match_count).as_str());
            push_str(&mut r, " matches) ");
            assert(r@ =~= head + "("@ + decimal(self.match_count as nat) + " matches) "@);
        } else {
            push_str(&mut r, "(no matches) ");
        }
        r
    }

    /// What the pane says in place of results, if anything (see
    /// [`search_notice`]).
    pub fn notice(&self) -> (r: Option<String>)
        ensures
            r matches Some(t) ==> search_notice(*self) == Some(t@),
            r is None ==> search_notice(*self) is None,
    {
        if self.searching {
            None
        } else if byte_len(self.query.as_str()) < 2 {
            Some(to_owned_string("Type 2+ chars to search"))
        } else if self.entries.len() == 0 {
            Some(to_owned_string("No matches"))
        } else {
            None
        }
    }
}

/// The change marker of a tree entry.
#[derive(Debug, Clone, Copy, PartialEq, Eq, Structural)]
pub enum EntryMarker {
    /// A directory with changes below it.
    ChangedBelow,
    /// A file's git status.
    Status(FileStatus),
}

/// A row of the file tree: its text, its change marker and whether it holds
/// (or, for a directory, has below it) a commented file.
pub struct EntryRow {
    pub text: String,
    pub marker: Option<EntryMarker>,
    pub has_comments: bool,
}

/// Two spaces per level of depth.
pub open spec fn indent(depth: nat) -> Seq<char> {
    Seq::new(2 * depth, |i: int| ' ')
}

/// The text of a tree entry: its indentation, an expanded or collapsed
/// arrow for a directory (two spaces for a file), and its name.
pub open spec fn entry_text(e: EntryView) -> Seq<char> {
    indent(e.depth as nat) + (if e.is_directory {
        if e.is_expanded { "\u{25bc} "@ } else { "\u{25b6} "@ }
    } else {
        "  "@
    }) + name_of(e)
}

/// The change marker of a tree entry: for a directory, whether changes lie
/// below it; for a file, its git status.
pub open spec fn entry_marker(t: FileTree, e: EntryView) -> Option<EntryMarker> {
    if e.is_directory {
        match t.model.git() {
            Some(g) => if changed_dirs_of(g.statuses()).contains(e.path) { Some(EntryMarker::ChangedBelow) } else { None },
            None => None,
        }
    } else {
        match e.git_status {
            Some(s) => Some(EntryMarker::Status(s)),
            None => None,
        }
    }
}

/// Whether a tree entry shows the comment marker: a file that is commented,
/// a directory with a commented file below it.
pub open spec fn entry_commented(e: EntryView, commented: Seq<String>) -> bool {
    if e.is_directory {
        exists|i: int| 0 <= i < commented.len() && strip_root(commented[i]@, e.path) is Some
    } else {
        exists|i: int| 0 <= i < commented.len() && commented[i]@ == e.path
    }
}

impl FileTree {
    /// The title of the tree pane (see [`tree_title`]).
    pub fn title(&self) -> (r: String)
        ensures
            r@ == tree_title(*self),
    {
        match &self.search {
            Some(s) => {
                let mut r = to_owned_string(" Files [/");
                push_str(&mut r, s.query.as_str());
                push_str(&mut r, "] ");
                r
            },
            None => if self.model.filter_changed {
                to_owned_string(" Changed Files ")
            } else {
                to_owned_string(" Files ")
            },
        }
    }

    /// The row of `entry` in the tree, given the files that have comments.
    pub fn entry_row(&self, entry: &TreeEntry, commented: &Vec<String>) -> (r: EntryRow)
        ensures
            r.text@ == entry_text(entry@),
            r.marker == entry_marker(*self, entry@),
            r.has_comments == entry_commented(entry@, commented@),
    {
        let mut text = String::new();
        let mut k: usize = 0;
        while k < entry.depth
            invariant
                k <= entry.depth,
                text@ == indent(k as nat),
            decreases entry.depth - k,
        {
            push_str(&mut text, "  ");
            k = k + 1;
            proof {
                reveal_strlit("  ");
            }
            assert(text@ =~= indent(k as nat));
        }
        let ghost ind = text@;
        if entry.is_directory {
            if entry.is_expanded {
                push_str(&mut text, "\u{25bc} ");
            } else {
                push_str(&mut text, "\u{25b6} ");
            }
        } else {
            push_str(&mut text, "  ");
        }
        push_str(&mut text, entry.name());
        let marker = if entry.is_directory {
            if self.model.dir_has_changes(entry.path.as_str()) { Some(EntryMarker::ChangedBelow) } else { None }
        } else {
            match entry.git_status {
                Some(s) => Some(EntryMarker::Status(s)),
                None => None,
            }
        };
        let mut has_comments = false;
        let mut i: usize = 0;
        while i < commented.len()
            invariant
                i <= commented@.len(),
                has_comments == if entry.is_directory {
                    exists|j: int| 0 <= j < i && strip_root(commented@[j]@, entry.path@) is Some
                } else {
                    exists|j: int| 0 <= j < i && commented@[j]@ == entry.path@
                },
            decreases commented.len() - i,
        {
            let hit = if entry.is_directory {
                is_below(commented[i].as_str(), entry.path.as_str())
            } else {
                str_eq(commented[i].as_str(), entry.path.as_str())
            };
            if hit {
                has_comments = true;
            }
            i = i + 1;
        }
        EntryRow { text, marker, has_comments }
    }
}

} // verus!
